//! The primitive kinds without parameters of their own. Each is the unit
//! primitive of its kind in its object frame: the unit sphere at the origin,
//! the xz-plane through the origin, and the cube spanning -1 to 1 on each
//! axis. What a kind does with a ray is given by the code that renders it.

use vstd::prelude::*;

verus! {

/// The unit sphere at the origin.
#[derive(Clone, Copy, Debug, PartialEq, Eq, Structural)]
pub struct Sphere {}

/// The xz-plane through the origin.
#[derive(Clone, Copy, Debug, PartialEq, Eq, Structural)]
pub struct Plane {}

/// The cube from -1 to 1 on each axis.
#[derive(Clone, Copy, Debug, PartialEq, Eq, Structural)]
pub struct Cube {}

/// A pattern that gives each point its own coordinates as a color; used to
/// see which frame a point reaches a pattern in.
#[derive(Clone, Copy, Debug, PartialEq, Eq, Structural)]
pub struct DummyPattern {}

} // verus!
