//! A ray tracer's integer and structural core: the refractive container
//! stack, the pixel grid and its PPM text, the Perlin lattice tables, the
//! recursion budget of secondary rays, and the primitive kinds.

pub mod canvas;
pub mod matrix;
pub mod noise;
pub mod ppm;
pub mod recursion;
pub mod refraction;
pub mod shapes;
