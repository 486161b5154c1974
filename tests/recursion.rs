use ray_tracer::recursion::bounce_depth;
use ray_tracer::shapes::{Cube, DummyPattern, Plane, Sphere};

#[test]
fn no_bounce_at_depth_zero() {
    assert_eq!(bounce_depth(0, true), None);
    assert_eq!(bounce_depth(0, false), None);
}

#[test]
fn no_bounce_without_contribution() {
    assert_eq!(bounce_depth(5, false), None);
}

#[test]
fn bounce_uses_one_less() {
    assert_eq!(bounce_depth(5, true), Some(4));
    assert_eq!(bounce_depth(1, true), Some(0));
    assert_eq!(bounce_depth(255, true), Some(254));
}

#[test]
fn primitive_kinds_compare_equal() {
    assert_eq!(Sphere {}, Sphere {});
    assert_eq!(Plane {}, Plane {});
    assert_eq!(Cube {}, Cube {});
    assert_eq!(DummyPattern {}, DummyPattern {});
}
