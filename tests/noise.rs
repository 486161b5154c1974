use ray_tracer::noise::{gradient, Noise};

#[test]
fn permutation_starts_with_known_values() {
    let n = Noise::new();
    assert_eq!(n.p(0), 151);
    assert_eq!(n.p(254), 156);
}

#[test]
fn permutation_index_wraps_at_255() {
    let n = Noise::new();
    assert_eq!(n.p(255), 151);
    assert_eq!(n.p(510), 151);
}

#[test]
fn lattice_hashes() {
    let n = Noise::new();
    assert_eq!(n.hash(0, 0, 0), 36);
    assert_eq!(n.hash(1, 2, 3), 42);
    assert_eq!(n.hash(255, 256, 256), 110);
}

#[test]
fn cloned_noise_hashes_alike() {
    let n = Noise::new();
    let m = n.clone();
    assert_eq!(m.hash(1, 2, 3), n.hash(1, 2, 3));
}

#[test]
fn gradients_from_low_bits() {
    assert_eq!(gradient(0), (1, 1, 0));
    assert_eq!(gradient(7), (-1, 0, -1));
    assert_eq!(gradient(29), (0, -1, 1));
    assert_eq!(gradient(255), (0, -1, -1));
}
