use ray_tracer::refraction::refraction_sides;

fn index_of(ids: &[usize], side: Option<usize>) -> f64 {
    match side {
        None => 1.0,
        Some(p) => match ids[p] {
            10 => 1.5,
            20 => 2.0,
            30 => 2.5,
            _ => panic!("unknown shape"),
        },
    }
}

#[test]
fn compute_intersection_properties_refraction_indices() {
    let (a, b, c) = (10_usize, 20_usize, 30_usize);
    let ids = vec![a, b, c, b, c, a];
    let expected = [
        (0, 1.0, 1.5),
        (1, 1.5, 2.0),
        (2, 2.0, 2.5),
        (3, 2.5, 2.5),
        (4, 2.5, 1.5),
        (5, 1.5, 1.0),
    ];
    for (index, n1, n2) in expected {
        let (before, after) = refraction_sides(&ids, index);
        assert_eq!(index_of(&ids, before), n1);
        assert_eq!(index_of(&ids, after), n2);
    }
}

#[test]
fn sides_are_positions_of_entering_intersections() {
    let ids = vec![10, 20, 30, 20, 30, 10];
    assert_eq!(refraction_sides(&ids, 0), (None, Some(0)));
    assert_eq!(refraction_sides(&ids, 2), (Some(1), Some(2)));
    assert_eq!(refraction_sides(&ids, 3), (Some(2), Some(2)));
    assert_eq!(refraction_sides(&ids, 4), (Some(2), Some(0)));
    assert_eq!(refraction_sides(&ids, 5), (Some(0), None));
}

#[test]
fn hit_past_the_end_is_in_empty_space() {
    let ids = vec![10, 10];
    assert_eq!(refraction_sides(&ids, 2), (None, None));
    assert_eq!(refraction_sides(&Vec::new(), 0), (None, None));
}

#[test]
fn single_sphere_entered_then_left() {
    let ids = vec![7, 7];
    assert_eq!(refraction_sides(&ids, 0), (None, Some(0)));
    assert_eq!(refraction_sides(&ids, 1), (Some(0), None));
}

#[test]
fn shape_met_three_times_is_inside_again() {
    let ids = vec![4, 4, 4];
    assert_eq!(refraction_sides(&ids, 2), (None, Some(2)));
}
