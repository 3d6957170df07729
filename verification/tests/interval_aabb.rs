use pathtracer::aabb::{AABB, MIN_THICKNESS};
use pathtracer::interval::Interval;
use pathtracer::vec3::Vec3;

#[test]
fn interval_keeps_its_bounds() {
    let iv = Interval::new(-3, 7);
    assert_eq!(iv.min, -3);
    assert_eq!(iv.max, 7);
    assert_eq!(iv.size(), 10);
}

#[test]
fn interval_size_of_sentinels() {
    assert_eq!(Interval::universe().size(), i64::MAX as i128 - i64::MIN as i128);
    assert_eq!(Interval::empty().size(), i64::MIN as i128 - i64::MAX as i128);
    assert_eq!(Interval::default(), Interval::empty());
}

#[test]
fn interval_contains_is_inclusive() {
    let iv = Interval::new(2, 5);
    assert!(iv.contains(2));
    assert!(iv.contains(5));
    assert!(iv.contains(3));
    assert!(!iv.contains(1));
    assert!(!iv.contains(6));
}

#[test]
fn interval_surrounds_is_exclusive() {
    let iv = Interval::new(2, 5);
    assert!(!iv.surrounds(2));
    assert!(!iv.surrounds(5));
    assert!(iv.surrounds(3));
    assert!(iv.surrounds(4));
}

#[test]
fn interval_clamp_saturates() {
    let iv = Interval::new(2, 5);
    assert_eq!(iv.clamp(-10), 2);
    assert_eq!(iv.clamp(2), 2);
    assert_eq!(iv.clamp(4), 4);
    assert_eq!(iv.clamp(5), 5);
    assert_eq!(iv.clamp(99), 5);
}

#[test]
fn interval_expand_is_symmetric() {
    assert_eq!(Interval::new(10, 10).expand(2), Interval::new(9, 11));
    assert_eq!(Interval::new(0, 4).expand(6), Interval::new(-3, 7));
    assert_eq!(Interval::new(0, 4).expand(7), Interval::new(-3, 7));
    assert_eq!(Interval::new(0, 10).expand(-4), Interval::new(2, 8));
    assert_eq!(Interval::new(0, 10).expand(-5), Interval::new(2, 8));
    assert_eq!(Interval::new(0, 10).expand(0), Interval::new(0, 10));
}

#[test]
fn interval_expand_stops_at_the_infinities() {
    assert_eq!(Interval::new(i64::MIN, i64::MAX).expand(10), Interval::universe());
    assert_eq!(Interval::new(i64::MIN + 1, i64::MAX - 2).expand(8), Interval::universe());
    assert_eq!(
        Interval::new(0, 0).expand(i64::MIN),
        Interval::new(1i64 << 62, -(1i64 << 62))
    );
}

#[test]
fn interval_union_takes_the_outer_bounds() {
    let a = Interval::new(0, 3);
    let b = Interval::new(2, 9);
    let c = Interval::new(-4, 1);
    assert_eq!(Interval::new_interval(&a, &b), Interval::new(0, 9));
    assert_eq!(Interval::new_interval(&b, &c), Interval::new(-4, 9));
    assert_eq!(Interval::new_interval(&a, &Interval::empty()), a);
    assert_eq!(Interval::new_interval(&Interval::empty(), &a), a);
    assert_eq!(Interval::new_interval(&a, &Interval::universe()), Interval::universe());
}

fn sample_boxes() -> Vec<AABB> {
    let mut boxes = Vec::new();
    let coords: [i64; 5] = [-7, -1, 0, 4, 12];
    for &a in coords.iter() {
        for &b in coords.iter() {
            for &c in coords.iter() {
                boxes.push(AABB::new_points(&Vec3::new(a, b, c), &Vec3::new(c, a + 3, b - 2)));
            }
        }
    }
    boxes.push(AABB::empty());
    boxes.push(AABB::universe());
    boxes
}

#[test]
fn aabb_union_is_commutative_and_associative() {
    let boxes = sample_boxes();
    for a in boxes.iter().step_by(7) {
        for b in boxes.iter().step_by(11) {
            assert_eq!(AABB::new_aabb(a, b), AABB::new_aabb(b, a));
            for c in boxes.iter().step_by(13) {
                let left = AABB::new_aabb(&AABB::new_aabb(a, b), c);
                let right = AABB::new_aabb(a, &AABB::new_aabb(b, c));
                assert_eq!(left, right);
            }
        }
    }
}

#[test]
fn aabb_union_with_empty_changes_nothing() {
    for b in sample_boxes().iter() {
        assert_eq!(AABB::new_aabb(b, &AABB::empty()), *b);
        assert_eq!(AABB::new_aabb(&AABB::default(), b), *b);
    }
}

#[test]
fn aabb_of_a_flat_quad_is_padded() {
    // A quad in the plane z = 5: no extent along z.
    let b = AABB::new_points(&Vec3::new(0, 0, 5), &Vec3::new(10, 20, 5));
    assert_eq!(b.x, Interval::new(0, 10));
    assert_eq!(b.y, Interval::new(0, 20));
    assert_eq!(b.z, Interval::new(4, 6));
    assert!(b.z.size() >= MIN_THICKNESS as i128);
}

#[test]
fn aabb_of_a_point_is_padded_on_every_axis() {
    let b = AABB::new_points(&Vec3::new(3, -3, 0), &Vec3::new(3, -3, 0));
    assert_eq!(b.x, Interval::new(2, 4));
    assert_eq!(b.y, Interval::new(-4, -2));
    assert_eq!(b.z, Interval::new(-1, 1));
}

#[test]
fn aabb_of_thin_slab_is_padded_to_more_than_minimum() {
    // An extent of one unit is below the minimum and is widened by the whole minimum.
    let b = AABB::new_points(&Vec3::new(0, 0, 0), &Vec3::new(1, 2, 3));
    assert_eq!(b.x, Interval::new(-1, 2));
    assert_eq!(b.y, Interval::new(0, 2));
    assert_eq!(b.z, Interval::new(0, 3));
}

#[test]
fn aabb_padding_holds_for_every_finite_pair() {
    for b in sample_boxes().iter().take(125) {
        assert!(b.x.size() >= MIN_THICKNESS as i128);
        assert!(b.y.size() >= MIN_THICKNESS as i128);
        assert!(b.z.size() >= MIN_THICKNESS as i128);
    }
}

#[test]
fn aabb_new_points_orders_the_corners() {
    let b = AABB::new_points(&Vec3::new(9, -2, 7), &Vec3::new(1, 5, -7));
    assert_eq!(b.x, Interval::new(1, 9));
    assert_eq!(b.y, Interval::new(-2, 5));
    assert_eq!(b.z, Interval::new(-7, 7));
}

#[test]
fn aabb_new_pads_thin_intervals_only() {
    let b = AABB::new(&Interval::new(0, 0), &Interval::new(0, 2), &Interval::new(5, 6));
    assert_eq!(b.x, Interval::new(-1, 1));
    assert_eq!(b.y, Interval::new(0, 2));
    assert_eq!(b.z, Interval::new(4, 7));
}

#[test]
fn aabb_new_leaves_the_universe_alone() {
    let u = Interval::universe();
    assert_eq!(AABB::new(&u, &u, &u), AABB::universe());
}

#[test]
fn aabb_new_aabb_does_not_pad() {
    let flat = AABB { x: Interval::new(0, 0), y: Interval::new(1, 1), z: Interval::new(2, 2) };
    assert_eq!(AABB::new_aabb(&flat, &flat), flat);
}

#[test]
fn aabb_axis_interval_selects_by_index() {
    let b = AABB { x: Interval::new(0, 1), y: Interval::new(2, 3), z: Interval::new(4, 5) };
    assert_eq!(*b.axis_interval(0), Interval::new(0, 1));
    assert_eq!(*b.axis_interval(1), Interval::new(2, 3));
    assert_eq!(*b.axis_interval(2), Interval::new(4, 5));
    assert_eq!(*b.axis_interval(3), Interval::new(0, 1));
    assert_eq!(*b.axis_interval(u32::MAX), Interval::new(0, 1));
}

#[test]
fn vec3_axis_selects_by_index() {
    let v = Vec3::new(1, 2, 3);
    assert_eq!(v.axis(0), 1);
    assert_eq!(v.axis(1), 2);
    assert_eq!(v.axis(2), 3);
    assert_eq!(v.axis(7), 3);
}

fn box_of_sizes(sx: i64, sy: i64, sz: i64) -> AABB {
    AABB { x: Interval::new(0, sx), y: Interval::new(0, sy), z: Interval::new(0, sz) }
}

#[test]
fn aabb_longest_axis_picks_the_greatest_extent() {
    assert_eq!(box_of_sizes(9, 2, 3).longest_axis(), 0);
    assert_eq!(box_of_sizes(2, 9, 3).longest_axis(), 1);
    assert_eq!(box_of_sizes(2, 3, 9).longest_axis(), 2);
}

#[test]
fn aabb_longest_axis_breaks_ties() {
    // Of axes of one extent z goes first, then x.
    assert_eq!(box_of_sizes(5, 5, 5).longest_axis(), 2);
    assert_eq!(box_of_sizes(5, 5, 1).longest_axis(), 0);
    assert_eq!(box_of_sizes(5, 1, 5).longest_axis(), 2);
    assert_eq!(box_of_sizes(1, 5, 5).longest_axis(), 2);
    assert_eq!(box_of_sizes(0, 0, -1).longest_axis(), 0);
    assert_eq!(AABB::empty().longest_axis(), 2);
    assert_eq!(AABB::universe().longest_axis(), 2);
}
