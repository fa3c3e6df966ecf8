use tracer::math::{bits_of_key, key_of_bits, vmax, vmin, Slab, Vec2, Vec3, AABB, INFINITY, ONE};

fn v(x: i64, y: i64, z: i64) -> Vec3 {
    Vec3 { x, y, z }
}

#[test]
fn vmin_and_vmax_take_each_component_on_its_own() {
    let a = v(1, 9, -4);
    let b = v(2, 3, -4);
    assert_eq!(vmin(&a, &b), v(1, 3, -4));
    assert_eq!(vmax(&a, &b), v(2, 9, -4));
    assert_eq!(vmin(&b, &a), v(1, 3, -4));
    assert_eq!(vmax(&b, &a), v(2, 9, -4));
}

#[test]
fn zeros_is_the_origin() {
    assert_eq!(Vec3::zeros(), v(0, 0, 0));
    assert_eq!(AABB::zeros(), AABB { min: v(0, 0, 0), max: v(0, 0, 0) });
}

#[test]
fn new_keeps_the_corners_it_is_given() {
    let made = AABB::new(v(1, -5, 0), v(1, 5, 9));
    assert_eq!(made.min, v(1, -5, 0));
    assert_eq!(made.max, v(1, 5, 9));
}

#[test]
fn union_is_the_least_box_around_both() {
    let a = AABB::new(v(0, 0, 0), v(2, 2, 2));
    let b = AABB::new(v(-1, 1, 1), v(1, 5, 2));
    let both = a.union(&b);
    assert_eq!(both, AABB { min: v(-1, 0, 0), max: v(2, 5, 2) });
    assert_eq!(b.union(&a), both);
    assert_eq!(both.union(&a), both);
    assert_eq!(a.union(&a), a);
}

#[test]
fn union_with_a_flat_box() {
    let flat = AABB::new(v(3, 3, 7), v(4, 4, 7));
    let both = AABB::zeros().union(&flat);
    assert_eq!(both, AABB { min: v(0, 0, 0), max: v(4, 4, 7) });
}

#[test]
fn neg_turns_every_sign() {
    assert_eq!(v(1, -2, 0).neg(), v(-1, 2, 0));
    assert_eq!(v(i64::MAX, -i64::MAX, 5).neg(), v(-i64::MAX, i64::MAX, -5));
}

#[test]
fn the_pairs_of_a_vector() {
    let a = v(1, 2, 3);
    assert_eq!(a.xy(), Vec2 { x: 1, y: 2 });
    assert_eq!(a.xz(), Vec2 { x: 1, y: 3 });
    assert_eq!(a.yz(), Vec2 { x: 2, y: 3 });
    assert_eq!(Vec3::new(1, 2, 3), a);
}

#[test]
fn keys_of_patterns() {
    assert_eq!(key_of_bits(0), 0);
    assert_eq!(key_of_bits(0x8000_0000_0000_0000), 0);
    assert_eq!(key_of_bits(1), 1);
    assert_eq!(key_of_bits(0x8000_0000_0000_0001), -1);
    assert_eq!(key_of_bits(0x7fff_ffff_ffff_ffff), i64::MAX);
    assert_eq!(key_of_bits(0xffff_ffff_ffff_ffff), -i64::MAX);
    assert_eq!(key_of_bits(1.0f64.to_bits()), 0x3ff0_0000_0000_0000);
    assert_eq!(key_of_bits((-1.0f64).to_bits()), -0x3ff0_0000_0000_0000);
}

#[test]
fn patterns_of_keys() {
    assert_eq!(bits_of_key(0), 0);
    assert_eq!(bits_of_key(1), 1);
    assert_eq!(bits_of_key(-1), 0x8000_0000_0000_0001);
    assert_eq!(bits_of_key(i64::MAX), 0x7fff_ffff_ffff_ffff);
    assert_eq!(bits_of_key(-i64::MAX), 0xffff_ffff_ffff_ffff);
    for x in [0.0f64, 1.0, -1.0, 0.01, -2.5e-300, 1e300, f64::INFINITY, f64::NEG_INFINITY] {
        assert_eq!(f64::from_bits(bits_of_key(key_of_bits(x.to_bits()))), x);
    }
}

#[test]
fn keys_are_ordered_as_the_numbers_are() {
    let numbers = [
        f64::NEG_INFINITY, -1e300, -2.5, -1.0, -1e-300, -5e-324, 0.0, 5e-324, 1e-300, 0.01, 1.0,
        2.5, 1e300, f64::INFINITY,
    ];
    for pair in numbers.windows(2) {
        assert!(key_of_bits(pair[0].to_bits()) < key_of_bits(pair[1].to_bits()));
    }
    for x in numbers {
        assert_eq!(key_of_bits((-x).to_bits()), -key_of_bits(x.to_bits()));
    }
}

#[test]
fn a_slab_is_passed_where_entry_comes_before_exit_within_reach() {
    let forwards = Slab { t0: 10, t1: 20, inverse: 1 };
    assert!(AABB::test_component(&forwards, 0, 100));
    assert!(AABB::test_component(&forwards, 15, 100));
    assert!(AABB::test_component(&forwards, 0, 11));
    // The reach ends where the slab begins, or begins where the slab ends: not passed.
    assert!(!AABB::test_component(&forwards, 0, 10));
    assert!(!AABB::test_component(&forwards, 20, 100));
    assert!(!AABB::test_component(&forwards, 21, 100));
    assert!(!AABB::test_component(&forwards, 0, 9));
}

#[test]
fn a_ray_that_runs_backwards_enters_at_the_far_plane() {
    let backwards = Slab { t0: 20, t1: 10, inverse: -1 };
    assert!(AABB::test_component(&backwards, 0, 100));
    assert!(!AABB::test_component(&backwards, 0, 10));
    // Read forwards, the same distances bound nothing.
    let forwards = Slab { t0: 20, t1: 10, inverse: 1 };
    assert!(!AABB::test_component(&forwards, 0, 100));
}

#[test]
fn a_slab_of_no_thickness_is_not_passed() {
    let flat = Slab { t0: 10, t1: 10, inverse: 1 };
    assert!(!AABB::test_component(&flat, 0, 100));
}

#[test]
fn a_box_is_crossed_where_the_ray_is_within_all_three_slabs_at_once() {
    let early = Slab { t0: 10, t1: 20, inverse: 1 };
    let overlapping = Slab { t0: 30, t1: 15, inverse: -3 };
    let late = Slab { t0: 50, t1: 40, inverse: -3 };
    // Within all three from 15 to 20.
    assert!(AABB::intersects(&early, &overlapping, &early, 0, 100));
    assert!(AABB::intersects(&overlapping, &early, &early, 0, 100));
    assert!(AABB::intersects(&early, &early, &overlapping, 0, 100));
    // Each slab is passed within reach, but the ray has left the one before
    // it enters the other: it misses the box.
    assert!(AABB::test_component(&early, 0, 100));
    assert!(AABB::test_component(&late, 0, 100));
    assert!(!AABB::intersects(&early, &late, &early, 0, 100));
    assert!(!AABB::intersects(&late, &early, &early, 0, 100));
    assert!(!AABB::intersects(&early, &early, &late, 0, 100));
    // The reach counts as well.
    assert!(!AABB::intersects(&early, &overlapping, &early, 20, 100));
    assert!(!AABB::intersects(&early, &overlapping, &early, 0, 15));
    assert!(AABB::intersects(&early, &overlapping, &early, 19, 100));
    assert!(AABB::intersects(&early, &overlapping, &early, 0, 16));
    // Slabs that touch in one distance leave nothing to be within.
    let after = Slab { t0: 20, t1: 30, inverse: 1 };
    assert!(!AABB::intersects(&early, &after, &early, 0, 100));
}

#[test]
fn the_reach_is_narrowed_to_the_slab() {
    let forwards = Slab { t0: 10, t1: 20, inverse: 1 };
    let backwards = Slab { t0: 20, t1: 10, inverse: -1 };
    for slab in [forwards, backwards] {
        assert_eq!(AABB::narrow(&slab, 0, 100), (10, 20));
        assert_eq!(AABB::narrow(&slab, 12, 100), (12, 20));
        assert_eq!(AABB::narrow(&slab, 0, 18), (10, 18));
        assert_eq!(AABB::narrow(&slab, 30, 40), (30, 20));
    }
}

fn slab_of(min: f64, max: f64, origin: f64, direction: f64) -> Slab {
    let inverse = direction.recip();
    Slab {
        t0: key_of_bits(((min - origin) * inverse).to_bits()),
        t1: key_of_bits(((max - origin) * inverse).to_bits()),
        inverse: key_of_bits(inverse.to_bits()),
    }
}

fn crosses_unit_box(origin: [f64; 3], direction: [f64; 3]) -> bool {
    AABB::intersects(
        &slab_of(0.0, 1.0, origin[0], direction[0]),
        &slab_of(0.0, 1.0, origin[1], direction[1]),
        &slab_of(0.0, 1.0, origin[2], direction[2]),
        key_of_bits(0.0f64.to_bits()),
        INFINITY,
    )
}

#[test]
fn a_ray_that_passes_the_slabs_one_after_the_other_misses_the_box() {
    // Within x and z from 1 to 2, within y from 4 to 5.
    assert!(!crosses_unit_box([-1.0, 5.0, -1.0], [1.0, -1.0, 1.0]));
    // Through the middle of the box.
    assert!(crosses_unit_box([-1.0, 1.5, -1.0], [1.0, -1.0, 1.0]));
    assert!(crosses_unit_box([-1.0, -1.0, -1.0], [1.0, 1.0, 1.0]));
    // Away from the box.
    assert!(!crosses_unit_box([-1.0, -1.0, -1.0], [-1.0, -1.0, -1.0]));
    // From inside.
    assert!(crosses_unit_box([0.5, 0.5, 0.5], [1.0, 2.0, -3.0]));
}

#[test]
fn the_keys_of_one_and_of_the_infinite() {
    assert_eq!(ONE, key_of_bits(1.0f64.to_bits()));
    assert_eq!(INFINITY, key_of_bits(f64::INFINITY.to_bits()));
    assert!(key_of_bits(f64::MAX.to_bits()) < INFINITY);
}
