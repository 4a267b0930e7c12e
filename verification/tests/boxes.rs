use pathtrace::aabb::{lower, upper, Aabb, AxisCut, Corner, Slabs};

fn corner(x: i64, y: i64, z: i64) -> Corner {
    Corner { x, y, z }
}

fn cube(lo: i64, hi: i64) -> Aabb {
    Aabb { min: corner(lo, lo, lo), max: corner(hi, hi, hi) }
}

fn cut(at_min: i64, at_max: i64, reversed: bool) -> AxisCut {
    AxisCut { at_min, at_max, reversed }
}

#[test]
fn lower_and_upper() {
    assert_eq!(lower(3, -4), -4);
    assert_eq!(upper(3, -4), 3);
    assert_eq!(lower(i64::MIN, i64::MAX), i64::MIN);
    assert_eq!(upper(i64::MIN, i64::MAX), i64::MAX);
    assert_eq!(lower(5, 5), 5);
}

#[test]
fn corner_along_each_axis() {
    let c = corner(1, 2, 3);
    assert_eq!(c.along(0), 1);
    assert_eq!(c.along(1), 2);
    assert_eq!(c.along(2), 3);
}

#[test]
fn new_refuses_inverted_corners() {
    assert_eq!(Aabb::new(corner(0, 0, 0), corner(1, 1, 1)), Some(cube(0, 1)));
    assert_eq!(Aabb::new(corner(0, 0, 0), corner(0, 0, 0)), Some(cube(0, 0)));
    assert_eq!(Aabb::new(corner(2, 0, 0), corner(1, 1, 1)), None);
    assert_eq!(Aabb::new(corner(0, 2, 0), corner(1, 1, 1)), None);
    assert_eq!(Aabb::new(corner(0, 0, 2), corner(1, 1, 1)), None);
}

#[test]
fn union_is_componentwise() {
    let a = Aabb { min: corner(0, 5, -3), max: corner(4, 6, -1) };
    let b = Aabb { min: corner(-2, 7, -2), max: corner(1, 9, 8) };
    let u = a.union(&b);
    assert_eq!(u, Aabb { min: corner(-2, 5, -3), max: corner(4, 9, 8) });
}

#[test]
fn union_is_commutative() {
    let a = Aabb { min: corner(0, 5, -3), max: corner(4, 6, -1) };
    let b = Aabb { min: corner(-2, 7, -2), max: corner(1, 9, 8) };
    assert_eq!(a.union(&b), b.union(&a));
}

#[test]
fn union_is_associative() {
    let a = cube(0, 1);
    let b = Aabb { min: corner(-2, 7, -2), max: corner(1, 9, 8) };
    let c = cube(-10, -9);
    assert_eq!(a.union(&b).union(&c), a.union(&b.union(&c)));
    assert_eq!(
        a.union(&b).union(&c),
        Aabb { min: corner(-10, -10, -10), max: corner(1, 9, 8) }
    );
}

#[test]
fn union_with_itself_is_itself() {
    let a = cube(-3, 7);
    assert_eq!(a.union(&a), a);
}

#[test]
fn slab_test_hits_where_intervals_overlap() {
    let s = Slabs { x: cut(2, 8, false), y: cut(1, 6, false), z: cut(3, 9, false) };
    assert!(s.hit(0, 100));
    assert!(s.hit(5, 100));
    assert!(s.hit(0, 4));
}

#[test]
fn slab_test_misses_outside_the_interval() {
    let s = Slabs { x: cut(2, 8, false), y: cut(1, 6, false), z: cut(3, 9, false) };
    assert!(!s.hit(6, 100));
    assert!(!s.hit(0, 3));
    assert!(!s.hit(7, 100));
}

#[test]
fn slab_test_swaps_reversed_bounds() {
    let forward = Slabs { x: cut(2, 8, false), y: cut(1, 6, false), z: cut(3, 9, false) };
    let reversed = Slabs { x: cut(8, 2, true), y: cut(6, 1, true), z: cut(9, 3, true) };
    for (lo, hi) in [(0, 100), (5, 100), (0, 4), (6, 100), (0, 3)] {
        assert_eq!(forward.hit(lo, hi), reversed.hit(lo, hi));
    }
    let unswapped = Slabs { x: cut(8, 2, false), y: cut(1, 6, false), z: cut(3, 9, false) };
    assert!(!unswapped.hit(0, 100));
}

#[test]
fn slab_test_misses_disjoint_slabs() {
    let s = Slabs { x: cut(0, 2, false), y: cut(3, 5, false), z: cut(0, 10, false) };
    assert!(!s.hit(-100, 100));
}

#[test]
fn slab_test_misses_a_box_crossed_in_one_instant() {
    let s = Slabs { x: cut(4, 4, false), y: cut(0, 10, false), z: cut(0, 10, false) };
    assert!(!s.hit(0, 100));
}
