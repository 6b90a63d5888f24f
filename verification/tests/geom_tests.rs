use flappy::geom::{to_units, Rect, POS_SCALE};

#[test]
fn overlap_is_strict() {
    let a = Rect::from_center(5, 5, 10, 10);
    let b = Rect::from_center(14, 14, 10, 10);
    let touching = Rect::from_center(15, 15, 10, 10);
    let apart = Rect::from_center(16, 16, 10, 10);
    assert!(a.has_intersection(&b));
    assert!(b.has_intersection(&a));
    assert!(!a.has_intersection(&touching), "a shared edge is no overlap");
    assert!(!a.has_intersection(&apart));
    assert!(a.has_intersection(&a));
}

#[test]
fn odd_sizes_follow_floored_halving() {
    // A width of 5 puts the left edge 2 left of the centre and the right
    // edge 3 right of it.
    let a = Rect::from_center(0, 0, 5, 5);
    let b = Rect::from_center(-4, 0, 5, 5);
    let c = Rect::from_center(-5, 0, 5, 5);
    assert!(a.has_intersection(&b));
    assert!(!a.has_intersection(&c));
}

#[test]
fn to_units_floors() {
    assert_eq!(to_units(0), 0);
    assert_eq!(to_units(POS_SCALE - 1), 0);
    assert_eq!(to_units(POS_SCALE), 1);
    assert_eq!(to_units(-1), -1);
    assert_eq!(to_units(-POS_SCALE), -1);
    assert_eq!(to_units(-POS_SCALE - 1), -2);
    assert_eq!(to_units(3 * POS_SCALE + 7), 3);
    assert_eq!(to_units(-3 * POS_SCALE - 7), -4);
}

#[test]
fn top_edge_matches_floored_centre() {
    let r = Rect::from_center(100, 745, 50, 50);
    assert_eq!(r.top_edge(), 720);
    let below = Rect::from_center(100, 746, 50, 50);
    assert_eq!(below.top_edge(), 721);
}
