use perlica_logic::factory::grid::{is_in_bounds, range_within, ranges_edge_adjacent, ranges_overlap};
use perlica_logic::factory::{GridPos, GridRange};

#[test]
fn in_bounds_basic() {
    let r = GridRange { x: 0, y: 0, w: 4, h: 4 };
    assert!(is_in_bounds(GridPos { x: 0, y: 0 }, r));
    assert!(is_in_bounds(GridPos { x: 3, y: 3 }, r));
    assert!(!is_in_bounds(GridPos { x: 4, y: 0 }, r));
    assert!(!is_in_bounds(GridPos { x: 0, y: -1 }, r));
}

#[test]
fn in_bounds_negative_origin() {
    let r = GridRange { x: -10, y: -10, w: 5, h: 5 };
    assert!(is_in_bounds(GridPos { x: -10, y: -10 }, r));
    assert!(is_in_bounds(GridPos { x: -6, y: -6 }, r));
    assert!(!is_in_bounds(GridPos { x: -11, y: 0 }, r));
}

#[test]
fn range_within_strict() {
    let outer = GridRange { x: 0, y: 0, w: 10, h: 10 };
    assert!(range_within(GridRange { x: 0, y: 0, w: 5, h: 5 }, outer));
    assert!(range_within(GridRange { x: 5, y: 5, w: 5, h: 5 }, outer));
    assert!(!range_within(GridRange { x: -1, y: 0, w: 5, h: 5 }, outer));
    assert!(!range_within(GridRange { x: 6, y: 6, w: 5, h: 5 }, outer));
}

#[test]
fn overlap_symmetric() {
    let a = GridRange { x: 0, y: 0, w: 3, h: 3 };
    let b = GridRange { x: 2, y: 2, w: 3, h: 3 };
    assert!(ranges_overlap(a, b));
    assert!(ranges_overlap(b, a));
    let c = GridRange { x: 5, y: 5, w: 2, h: 2 };
    assert!(!ranges_overlap(a, c));
    assert!(!ranges_overlap(c, a));
}

#[test]
fn edge_adjacent_rejects_corner_touch() {
    let a = GridRange { x: 0, y: 0, w: 2, h: 2 };
    let corner = GridRange { x: 2, y: 2, w: 2, h: 2 };
    assert!(!ranges_edge_adjacent(a, corner));
    let edge = GridRange { x: 2, y: 0, w: 2, h: 2 };
    assert!(ranges_edge_adjacent(a, edge));
    let overlap = GridRange { x: 1, y: 0, w: 2, h: 2 };
    assert!(!ranges_edge_adjacent(a, overlap));
}

#[test]
fn edge_adjacent_vertical_touch_and_symmetry() {
    let a = GridRange { x: 0, y: 0, w: 2, h: 2 };
    let below = GridRange { x: 1, y: 2, w: 3, h: 1 };
    assert!(ranges_edge_adjacent(a, below));
    assert!(ranges_edge_adjacent(below, a));
    let far = GridRange { x: 0, y: 3, w: 2, h: 2 };
    assert!(!ranges_edge_adjacent(a, far));
}

#[test]
fn within_extreme_widths_do_not_wrap() {
    let outer = GridRange { x: i32::MAX - 1, y: 0, w: 2, h: 1 };
    let inner = GridRange { x: i32::MAX - 1, y: 0, w: 2, h: 1 };
    assert!(range_within(inner, outer));
    assert!(is_in_bounds(GridPos { x: i32::MAX, y: 0 }, outer));
    let wide = GridRange { x: 0, y: 0, w: u32::MAX, h: 1 };
    assert!(is_in_bounds(GridPos { x: i32::MAX, y: 0 }, wide));
}
