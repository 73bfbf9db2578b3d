//! Grid validation helpers shared by the placement operations.
//!
//! All geometry is in grid coordinates; negative values are legal. A range
//! covers the cells `x <= cx < x + w`, `y <= cy < y + h`.
use vstd::prelude::*;

use super::{GridPos, GridRange};

verus! {

/// Exclusive right edge of a range, as a mathematical integer.
pub open spec fn right_edge(r: GridRange) -> int {
    r.x + r.w
}

/// Exclusive bottom edge of a range, as a mathematical integer.
pub open spec fn bottom_edge(r: GridRange) -> int {
    r.y + r.h
}

pub open spec fn spec_in_bounds(pos: GridPos, range: GridRange) -> bool {
    &&& range.x <= pos.x < right_edge(range)
    &&& range.y <= pos.y < bottom_edge(range)
}

pub open spec fn spec_range_within(inner: GridRange, outer: GridRange) -> bool {
    &&& inner.x >= outer.x
    &&& inner.y >= outer.y
    &&& right_edge(inner) <= right_edge(outer)
    &&& bottom_edge(inner) <= bottom_edge(outer)
}

pub open spec fn spec_ranges_overlap(a: GridRange, b: GridRange) -> bool {
    &&& a.x < right_edge(b)
    &&& right_edge(a) > b.x
    &&& a.y < bottom_edge(b)
    &&& bottom_edge(a) > b.y
}

pub open spec fn spec_ranges_edge_adjacent(a: GridRange, b: GridRange) -> bool {
    &&& !spec_ranges_overlap(a, b)
    &&& {
        ||| (right_edge(a) == b.x || right_edge(b) == a.x) && a.y < bottom_edge(b) && bottom_edge(a) > b.y
        ||| (bottom_edge(a) == b.y || bottom_edge(b) == a.y) && a.x < right_edge(b) && right_edge(a) > b.x
    }
}

/// Inclusive top-left, exclusive bottom-right.
pub fn is_in_bounds(pos: GridPos, range: GridRange) -> (r: bool)
    ensures
        r == spec_in_bounds(pos, range),
{
    let x2 = range.x as i64 + range.w as i64;
    let y2 = range.y as i64 + range.h as i64;
    let x_ok = pos.x >= range.x && (pos.x as i64) < x2;
    let y_ok = pos.y >= range.y && (pos.y as i64) < y2;
    x_ok && y_ok
}

/// Rejects buildings that would straddle the region boundary.
pub fn range_within(inner: GridRange, outer: GridRange) -> (r: bool)
    ensures
        r == spec_range_within(inner, outer),
{
    let inner_x2 = inner.x as i64 + inner.w as i64;
    let inner_y2 = inner.y as i64 + inner.h as i64;
    let outer_x2 = outer.x as i64 + outer.w as i64;
    let outer_y2 = outer.y as i64 + outer.h as i64;
    inner.x >= outer.x && inner.y >= outer.y && inner_x2 <= outer_x2 && inner_y2 <= outer_y2
}

/// Rejects overlapping buildings.
pub fn ranges_overlap(a: GridRange, b: GridRange) -> (r: bool)
    ensures
        r == spec_ranges_overlap(a, b),
{
    let a_x2 = a.x as i64 + a.w as i64;
    let a_y2 = a.y as i64 + a.h as i64;
    let b_x2 = b.x as i64 + b.w as i64;
    let b_y2 = b.y as i64 + b.h as i64;
    (a.x as i64) < b_x2 && a_x2 > b.x as i64 && (a.y as i64) < b_y2 && a_y2 > b.y as i64
}

/// Conveyor / connection rule: the ranges share an edge, not just a corner,
/// and do not overlap.
pub fn ranges_edge_adjacent(a: GridRange, b: GridRange) -> (r: bool)
    ensures
        r == spec_ranges_edge_adjacent(a, b),
{
    if !ranges_overlap(a, b) {
        let a_x2 = a.x as i64 + a.w as i64;
        let a_y2 = a.y as i64 + a.h as i64;
        let b_x2 = b.x as i64 + b.w as i64;
        let b_y2 = b.y as i64 + b.h as i64;
        let horizontal_touch = (a_x2 == b.x as i64 || b_x2 == a.x as i64) && (a.y as i64) < b_y2
            && a_y2 > b.y as i64;
        let vertical_touch = (a_y2 == b.y as i64 || b_y2 == a.y as i64) && (a.x as i64) < b_x2
            && a_x2 > b.x as i64;
        return horizontal_touch || vertical_touch;
    }
    false
}

/// Overlap does not depend on the order of the two ranges.
pub proof fn lemma_overlap_symmetric(a: GridRange, b: GridRange)
    ensures
        spec_ranges_overlap(a, b) == spec_ranges_overlap(b, a),
{
}

/// Edge adjacency does not depend on the order of the two ranges.
pub proof fn lemma_edge_adjacent_symmetric(a: GridRange, b: GridRange)
    ensures
        spec_ranges_edge_adjacent(a, b) == spec_ranges_edge_adjacent(b, a),
{
}

/// Every cell of a range that lies within another lies within the other too.
pub proof fn lemma_within_keeps_cells(pos: GridPos, inner: GridRange, outer: GridRange)
    requires
        spec_range_within(inner, outer),
        spec_in_bounds(pos, inner),
    ensures
        spec_in_bounds(pos, outer),
{
}

} // verus!
