//! The mathematical model of a rasterised line.
//!
//! A line from `start` to `end` is a finite sequence of grid points. Its
//! major axis is the one with the larger span (the y axis when both spans are
//! equal); the line visits every coordinate of the major axis between the two
//! end points once, and the coordinate on the minor axis is the ideal line's,
//! rounded to the nearest cell.
//!
//! Everything here is stated over unbounded integers, so that the model says
//! what a line is for any two points, whatever the machine can hold.

use vstd::prelude::*;

verus! {

/// A grid point as the model sees it: `(x, y)`.
pub type GridPoint = (int, int);

/// The grid point that a pair of machine integers stands for.
pub open spec fn grid_point(p: (i32, i32)) -> GridPoint {
    (p.0 as int, p.1 as int)
}

/// The grid points that a sequence of pairs of machine integers stands for.
pub open spec fn grid_points(s: Seq<(i32, i32)>) -> Seq<GridPoint> {
    Seq::new(s.len(), |i: int| grid_point(s[i]))
}

/// The distance between two coordinates on one axis.
pub open spec fn span(a: int, b: int) -> int {
    if a < b {
        b - a
    } else {
        a - b
    }
}

/// The direction of travel on one axis from `a` to `b`: `1` when `a < b`,
/// `-1` otherwise. Equal coordinates count as travelling downwards; no point
/// of a line depends on that, since such an axis is never moved along.
pub open spec fn direction(a: int, b: int) -> int {
    if a < b {
        1
    } else {
        -1
    }
}

/// The coordinate reached from `a` after `n` unit moves in the direction of `b`.
pub open spec fn advance(a: int, b: int, n: int) -> int {
    if a < b {
        a + n
    } else {
        a - n
    }
}

/// Whether the x axis is the major axis of the line from `start` to `end`.
/// Equal spans make the y axis the major one.
pub open spec fn x_is_major(start: GridPoint, end: GridPoint) -> bool {
    span(start.0, end.0) > span(start.1, end.1)
}

/// The span of the line on its major axis: the number of moves it makes.
pub open spec fn major_span(start: GridPoint, end: GridPoint) -> int {
    if x_is_major(start, end) {
        span(start.0, end.0)
    } else {
        span(start.1, end.1)
    }
}

/// The span of the line on its minor axis.
pub open spec fn minor_span(start: GridPoint, end: GridPoint) -> int {
    if x_is_major(start, end) {
        span(start.1, end.1)
    } else {
        span(start.0, end.0)
    }
}

/// The number of moves on the minor axis that lie before point `k` of a line
/// with the given spans: `minor * k / major`, rounded to the nearest integer,
/// an exact half rounded up. A line without extent makes no move.
pub open spec fn minor_offset(minor: int, major: int, k: int) -> int {
    if major <= 0 {
        0
    } else {
        (2 * minor * k + major) / (2 * major)
    }
}

/// Point `k` of the line from `start` to `end`, counted from zero.
pub open spec fn point_at(start: GridPoint, end: GridPoint, k: int) -> GridPoint {
    let off = minor_offset(minor_span(start, end), major_span(start, end), k);
    if x_is_major(start, end) {
        (advance(start.0, end.0, k), advance(start.1, end.1, off))
    } else {
        (advance(start.0, end.0, off), advance(start.1, end.1, k))
    }
}

/// The line from `start` to `end`: one point for each coordinate of the major
/// axis, both end points included.
pub open spec fn line_points(start: GridPoint, end: GridPoint) -> Seq<GridPoint> {
    Seq::new((major_span(start, end) + 1) as nat, |k: int| point_at(start, end, k))
}

/// Whether the ideal line passes exactly midway between two cells at step `k`,
/// so that rounding has to pick one of them.
pub open spec fn is_tie(minor: int, major: int, k: int) -> bool {
    major > 0 && (2 * minor * k + major) % (2 * major) == 0
}

/// Whether rounding has to break a tie anywhere on the line from `start` to `end`.
pub open spec fn has_tie(start: GridPoint, end: GridPoint) -> bool {
    exists|k: int|
        0 <= k <= major_span(start, end) && #[trigger] is_tie(
            minor_span(start, end),
            major_span(start, end),
            k,
        )
}

/// Whether `q` is one of the eight neighbours of `p`.
pub open spec fn adjacent(p: GridPoint, q: GridPoint) -> bool {
    &&& span(p.0, q.0) <= 1
    &&& span(p.1, q.1) <= 1
    &&& p != q
}

/// The mirror image of `p` with left and right exchanged.
pub open spec fn mirror_x(p: GridPoint) -> GridPoint {
    (-p.0, p.1)
}

/// The mirror image of `p` with up and down exchanged.
pub open spec fn mirror_y(p: GridPoint) -> GridPoint {
    (p.0, -p.1)
}

/// The mirror image of `p` with the two axes exchanged.
pub open spec fn transpose(p: GridPoint) -> GridPoint {
    (p.1, p.0)
}

} // verus!
