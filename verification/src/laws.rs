//! What holds of every line.

use vstd::prelude::*;
use crate::geometry::{
    GridPoint, adjacent, has_tie, is_tie, line_points, major_span, minor_offset, minor_span,
    mirror_x, mirror_y, span, transpose,
};
use crate::rounding::{
    lemma_offset_at_end, lemma_offset_at_start, lemma_offset_mirror, lemma_offset_step,
    lemma_quotient_by_bounds,
};

verus! {

/// A line begins at its start point and ends at its end point.
pub proof fn lemma_line_endpoints(start: GridPoint, end: GridPoint)
    ensures
        line_points(start, end).first() == start,
        line_points(start, end).last() == end,
{
    lemma_offset_at_start(minor_span(start, end), major_span(start, end));
    lemma_offset_at_end(minor_span(start, end), major_span(start, end));
}

/// A line has one point more than the larger of its two spans.
pub proof fn lemma_line_length(start: GridPoint, end: GridPoint)
    ensures
        line_points(start, end).len() == 1 + if span(start.0, end.0) >= span(start.1, end.1) {
            span(start.0, end.0)
        } else {
            span(start.1, end.1)
        },
{
}

/// Each point of a line but the first is one of the eight neighbours of the
/// point before it.
pub proof fn lemma_line_connected(start: GridPoint, end: GridPoint)
    ensures
        forall|i: int|
            0 <= i < line_points(start, end).len() - 1 ==> adjacent(
                #[trigger] line_points(start, end)[i],
                line_points(start, end)[i + 1],
            ),
{
    let line = line_points(start, end);
    assert forall|i: int| 0 <= i < line.len() - 1 implies adjacent(#[trigger] line[i], line[i + 1]) by {
        lemma_offset_step(minor_span(start, end), major_span(start, end), i);
    }
}

/// A line between a point and itself is that one point.
pub proof fn lemma_line_of_one_point(p: GridPoint)
    ensures
        line_points(p, p) == seq![p],
{
    assert(line_points(p, p) =~= seq![p]);
}

/// The line walked from the other end has as many points and the same two
/// end points. Read backwards it is the very same line, point for point,
/// exactly when rounding never has to break a tie: a tie is broken towards the
/// far end, which is another cell for each of the two directions.
pub proof fn lemma_line_reversed(start: GridPoint, end: GridPoint)
    ensures
        line_points(end, start).len() == line_points(start, end).len(),
        line_points(end, start).first() == line_points(start, end).last(),
        line_points(end, start).last() == line_points(start, end).first(),
        line_points(end, start).reverse() == line_points(start, end) <==> !has_tie(start, end),
{
    lemma_line_endpoints(start, end);
    lemma_line_endpoints(end, start);
    let forth = line_points(start, end);
    let back = line_points(end, start).reverse();
    let minor = minor_span(start, end);
    let major = major_span(start, end);
    assert forall|k: int| 0 <= k <= major implies (#[trigger] back[k] == forth[k] <==> !is_tie(
        minor,
        major,
        k,
    )) by {
        if major > 0 {
            lemma_offset_mirror(minor, major, k);
        }
    }
    if has_tie(start, end) {
        let k = choose|k: int| 0 <= k <= major && #[trigger] is_tie(minor, major, k);
        assert(back[k] != forth[k]);
    } else {
        assert(back =~= forth);
    }
}

/// The two directions of walking a line visit the same set of cells exactly
/// when rounding never has to break a tie.
pub proof fn lemma_line_reversed_cells(start: GridPoint, end: GridPoint)
    ensures
        line_points(end, start).to_set() == line_points(start, end).to_set() <==> !has_tie(
            start,
            end,
        ),
{
    let forth = line_points(start, end);
    let back = line_points(end, start);
    let minor = minor_span(start, end);
    let major = major_span(start, end);
    lemma_line_reversed(start, end);
    if has_tie(start, end) {
        // Where the tie is, the walk back passes through the other cell, and
        // it passes through no other cell with that major coordinate.
        let k = choose|k: int| 0 <= k <= major && #[trigger] is_tie(minor, major, k);
        lemma_offset_mirror(minor, major, k);
        assert forall|j: int| 0 <= j <= major implies #[trigger] back[j] != forth[k] by {
            assert(back[j] == back.reverse()[major - j]);
        }
        assert(forth.to_set().contains(forth[k]));
        assert(!back.to_set().contains(forth[k]));
    } else {
        assert forall|p: GridPoint| back.to_set().contains(p) <==> forth.to_set().contains(p) by {
            if back.to_set().contains(p) {
                let j = choose|j: int| 0 <= j < back.len() && back[j] == p;
                assert(back.reverse()[major - j] == p);
            }
            if forth.to_set().contains(p) {
                let j = choose|j: int| 0 <= j < forth.len() && forth[j] == p;
                assert(back[major - j] == back.reverse()[j]);
            }
        }
        assert(back.to_set() =~= forth.to_set());
    }
}

/// The line between the mirror images of two points is the mirror image of
/// the line between the points, for each of the three mirrors that carry the
/// eight octants into one another.
pub proof fn lemma_line_mirrored(start: GridPoint, end: GridPoint)
    ensures
        line_points(mirror_x(start), mirror_x(end)) == line_points(start, end).map_values(
            |p: GridPoint| mirror_x(p),
        ),
        line_points(mirror_y(start), mirror_y(end)) == line_points(start, end).map_values(
            |p: GridPoint| mirror_y(p),
        ),
        line_points(transpose(start), transpose(end)) == line_points(start, end).map_values(
            |p: GridPoint| transpose(p),
        ),
{
    let minor = minor_span(start, end);
    let major = major_span(start, end);
    assert forall|k: int| 0 <= k <= major && minor == major implies #[trigger] minor_offset(
        minor,
        major,
        k,
    ) == k by {
        if major > 0 {
            assert(2 * minor * k + major == k * (2 * major) + major) by (nonlinear_arith)
                requires
                    minor == major,
            ;
            lemma_quotient_by_bounds(2 * minor * k + major, 2 * major, k);
        }
    }
    assert forall|k: int| minor == 0 implies #[trigger] minor_offset(minor, major, k) == 0 by {
        if major > 0 {
            assert(2 * minor * k == 0) by (nonlinear_arith)
                requires
                    minor == 0,
            ;
            lemma_quotient_by_bounds(2 * minor * k + major, 2 * major, 0);
        }
    }
    assert(line_points(mirror_x(start), mirror_x(end)) =~= line_points(start, end).map_values(
        |p: GridPoint| mirror_x(p),
    ));
    assert(line_points(mirror_y(start), mirror_y(end)) =~= line_points(start, end).map_values(
        |p: GridPoint| mirror_y(p),
    ));
    assert(line_points(transpose(start), transpose(end)) =~= line_points(start, end).map_values(
        |p: GridPoint| transpose(p),
    ));
}

} // verus!
