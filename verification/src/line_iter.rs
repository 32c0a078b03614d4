//! The line as a sequence that is produced point by point.
//!
//! [`LineIter`] is Bresenham's algorithm: it keeps the current cell and an
//! error term, makes one move on the major axis for each point, and a move on
//! the minor axis as well whenever the error term says that the ideal line has
//! drifted half a cell or more away.

use vstd::prelude::*;
use crate::geometry::{
    GridPoint, direction, grid_point, grid_points, line_points, major_span, minor_span, span,
};
use vstd::arithmetic::div_mod::lemma_div_is_ordered;
use crate::rounding::{lemma_offset_at_end, lemma_quotient_bounds, lemma_quotient_by_bounds};

verus! {

/// Walks the grid points of a line from its first point to its last.
///
/// Its view is the sequence of points that are still to come.
///
/// Points have 32-bit coordinates. The position, the step counter and the
/// error term are held in 64 bits, which no line between two such points can
/// overflow: a line can be made of any two points and walked to its end, and
/// no arithmetic wraps around or fails on the way.
pub struct LineIter {
    /// The cell that is handed out next.
    x: i64,
    y: i64,
    /// The number of points still to come, less one.
    counter: i64,
    /// Not negative when the next move has to correct the minor coordinate.
    error: i64,
    /// Added to `error` with every move: twice the minor span.
    error_increment: i64,
    /// Taken from `error` with every correction: twice the major span.
    error_decrement: i64,
    /// One move on the major axis.
    increment: (i8, i8),
    /// One move on the minor axis.
    correction_increment: (i8, i8),
}

impl View for LineIter {
    type V = Seq<GridPoint>;

    /// The points that are still to come, the next one first.
    closed spec fn view(&self) -> Seq<GridPoint> {
        if self.counter < 0 {
            Seq::empty()
        } else {
            Seq::new((self.counter + 1) as nat, |j: int| self.ahead(j))
        }
    }
}

impl LineIter {
    /// The line from `start` to `end`, both included, with `start` as the
    /// point that comes first. Any two points make a line.
    pub fn new(start: (i32, i32), end: (i32, i32)) -> (line: LineIter)
        ensures
            line@ == line_points(grid_point(start), grid_point(end)),
    {
        let (start_x, start_y) = start;
        let (end_x, end_y) = end;
        let (delta_x, increment_x) = make_delta(start_x, end_x);
        let (delta_y, increment_y) = make_delta(start_y, end_y);
        proof {
            // The last point to come is `end`.
            lemma_offset_at_end(
                minor_span(grid_point(start), grid_point(end)),
                major_span(grid_point(start), grid_point(end)),
            );
        }
        if delta_x > delta_y {
            LineIter {
                x: start_x as i64,
                y: start_y as i64,
                counter: delta_x,
                error: delta_y * 2 - delta_x,
                error_increment: delta_y * 2,
                error_decrement: delta_x * 2,
                increment: (increment_x, 0),
                correction_increment: (0, increment_y),
            }
        } else {
            LineIter {
                x: start_x as i64,
                y: start_y as i64,
                counter: delta_y,
                error: delta_x * 2 - delta_y,
                error_increment: delta_x * 2,
                error_decrement: delta_y * 2,
                increment: (0, increment_y),
                correction_increment: (increment_x, 0),
            }
        }
    }

    /// Hands out the next point of the line and moves on. Once the last point
    /// has been handed out it returns `None`, and does so however often it is
    /// called again.
    pub fn next(&mut self) -> (point: Option<(i32, i32)>)
        ensures
            match point {
                Some(p) => {
                    &&& old(self)@.len() > 0
                    &&& grid_point(p) == old(self)@.first()
                    &&& final(self)@ == old(self)@.drop_first()
                },
                None => old(self)@.len() == 0 && *final(self) == *old(self),
            },
    {
        proof {
            use_type_invariant(&*self);
        }
        if self.counter < 0 {
            return None;
        }
        let ghost before = *self;
        let (x, y) = (self.x, self.y);
        let mut error = self.error;
        let mut next_x = x;
        let mut next_y = y;
        if error >= 0 {
            error -= self.error_decrement;
            next_x += self.correction_increment.0 as i64;
            next_y += self.correction_increment.1 as i64;
        }
        error += self.error_increment;
        next_x += self.increment.0 as i64;
        next_y += self.increment.1 as i64;
        let ghost after = LineIter {
            x: next_x,
            y: next_y,
            counter: (self.counter - 1) as i64,
            error,
            error_increment: self.error_increment,
            error_decrement: self.error_decrement,
            increment: self.increment,
            correction_increment: self.correction_increment,
        };
        proof {
            if before.error_decrement > 0 {
                before.lemma_first_move();
            }
            if before.counter > 0 {
                before.lemma_corrections_grow(1, before.counter as int);
                assert forall|j: int| after.ahead(j) == before.ahead(j + 1) by {
                    before.lemma_corrections_after_move(after, j);
                }
            }
        }
        *self = LineIter {
            x: next_x,
            y: next_y,
            counter: self.counter - 1,
            error,
            error_increment: self.error_increment,
            error_decrement: self.error_decrement,
            increment: self.increment,
            correction_increment: self.correction_increment,
        };
        Some((x as i32, y as i32))
    }

    /// Walks the line to its end and gathers the points that were still to
    /// come, in the order in which `next` hands them out.
    pub fn collect(self) -> (points: Vec<(i32, i32)>)
        ensures
            grid_points(points@) == self@,
    {
        let mut rest = self;
        let mut points: Vec<(i32, i32)> = Vec::new();
        loop
            invariant
                grid_points(points@) + rest@ == self@,
            ensures
                grid_points(points@) == self@,
            decreases rest@.len(),
        {
            match rest.next() {
                Some(p) => points.push(p),
                None => break ,
            }
        }
        points
    }
}

/// The distance between two coordinates and the direction from the first to
/// the second: `1` when `start < end`, `-1` otherwise, also when they are equal.
pub fn make_delta(start: i32, end: i32) -> (delta: (i64, i8))
    ensures
        delta.0 == span(start as int, end as int),
        delta.1 == direction(start as int, end as int),
{
    if start < end {
        (end as i64 - start as i64, 1)
    } else {
        (start as i64 - end as i64, -1)
    }
}

/// The change of a coordinate after `n` moves by `step`, which is -1, 0 or 1.
spec fn moved(step: i8, n: int) -> int {
    if step > 0 {
        n
    } else if step < 0 {
        -n
    } else {
        0
    }
}

/// Whether `step` is one move forwards or backwards.
spec fn is_unit(step: i8) -> bool {
    step == 1 || step == -1
}

/// Whether both coordinates of `p` fit into 32 bits.
spec fn fits_i32(p: GridPoint) -> bool {
    i32::MIN <= p.0 <= i32::MAX && i32::MIN <= p.1 <= i32::MAX
}

impl LineIter {
    /// How far the ideal line has drifted from the current cell, counted so
    /// that a correction is due whenever it reaches `error_decrement`.
    spec fn phase(self) -> int {
        self.error - self.error_increment + self.error_decrement
    }

    /// The number of corrections among the next `j` moves.
    spec fn corrections(self, j: int) -> int {
        if self.error_decrement <= 0 {
            0
        } else {
            (self.phase() + self.error_increment * j) / (self.error_decrement as int)
        }
    }

    /// The position after `j` more moves.
    spec fn ahead(self, j: int) -> GridPoint {
        let c = self.corrections(j);
        (
            self.x + moved(self.increment.0, j) + moved(self.correction_increment.0, c),
            self.y + moved(self.increment.1, j) + moved(self.correction_increment.1, c),
        )
    }

    /// What holds of the fields of every `LineIter`: a line that is exhausted
    /// has counter -1; until then the error term is in step with the two
    /// adjustments, the two moves are unit moves on different axes, and the
    /// points from the current one to the last one have 32-bit coordinates.
    #[verifier::type_invariant]
    spec fn well_formed(self) -> bool {
        &&& -1 <= self.counter <= u32::MAX
        &&& self.counter >= 0 ==> {
            &&& 0 <= self.error_increment <= self.error_decrement <= 2 * u32::MAX
            &&& 0 <= self.phase()
            &&& self.phase() < self.error_decrement || (self.phase() == 0 && self.counter == 0)
            &&& {
                ||| is_unit(self.increment.0) && self.increment.1 == 0
                    && self.correction_increment.0 == 0 && is_unit(self.correction_increment.1)
                ||| self.increment.0 == 0 && is_unit(self.increment.1)
                    && is_unit(self.correction_increment.0) && self.correction_increment.1 == 0
            }
            &&& fits_i32((self.x as int, self.y as int))
            &&& fits_i32(self.ahead(self.counter as int))
        }
    }
}

impl LineIter {
    /// Whether a correction is part of the next move.
    spec fn corrects_next(self) -> bool {
        self.error >= 0
    }

    /// The first move makes a correction exactly when the error term is not
    /// negative, and no correction lies before it.
    proof fn lemma_first_move(self)
        requires
            self.well_formed(),
            self.counter >= 0,
            self.error_decrement > 0,
        ensures
            self.corrections(0) == 0,
            self.corrections(1) == if self.corrects_next() {
                1int
            } else {
                0int
            },
    {
        let period = self.error_decrement as int;
        lemma_quotient_by_bounds(self.phase(), period, 0);
        if self.corrects_next() {
            lemma_quotient_by_bounds(self.phase() + self.error_increment, period, 1);
        } else {
            lemma_quotient_by_bounds(self.phase() + self.error_increment, period, 0);
        }
    }

    /// The number of corrections does not fall as the moves go on.
    proof fn lemma_corrections_grow(self, i: int, j: int)
        requires
            self.well_formed(),
            self.counter >= 0,
            i <= j,
        ensures
            self.corrections(i) <= self.corrections(j),
    {
        let period = self.error_decrement as int;
        let rate = self.error_increment as int;
        if period > 0 {
            assert(rate * i <= rate * j) by (nonlinear_arith)
                requires
                    0 <= rate,
                    i <= j,
            ;
            lemma_div_is_ordered(self.phase() + rate * i, self.phase() + rate * j, period);
        }
    }

    /// After one move, what is `j` moves ahead is what was `j + 1` moves ahead.
    proof fn lemma_corrections_after_move(self, after: LineIter, j: int)
        requires
            self.well_formed(),
            self.counter >= 0,
            self.error_decrement > 0,
            after.error_increment == self.error_increment,
            after.error_decrement == self.error_decrement,
            after.error == self.error + self.error_increment - if self.corrects_next() {
                self.error_decrement as int
            } else {
                0int
            },
            after.increment == self.increment,
            after.correction_increment == self.correction_increment,
            after.x == self.x + moved(self.increment.0, 1) + moved(
                self.correction_increment.0,
                self.corrections(1),
            ),
            after.y == self.y + moved(self.increment.1, 1) + moved(
                self.correction_increment.1,
                self.corrections(1),
            ),
        ensures
            after.corrections(j) == self.corrections(j + 1) - self.corrections(1),
            after.ahead(j) == self.ahead(j + 1),
    {
        self.lemma_first_move();
        let period = self.error_decrement as int;
        let rate = self.error_increment as int;
        let b = self.corrections(1);
        let q = self.corrections(j + 1);
        assert(rate * (j + 1) == rate * j + rate) by (nonlinear_arith);
        lemma_quotient_bounds(self.phase() + rate * (j + 1), period);
        assert((q - b) * period == q * period - b * period) by (nonlinear_arith);
        lemma_quotient_by_bounds(after.phase() + rate * j, period, q - b);
    }
}

} // verus!
