//! Facts about rounded division, on which the proofs about lines rest.

use vstd::prelude::*;
use vstd::arithmetic::div_mod::{
    lemma_fundamental_div_mod, lemma_fundamental_div_mod_converse, lemma_mod_bound,
};
use crate::geometry::{is_tie, minor_offset};

verus! {

/// A quotient is known by the two multiples of the divisor that enclose the dividend.
pub(crate) proof fn lemma_quotient_by_bounds(x: int, d: int, q: int)
    requires
        d > 0,
        q * d <= x < q * d + d,
    ensures
        x / d == q,
        x % d == x - q * d,
{
    lemma_fundamental_div_mod_converse(x, d, q, x - q * d);
}

/// The two multiples of the divisor that enclose a dividend.
pub(crate) proof fn lemma_quotient_bounds(x: int, d: int)
    requires
        d > 0,
    ensures
        (x / d) * d <= x < (x / d) * d + d,
        x % d == x - (x / d) * d,
{
    lemma_fundamental_div_mod(x, d);
    lemma_mod_bound(x, d);
    assert(d * (x / d) == (x / d) * d) by (nonlinear_arith);
}

/// No move on the minor axis lies before the first point.
pub(crate) proof fn lemma_offset_at_start(minor: int, major: int)
    ensures
        minor_offset(minor, major, 0) == 0,
{
    if major > 0 {
        lemma_quotient_by_bounds(2 * minor * 0 + major, 2 * major, 0);
    }
}

/// All moves on the minor axis lie before the last point.
pub(crate) proof fn lemma_offset_at_end(minor: int, major: int)
    requires
        major > 0 || minor == 0,
    ensures
        minor_offset(minor, major, major) == minor,
{
    if major > 0 {
        assert(2 * minor * major == minor * (2 * major)) by (nonlinear_arith);
        lemma_quotient_by_bounds(2 * minor * major + major, 2 * major, minor);
    }
}

/// From one point to the next, the line makes at most one move on the minor axis.
pub(crate) proof fn lemma_offset_step(minor: int, major: int, k: int)
    requires
        0 <= minor <= major,
    ensures
        minor_offset(minor, major, k) <= minor_offset(minor, major, k + 1) <= minor_offset(
            minor,
            major,
            k,
        ) + 1,
{
    if major > 0 {
        let q = minor_offset(minor, major, k);
        let x = 2 * minor * k + major;
        let y = 2 * minor * (k + 1) + major;
        lemma_quotient_bounds(x, 2 * major);
        assert(y == x + 2 * minor) by (nonlinear_arith)
            requires
                x == 2 * minor * k + major,
                y == 2 * minor * (k + 1) + major,
        ;
        assert((q + 1) * (2 * major) == q * (2 * major) + 2 * major) by (nonlinear_arith);
        if y < q * (2 * major) + 2 * major {
            lemma_quotient_by_bounds(y, 2 * major, q);
        } else {
            lemma_quotient_by_bounds(y, 2 * major, q + 1);
        }
    }
}

/// Seen from the two ends of a line, the moves on the minor axis before one
/// point add up to the minor span, and to one more where rounding broke a tie
/// there: both directions round the half upwards.
pub(crate) proof fn lemma_offset_mirror(minor: int, major: int, k: int)
    requires
        major > 0,
    ensures
        minor_offset(minor, major, k) + minor_offset(minor, major, major - k) == if is_tie(
            minor,
            major,
            k,
        ) {
            minor + 1
        } else {
            minor
        },
{
    let d = 2 * major;
    let x = 2 * minor * k + major;
    let y = 2 * minor * (major - k) + major;
    let q = x / d;
    lemma_quotient_bounds(x, d);
    assert(x + y == (minor + 1) * d) by (nonlinear_arith)
        requires
            x == 2 * minor * k + major,
            y == 2 * minor * (major - k) + major,
            d == 2 * major,
    ;
    if x % d == 0 {
        assert((minor + 1 - q) * d == (minor + 1) * d - q * d) by (nonlinear_arith);
        lemma_quotient_by_bounds(y, d, minor + 1 - q);
    } else {
        assert((minor - q) * d == (minor + 1) * d - q * d - d) by (nonlinear_arith);
        lemma_quotient_by_bounds(y, d, minor - q);
    }
}

} // verus!
