//! Wrapping an exact integer into a range.

use vstd::prelude::*;
use vstd::arithmetic::div_mod::{
    lemma_fundamental_div_mod,
    lemma_fundamental_div_mod_converse,
    lemma_mod_bound,
};

verus! {

/// The one integer between `lo` and `hi` that differs from `v` by a multiple
/// of the width `hi - lo + 1` of that range: what is left of `v` in a kind
/// that holds `lo ..= hi` and drops what does not fit.
pub open spec fn wrapped(v: int, lo: int, hi: int) -> int {
    lo + (v - lo) % (hi - lo + 1)
}

/// `wrapped` lands in the range.
pub proof fn lemma_wrapped_in_range(v: int, lo: int, hi: int)
    requires
        lo <= hi,
    ensures
        lo <= wrapped(v, lo, hi) <= hi,
{
    lemma_mod_bound(v - lo, hi - lo + 1);
}

/// Whatever lies in the range and differs from `v` by `k` widths is
/// `wrapped(v, lo, hi)`.
pub proof fn lemma_wrapped_is(v: int, lo: int, hi: int, k: int)
    requires
        lo <= hi,
        lo <= v + k * (hi - lo + 1) <= hi,
    ensures
        wrapped(v, lo, hi) == v + k * (hi - lo + 1),
{
    let width = hi - lo + 1;
    let rest = v + k * width - lo;
    assert(v - lo == (-k) * width + rest) by (nonlinear_arith)
        requires
            rest == v + k * width - lo,
    ;
    lemma_fundamental_div_mod_converse(v - lo, width, -k, rest);
}

/// `wrapped(v, lo, hi)` differs from `v` by a whole number of widths.
pub proof fn lemma_wrapped_differs_by_widths(v: int, lo: int, hi: int) -> (k: int)
    requires
        lo <= hi,
    ensures
        wrapped(v, lo, hi) == v + k * (hi - lo + 1),
{
    let width = hi - lo + 1;
    lemma_fundamental_div_mod(v - lo, width);
    let k = -((v - lo) / width);
    assert(k * width == -(width * ((v - lo) / width))) by (nonlinear_arith)
        requires
            k == -((v - lo) / width),
    ;
    k
}

/// What is in range already stays as it is.
pub proof fn lemma_wrapped_in_range_is_same(v: int, lo: int, hi: int)
    requires
        lo <= v <= hi,
    ensures
        wrapped(v, lo, hi) == v,
{
    assert(v + 0 * (hi - lo + 1) == v);
    lemma_wrapped_is(v, lo, hi, 0);
}

/// What is less than one width out of range comes back by one width.
pub proof fn lemma_wrapped_near(v: int, lo: int, hi: int)
    requires
        lo <= hi,
        lo - (hi - lo + 1) <= v <= hi + (hi - lo + 1),
    ensures
        wrapped(v, lo, hi) == if v > hi {
            v - (hi - lo + 1)
        } else if v < lo {
            v + (hi - lo + 1)
        } else {
            v
        },
{
    let width = hi - lo + 1;
    assert(1 * width == width);
    assert((-1) * width == -width);
    assert(0 * width == 0);
    if v > hi {
        lemma_wrapped_is(v, lo, hi, -1);
    } else if v < lo {
        lemma_wrapped_is(v, lo, hi, 1);
    } else {
        lemma_wrapped_is(v, lo, hi, 0);
    }
}

/// Wrapping a total once at the end gives what wrapping after each addition
/// gives.
pub proof fn lemma_wrapped_plus(t: int, x: int, lo: int, hi: int)
    requires
        lo <= hi,
    ensures
        wrapped(wrapped(t, lo, hi) + x, lo, hi) == wrapped(t + x, lo, hi),
{
    let width = hi - lo + 1;
    let k1 = lemma_wrapped_differs_by_widths(t, lo, hi);
    let k2 = lemma_wrapped_differs_by_widths(wrapped(t, lo, hi) + x, lo, hi);
    lemma_wrapped_in_range(wrapped(t, lo, hi) + x, lo, hi);
    assert(t + k1 * width + x + k2 * width == t + x + (k1 + k2) * width) by (nonlinear_arith);
    lemma_wrapped_is(t + x, lo, hi, k1 + k2);
}

/// Wrapping a product once at the end gives what wrapping after each
/// multiplication gives.
pub proof fn lemma_wrapped_times(t: int, x: int, lo: int, hi: int)
    requires
        lo <= hi,
    ensures
        wrapped(wrapped(t, lo, hi) * x, lo, hi) == wrapped(t * x, lo, hi),
{
    let width = hi - lo + 1;
    let k1 = lemma_wrapped_differs_by_widths(t, lo, hi);
    let k2 = lemma_wrapped_differs_by_widths(wrapped(t, lo, hi) * x, lo, hi);
    lemma_wrapped_in_range(wrapped(t, lo, hi) * x, lo, hi);
    assert((t + k1 * width) * x + k2 * width == t * x + (k1 * x + k2) * width)
        by (nonlinear_arith);
    lemma_wrapped_is(t * x, lo, hi, k1 * x + k2);
}

/// For a range that is symmetric in two's complement (`lo == -(hi + 1)`),
/// wrapping is the remainder by the width, moved down by one width where it
/// is above `hi`.
pub proof fn lemma_wrapped_signed(v: int, hi: int)
    requires
        0 <= hi,
    ensures
        wrapped(v, -(hi + 1), hi) == if v % (2 * (hi + 1)) > hi {
            v % (2 * (hi + 1)) - 2 * (hi + 1)
        } else {
            v % (2 * (hi + 1))
        },
{
    let lo = -(hi + 1);
    let width = 2 * (hi + 1);
    assert(width == hi - lo + 1);
    lemma_fundamental_div_mod(v, width);
    lemma_mod_bound(v, width);
    let q = v / width;
    if v % width > hi {
        assert(v + (-q - 1) * width == v % width - width) by (nonlinear_arith)
            requires
                v == width * q + v % width,
        ;
        lemma_wrapped_is(v, lo, hi, -q - 1);
    } else {
        assert(v + (-q) * width == v % width) by (nonlinear_arith)
            requires
                v == width * q + v % width,
        ;
        lemma_wrapped_is(v, lo, hi, -q);
    }
}

} // verus!
