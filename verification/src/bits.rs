//! Single-precision numbers as bit patterns, and their order.
//!
//! Settings and telemetry carry single-precision numbers around without calculating with them. Here
//! such a number is the integer whose bits it has; comparing two of them needs no more than the bits.

use vstd::prelude::*;

verus! {

/// The bits of 0.
pub const ZERO: u32 = 0;

/// The bits of 1.
pub const ONE: u32 = 0x3f80_0000;

/// The bits of -1.
pub const MINUS_ONE: u32 = 0xbf80_0000;

/// Whether the bits are those of no number.
pub open spec fn is_nan(b: u32) -> bool {
    0x7f80_0000 < b < 0x8000_0000 || b > 0xff80_0000
}

/// An integer that orders as the number does: the magnitude, negated for negative numbers. Both
/// zeros have 0.
pub open spec fn rank(b: u32) -> int {
    if b >= 0x8000_0000 {
        0x8000_0000 - b
    } else {
        b as int
    }
}

/// Whether one number is less than another; never, where either is none.
pub open spec fn below(a: u32, b: u32) -> bool {
    !is_nan(a) && !is_nan(b) && rank(a) < rank(b)
}

/// Whether one number is at least another; never, where either is none.
pub open spec fn at_least(a: u32, b: u32) -> bool {
    !is_nan(a) && !is_nan(b) && rank(a) >= rank(b)
}

/// A number kept between two bounds; what is no number stays what it is.
pub open spec fn clamped(v: u32, lo: u32, hi: u32) -> u32 {
    if below(v, lo) {
        lo
    } else if below(hi, v) {
        hi
    } else {
        v
    }
}

/// Whether one number is less than another.
pub fn less(a: u32, b: u32) -> (r: bool)
    ensures
        r == below(a, b),
{
    let nan_a: bool = (0x7f80_0000 < a && a < 0x8000_0000) || a > 0xff80_0000;
    let nan_b: bool = (0x7f80_0000 < b && b < 0x8000_0000) || b > 0xff80_0000;
    if nan_a || nan_b {
        return false;
    }
    let x: i64 = if a >= 0x8000_0000 {
        0x8000_0000 - a as i64
    } else {
        a as i64
    };
    let y: i64 = if b >= 0x8000_0000 {
        0x8000_0000 - b as i64
    } else {
        b as i64
    };
    x < y
}

/// Whether one number is at least another.
pub fn reaches(a: u32, b: u32) -> (r: bool)
    ensures
        r == at_least(a, b),
{
    let nan_a: bool = (0x7f80_0000 < a && a < 0x8000_0000) || a > 0xff80_0000;
    let nan_b: bool = (0x7f80_0000 < b && b < 0x8000_0000) || b > 0xff80_0000;
    !nan_a && !nan_b && !less(a, b)
}

/// A number kept between two bounds.
pub fn clamp(v: u32, lo: u32, hi: u32) -> (r: u32)
    ensures
        r == clamped(v, lo, hi),
{
    if less(v, lo) {
        lo
    } else if less(hi, v) {
        hi
    } else {
        v
    }
}

/// The order is irreflexive, transitive, and leaves no two numbers of different rank unordered.
pub proof fn lemma_order(a: u32, b: u32, c: u32)
    ensures
        !below(a, a),
        below(a, b) && below(b, c) ==> below(a, c),
        !is_nan(a) && !is_nan(b) && rank(a) != rank(b) ==> below(a, b) || below(b, a),
{
}

/// A clamped number lies between its bounds.
pub proof fn lemma_clamped(v: u32, lo: u32, hi: u32)
    requires
        !is_nan(v),
        !is_nan(lo),
        !is_nan(hi),
        !below(hi, lo),
    ensures
        !below(clamped(v, lo, hi), lo),
        !below(hi, clamped(v, lo, hi)),
{
}

/// Numbers without a sign are in the order of their bits, numbers with one in the opposite order and
/// below the others; the two zeros are alike, and what is no number has no order.
pub proof fn lemma_signed_order(a: u32, b: u32)
    ensures
        a <= 0x7f80_0000 && b <= 0x7f80_0000 ==> (below(a, b) <==> a < b) && (at_least(a, b) <==> a >= b),
        0x8000_0000 <= a <= 0xff80_0000 && 0x8000_0000 <= b <= 0xff80_0000 ==> (below(a, b) <==> a > b)
            && (at_least(a, b) <==> a <= b),
        0x8000_0000 < a <= 0xff80_0000 && b <= 0x7f80_0000 ==> below(a, b) && !below(b, a) && at_least(
            b,
            a,
        ),
        !below(0x8000_0000, 0) && !below(0, 0x8000_0000) && at_least(0, 0x8000_0000) && at_least(
            0x8000_0000,
            0,
        ),
        0x7f80_0000 < a < 0x8000_0000 || 0xff80_0000 < a ==> !below(a, b) && !below(b, a) && !at_least(
            a,
            b,
        ) && !at_least(b, a),
{
}

/// A number between its bounds stays; one outside comes to the bound that it passed.
pub proof fn lemma_clamped_at(v: u32, lo: u32, hi: u32)
    requires
        lo <= hi <= 0x7f80_0000,
        v <= 0x7f80_0000,
    ensures
        lo <= v <= hi ==> clamped(v, lo, hi) == v,
        v < lo ==> clamped(v, lo, hi) == lo,
        v > hi ==> clamped(v, lo, hi) == hi,
{
}

} // verus!
