//! Comparisons of IEEE-754 binary32 values held as their bit patterns.
//!
//! Scores and fractions are computed outside the library in binary32
//! arithmetic; the library keeps their bit patterns and decides on them
//! with the exact IEEE-754 comparison rules below.

use vstd::prelude::*;

verus! {

/// The sign bit.
pub const SIGN_BIT: u32 = 0x8000_0000;

/// The bit pattern of positive infinity.
pub const POSITIVE_INFINITY: u32 = 0x7f80_0000;

/// The bit pattern of 0.0.
pub const ZERO: u32 = 0;

/// The bit pattern of 1.0.
pub const ONE: u32 = 0x3f80_0000;

/// Whether the sign bit is set.
pub open spec fn is_negative(b: u32) -> bool {
    b >= SIGN_BIT
}

/// The pattern without its sign bit.
pub open spec fn magnitude(b: u32) -> u32 {
    if is_negative(b) {
        (b - SIGN_BIT) as u32
    } else {
        b
    }
}

/// Not a number.
pub open spec fn is_nan(b: u32) -> bool {
    magnitude(b) > POSITIVE_INFINITY
}

/// Positive or negative zero.
pub open spec fn is_zero(b: u32) -> bool {
    magnitude(b) == 0
}

/// IEEE-754 equality: NaN equals nothing, and the two zeros are equal.
pub open spec fn eq_spec(a: u32, b: u32) -> bool {
    !is_nan(a) && !is_nan(b) && (a == b || (is_zero(a) && is_zero(b)))
}

/// IEEE-754 less-than: false when either side is NaN.
pub open spec fn lt_spec(a: u32, b: u32) -> bool {
    &&& !is_nan(a)
    &&& !is_nan(b)
    &&& !(is_zero(a) && is_zero(b))
    &&& if !is_negative(a) && !is_negative(b) {
        a < b
    } else if is_negative(a) && is_negative(b) {
        magnitude(a) > magnitude(b)
    } else {
        is_negative(a)
    }
}

/// IEEE-754 less-or-equal.
pub open spec fn le_spec(a: u32, b: u32) -> bool {
    lt_spec(a, b) || eq_spec(a, b)
}

/// A total order on patterns that agrees with the IEEE order on numbers
/// (the two zeros rank alike) and ranks every NaN above every number.
pub open spec fn rank(b: u32) -> int {
    if is_nan(b) {
        0x1_0000_0000
    } else if is_negative(b) {
        -(magnitude(b) as int)
    } else {
        b as int
    }
}

fn magnitude_of(b: u32) -> (r: u32)
    ensures
        r == magnitude(b),
{
    if b >= SIGN_BIT {
        b - SIGN_BIT
    } else {
        b
    }
}

/// IEEE-754 `a < b`.
pub fn lt(a: u32, b: u32) -> (r: bool)
    ensures
        r == lt_spec(a, b),
{
    let ma = magnitude_of(a);
    let mb = magnitude_of(b);
    if ma > POSITIVE_INFINITY || mb > POSITIVE_INFINITY {
        false
    } else if ma == 0 && mb == 0 {
        false
    } else if a < SIGN_BIT && b < SIGN_BIT {
        a < b
    } else if a >= SIGN_BIT && b >= SIGN_BIT {
        ma > mb
    } else {
        a >= SIGN_BIT
    }
}

/// IEEE-754 `a == b`.
pub fn eq(a: u32, b: u32) -> (r: bool)
    ensures
        r == eq_spec(a, b),
{
    let ma = magnitude_of(a);
    let mb = magnitude_of(b);
    if ma > POSITIVE_INFINITY || mb > POSITIVE_INFINITY {
        false
    } else {
        a == b || (ma == 0 && mb == 0)
    }
}

/// IEEE-754 `a <= b`.
pub fn le(a: u32, b: u32) -> (r: bool)
    ensures
        r == le_spec(a, b),
{
    lt(a, b) || eq(a, b)
}

/// The rank of a pattern, as an executable comparison key.
pub fn rank_of(b: u32) -> (r: i64)
    ensures
        r as int == rank(b),
{
    let m = magnitude_of(b);
    if m > POSITIVE_INFINITY {
        0x1_0000_0000
    } else if b >= SIGN_BIT {
        -(m as i64)
    } else {
        b as i64
    }
}

/// On numbers, the rank orders exactly as IEEE-754 less-than does.
pub proof fn lemma_rank_agrees_with_lt(a: u32, b: u32)
    requires
        !is_nan(a),
        !is_nan(b),
    ensures
        lt_spec(a, b) <==> rank(a) < rank(b),
        eq_spec(a, b) <==> rank(a) == rank(b),
{
}

} // verus!
