//! Arithmetic on mathematical integers.

use vstd::prelude::*;

verus! {

/// `a - b`, and zero where that is negative.
pub open spec fn monus(a: int, b: int) -> int {
    if a > b {
        a - b
    } else {
        0
    }
}

/// The smaller of two numbers.
pub open spec fn least(a: int, b: int) -> int {
    if a <= b {
        a
    } else {
        b
    }
}

/// `monus` never goes below zero, and `least` is one of its arguments and no larger than either.
pub proof fn law_cut_off_and_smaller(a: int, b: int)
    ensures
        0 <= monus(a, b),
        a >= b ==> monus(a, b) + b == a,
        a < b ==> monus(a, b) == 0,
        least(a, b) <= a && least(a, b) <= b,
        least(a, b) == a || least(a, b) == b,
{
}

} // verus!
