//! Ratios between 0 and 1, held as integers.
//!
//! A ratio is a count of units of one thousandth of a percent: `RATIO_ONE`
//! units make 1. All arithmetic on ratios is integer arithmetic, rounded down.

use vstd::prelude::*;

verus! {

/// The ratio 1, in units.
pub const RATIO_ONE: u32 = 100_000;

/// The ratio `num / den` in units, rounded down and held within 0 and 1; 0
/// where `den` is 0.
pub open spec fn ratio_spec(num: int, den: int) -> int {
    if den <= 0 || num <= 0 {
        0
    } else if num >= den {
        RATIO_ONE as int
    } else {
        num * RATIO_ONE / den
    }
}

/// A ratio of two counts never leaves the range from 0 to 1.
pub proof fn lemma_ratio_bounds(num: int, den: int)
    ensures
        0 <= ratio_spec(num, den) <= RATIO_ONE,
{
    if den > 0 && 0 < num < den {
        assert(0 <= num * 100_000 / den <= 100_000) by (nonlinear_arith)
            requires
                0 < num < den,
        ;
    }
}

/// The ratio of two counts.
pub fn ratio_of(num: usize, den: usize) -> (r: u32)
    ensures
        r == ratio_spec(num as int, den as int),
        r <= RATIO_ONE,
{
    ratio_wide(num as u128, den as u128)
}

/// The ratio of two counts, of which the first may be a weighted sum.
pub fn ratio_wide(num: u128, den: u128) -> (r: u32)
    requires
        num <= 0xffff_ffff_ffff_ffff_ffff,
    ensures
        r == ratio_spec(num as int, den as int),
        r <= RATIO_ONE,
{
    if den == 0 || num == 0 {
        0
    } else if num >= den {
        RATIO_ONE
    } else {
        proof {
            lemma_ratio_bounds(num as int, den as int);
        }
        let scaled: u128 = num * 100_000u128;
        (scaled / den) as u32
    }
}

/// The larger of two ratios.
pub fn ratio_max(a: u32, b: u32) -> (r: u32)
    ensures
        r == if a >= b { a } else { b },
{
    if a >= b {
        a
    } else {
        b
    }
}

} // verus!
