//! Scores as fixed-point numbers: `ONE` stands for 1.0, so a score of
//! `n` stands for `n / ONE`. Every operation rounds down and stops at the
//! largest score rather than wrap round.

use vstd::arithmetic::div_mod::{lemma_div_is_ordered, lemma_div_pos_is_pos};
use vstd::prelude::*;

verus! {

/// The score that stands for 1.0.
pub const ONE: u64 = 1_000_000;

/// The worst score an objective can have.
pub const WORST: u64 = u64::MAX;

/// `value` kept within the scores.
pub open spec fn capped(value: int) -> u64 {
    if value < 0 {
        0
    } else if value > u64::MAX {
        u64::MAX
    } else {
        value as u64
    }
}

/// The score that stands for the whole number `count`.
pub open spec fn whole_score(count: nat) -> u64 {
    capped(count * ONE)
}

/// The score that stands for `part / whole`, or `empty` where `whole` is 0.
pub open spec fn ratio_score(part: nat, whole: nat, empty: u64) -> u64 {
    if whole == 0 {
        empty
    } else {
        capped((part * ONE) / whole as int)
    }
}

/// The score that stands for the whole number `count`.
pub fn whole(count: u64) -> (score: u64)
    ensures
        score == whole_score(count as nat),
{
    proof {
        lemma_product_fits(count);
    }
    let wide: u128 = count as u128 * (ONE as u128);
    if wide > u64::MAX as u128 {
        u64::MAX
    } else {
        wide as u64
    }
}

/// The score that stands for `part / whole`, or `empty` where there is
/// nothing to divide by.
pub fn ratio(part: u64, whole: u64, empty: u64) -> (score: u64)
    ensures
        score == ratio_score(part as nat, whole as nat, empty),
{
    if whole == 0 {
        empty
    } else {
        proof {
            lemma_product_fits(part);
        }
        let wide: u128 = (part as u128 * (ONE as u128)) / whole as u128;
        if wide > u64::MAX as u128 {
            u64::MAX
        } else {
            wide as u64
        }
    }
}

/// A count times `ONE` fits in 128 bits.
proof fn lemma_product_fits(count: u64)
    ensures
        count * ONE <= u128::MAX,
{
    assert(count * ONE <= 0xffff_ffff_ffff_ffff * 1_000_000) by (nonlinear_arith)
        requires
            count <= 0xffff_ffff_ffff_ffff,
            ONE == 1_000_000,
    ;
}

/// A part of a whole scores at most `ONE`.
pub proof fn lemma_ratio_of_part(part: nat, whole: nat, empty: u64)
    requires
        part <= whole,
        whole > 0,
    ensures
        ratio_score(part, whole, empty) <= ONE,
        part == whole ==> ratio_score(part, whole, empty) == ONE,
        part == 0 ==> ratio_score(part, whole, empty) == 0,
{
    assert(part * ONE <= whole * ONE) by (nonlinear_arith)
        requires
            part <= whole,
    ;
    lemma_div_is_ordered((part * ONE) as int, (whole * ONE) as int, whole as int);
    lemma_div_pos_is_pos((part * ONE) as int, whole as int);
    assert((whole * ONE) / whole as int == ONE) by (nonlinear_arith)
        requires
            whole > 0,
    ;
    if part == 0 {
        assert(part * ONE == 0);
    }
}

} // verus!
