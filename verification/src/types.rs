//! Basis-point arithmetic: a rate expressed in ten-thousandths is turned into
//! an exact integer share of a balance, with no floating point and no
//! overflow.

use vstd::arithmetic::div_mod::{
    lemma_div_is_ordered, lemma_div_multiples_vanish, lemma_div_pos_is_pos,
    lemma_fundamental_div_mod, lemma_hoist_over_denominator,
};
use vstd::arithmetic::mul::{
    lemma_mul_inequality, lemma_mul_is_associative, lemma_mul_is_distributive_add_other_way,
    lemma_mul_nonnegative, lemma_mul_upper_bound,
};
use vstd::prelude::*;

verus! {

/// A rate in basis points, i.e. ten-thousandths of the whole.
pub type BasisPoint = u32;

/// Full basis points, 10000 = 100%.
pub const FULL_BASIS_POINT: BasisPoint = 10_000;

/// The share that `bp` basis points carve out of `val`:
/// `floor(val * bp / 10000)`, stated over unbounded integers.
pub open spec fn basis_point_share(val: u128, bp: BasisPoint) -> int {
    (val as int) * (bp as int) / (FULL_BASIS_POINT as int)
}

/// A share taken at a rate of at most 100% is never negative and never
/// exceeds the balance it is carved from.
pub proof fn lemma_share_bounds(val: u128, bp: BasisPoint)
    requires
        bp <= FULL_BASIS_POINT,
    ensures
        0 <= basis_point_share(val, bp) <= val,
{
    lemma_mul_nonnegative(val as int, bp as int);
    lemma_div_pos_is_pos((val as int) * (bp as int), 10_000);
    lemma_mul_inequality(bp as int, 10_000, val as int);
    lemma_div_is_ordered((val as int) * (bp as int), (val as int) * 10_000, 10_000);
    lemma_div_multiples_vanish(val as int, 10_000);
}

/// `floor(val * bp / 10000)`, computed without overflow by splitting `val`
/// into its quotient and remainder by 10000; never exceeds `val` while the
/// rate is at most 100%.
pub fn apply_basis_point(val: u128, bp: BasisPoint) -> (share: u128)
    requires
        bp <= FULL_BASIS_POINT,
    ensures
        share == basis_point_share(val, bp),
        share <= val,
{
    let q: u128 = val / 10_000;
    let r: u128 = val % 10_000;
    proof {
        let v = val as int;
        let b = bp as int;
        let qi = q as int;
        let ri = r as int;
        lemma_fundamental_div_mod(v, 10_000);
        // v * b == 10000 * (q * b) + r * b
        lemma_mul_is_distributive_add_other_way(b, 10_000 * qi, ri);
        lemma_mul_is_associative(10_000, qi, b);
        // hence v * b / 10000 == q * b + (r * b) / 10000
        lemma_hoist_over_denominator(ri * b, qi * b, 10_000);
        // bounds: q * b <= q * 10000 <= v, and r * b <= 9999 * 10000
        lemma_mul_inequality(b, 10_000, qi);
        lemma_mul_upper_bound(ri, 9_999, b, 10_000);
        // the exact share never exceeds val: v * b <= v * 10000, so
        // v * b / 10000 <= v * 10000 / 10000 == v
        lemma_mul_inequality(b, 10_000, v);
        lemma_div_is_ordered(v * b, v * 10_000, 10_000);
        lemma_div_multiples_vanish(v, 10_000);
    }
    q * (bp as u128) + r * (bp as u128) / 10_000
}

} // verus!
