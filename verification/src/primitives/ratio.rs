//! Exact ratios: thresholds, shares and fee rates.
//!
//! A ratio is a fraction of two integers, so comparing a volume against a
//! multiple of another, or taking a share of one, never rounds on the way.

use crate::primitives::fixed::{clamp_wide, quotient, Qty};
use vstd::prelude::*;

verus! {

use crate::primitives::fixed::{clamped, truncated_div};

/// The fraction `num / den`.
#[derive(Debug, Clone, Copy, PartialEq, Eq, Structural)]
pub struct Ratio {
    /// Numerator.
    pub num: u64,
    /// Denominator, never zero.
    pub den: u64,
}

/// Whether `dominant / opposing` is at least `num / den`, for a positive
/// `opposing`.
pub open spec fn reaches(dominant: int, opposing: int, ratio: Ratio) -> bool {
    dominant * ratio.den >= ratio.num * opposing
}

/// The share of `total` that `ratio` stands for, rounded half up; a ratio above
/// one counts as one.
pub open spec fn share_of(total: int, ratio: Ratio) -> int {
    if ratio.num >= ratio.den {
        total
    } else {
        (2 * total * ratio.num + ratio.den) / (2 * ratio.den as int)
    }
}

/// `amount` times `ratio`, cut off toward zero and clamped to 64 bits.
pub open spec fn scaled_by(amount: int, ratio: Ratio) -> int {
    clamped(truncated_div(amount * ratio.num, ratio.den as int))
}

impl Ratio {
    pub open spec fn wf(self) -> bool {
        self.den > 0
    }

    /// The fraction `num / den`.
    pub fn new(num: u64, den: u64) -> (r: Ratio)
        requires
            den > 0,
        ensures
            r.num == num,
            r.den == den,
    {
        Ratio { num, den }
    }

    /// Whether `dominant` is at least this multiple of a positive `opposing`.
    pub fn reached_by(self, dominant: Qty, opposing: Qty) -> (r: bool)
        requires
            opposing.0 > 0,
        ensures
            r == reaches(dominant.0 as int, opposing.0 as int, self),
    {
        proof {
            lemma_wide(dominant.0, self.den);
            lemma_wide(opposing.0, self.num);
        }
        dominant.0 as i128 * self.den as i128 >= self.num as i128 * opposing.0 as i128
    }

    /// The share of a positive total, rounded half up.
    pub fn share(self, total: Qty) -> (r: Qty)
        requires
            self.wf(),
            total.0 > 0,
        ensures
            r.0 == share_of(total.0 as int, self),
            0 <= r.0 <= total.0,
    {
        if self.num >= self.den {
            return total;
        }
        let t: u128 = total.0 as u128;
        let n: u128 = self.num as u128;
        let d: u128 = self.den as u128;
        proof {
            lemma_share(t as int, n as int, d as int);
        }
        let share: u128 = (2 * t * n + d) / (2 * d);
        Qty(share as i64)
    }

    /// This share of an amount, cut off toward zero.
    pub fn of(self, amount: Qty) -> (r: Qty)
        requires
            self.wf(),
        ensures
            r.0 == scaled_by(amount.0 as int, self),
    {
        proof {
            lemma_wide(amount.0, self.num);
        }
        let product: i128 = amount.0 as i128 * self.num as i128;
        Qty(clamp_wide(quotient(product, self.den as i128)))
    }
}

/// A share is the whole number nearest to the fraction of the total, the upper
/// one of two that are as near; a fraction of one or more is everything.
pub proof fn law_a_share_is_rounded_half_up(total: int, ratio: Ratio)
    requires
        ratio.wf(),
    ensures
        ratio.num >= ratio.den ==> share_of(total, ratio) == total,
        ratio.num < ratio.den ==> 2 * ratio.den * share_of(total, ratio) <= 2 * total * ratio.num
            + ratio.den < 2 * ratio.den * (share_of(total, ratio) + 1),
{
    let (n, d) = (ratio.num as int, ratio.den as int);
    let whole = 2 * total * n + d;
    vstd::arithmetic::div_mod::lemma_fundamental_div_mod(whole, 2 * d);
    let q = whole / (2 * d);
    assert(2 * d * (q + 1) == 2 * d * q + 2 * d) by (nonlinear_arith);
}

/// A volume reaches a ratio against another exactly where it is at least that
/// many times the other: more of it never falls short, more against it never
/// helps, and the ratio of two whole numbers is met by that multiple and by
/// nothing smaller.
pub proof fn law_a_ratio_is_a_multiple(dominant: int, opposing: int, ratio: Ratio)
    requires
        ratio.wf(),
        opposing > 0,
    ensures
        reaches(dominant, opposing, ratio) <==> dominant * ratio.den - ratio.num * opposing >= 0,
        reaches(ratio.num * opposing, ratio.den * opposing, ratio),
        !reaches(ratio.num * opposing - 1, ratio.den * opposing, ratio),
{
    let (n, d) = (ratio.num as int, ratio.den as int);
    assert((n * opposing) * d == n * (d * opposing)) by (nonlinear_arith);
    assert((n * opposing - 1) * d == (n * opposing) * d - d) by (nonlinear_arith);
}

/// A part of an amount has the amount's sign and is cut off toward zero: it is
/// less than one unit short of the fraction, never beyond it.
pub proof fn law_a_part_is_cut_off_toward_zero(amount: int, ratio: Ratio)
    requires
        ratio.wf(),
        i64::MIN <= scaled_by(amount, ratio) <= i64::MAX,
        i64::MIN < scaled_by(amount, ratio) < i64::MAX,
    ensures
        amount >= 0 ==> scaled_by(amount, ratio) * ratio.den <= amount * ratio.num < (scaled_by(
            amount,
            ratio,
        ) + 1) * ratio.den,
        amount <= 0 ==> (scaled_by(amount, ratio) - 1) * ratio.den < amount * ratio.num
            <= scaled_by(amount, ratio) * ratio.den,
{
    let (n, d) = (ratio.num as int, ratio.den as int);
    let p = amount * n;
    assert(amount >= 0 ==> p >= 0) by (nonlinear_arith)
        requires
            p == amount * n,
            n >= 0,
    ;
    assert(amount <= 0 ==> p <= 0) by (nonlinear_arith)
        requires
            p == amount * n,
            n >= 0,
    ;
    crate::primitives::fixed::law_division_cuts_off_toward_zero(p, d);
}

proof fn lemma_wide(a: i64, b: u64)
    ensures
        i128::MIN < a * b <= i128::MAX,
        i128::MIN < b * a <= i128::MAX,
{
    let x = a as int;
    let y = b as int;
    let m: int = 0x8000_0000_0000_0000;
    let w: int = 0xffff_ffff_ffff_ffff;
    assert(-(m * w) <= x * y <= m * w) by (nonlinear_arith)
        requires
            -m <= x <= m,
            0 <= y <= w,
            m == 0x8000_0000_0000_0000,
    ;
    assert(m * w < i128::MAX);
    assert(x * y == y * x) by (nonlinear_arith);
}

proof fn lemma_share(t: int, n: int, d: int)
    requires
        0 < t <= i64::MAX,
        0 <= n < d <= u64::MAX,
    ensures
        0 <= 2 * t * n,
        2 * t * n + d <= u128::MAX,
        0 <= (2 * t * n + d) / (2 * d) <= t,
{
    assert(0 <= 2 * t * n <= 2 * t * (d - 1)) by (nonlinear_arith)
        requires
            t > 0,
            0 <= n <= d - 1,
    ;
    assert(2 * t * (d - 1) + d <= 0xffff_ffff_ffff_ffff_ffff_ffff_ffff_ffff) by (nonlinear_arith)
        requires
            0 < t <= 0x7fff_ffff_ffff_ffff,
            0 < d <= 0xffff_ffff_ffff_ffff,
    ;
    assert(0 <= (2 * t * n + d) / (2 * d) <= t) by (nonlinear_arith)
        requires
            0 <= 2 * t * n <= 2 * t * (d - 1),
            t > 0,
            d > 0,
    ;
}

} // verus!
