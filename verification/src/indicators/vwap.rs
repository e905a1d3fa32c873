//! Volume-weighted average price.
//!
//! VWAP is an execution benchmark before it is a signal: it is the price the
//! average participant actually paid, so institutions measure their fills
//! against it. Anchoring matters (session VWAP and VWAP anchored to a specific
//! event answer different questions), so the anchor is the caller's to choose
//! via [`Vwap`]'s `reset`.

use crate::engine::bar::Bar;
use crate::engine::cluster::ClusterRow;
use crate::indicators::traits::BarIndicator;
use crate::primitives::fixed::{quotient, Price, Qty};
use vstd::prelude::*;

verus! {

use crate::engine::bar::BarView;
use crate::primitives::fixed::{in_range, lemma_product_fits, magnitude_of, truncated_div};

/// VWAP and the variance around it at one point in time.
#[derive(Debug, Clone, Copy, PartialEq, Eq, Structural)]
pub struct VwapPoint {
    /// The volume-weighted average price.
    pub vwap: Price,
    /// The volume-weighted variance of the price. Its root, taken after
    /// scaling by one whole unit, is the standard deviation.
    pub variance: i128,
    /// Total volume behind the average.
    pub volume: Qty,
}

impl VwapPoint {
    /// The point with its standard deviation.
    pub fn with_deviation(&self, deviation: Price) -> (r: VwapValue)
        ensures
            r == (VwapValue { vwap: self.vwap, deviation, volume: self.volume }),
    {
        VwapValue { vwap: self.vwap, deviation, volume: self.volume }
    }
}

/// VWAP and its standard deviation at one point in time.
#[derive(Debug, Clone, Copy, PartialEq, Eq, Structural)]
pub struct VwapValue {
    /// The volume-weighted average price.
    pub vwap: Price,
    /// One standard deviation, in price terms.
    pub deviation: Price,
    /// Total volume behind the average.
    pub volume: Qty,
}

impl VwapValue {
    /// The band `offset` above VWAP.
    pub fn upper(&self, offset: Price) -> (r: Price)
        requires
            in_range(self.vwap.0 + offset.0),
        ensures
            r.0 == self.vwap.0 + offset.0,
            offset.0 > 0 ==> r.0 > self.vwap.0,
    {
        Price(self.vwap.0 + offset.0)
    }

    /// The band `offset` below VWAP.
    pub fn lower(&self, offset: Price) -> (r: Price)
        requires
            in_range(self.vwap.0 - offset.0),
        ensures
            r.0 == self.vwap.0 - offset.0,
            offset.0 > 0 ==> r.0 < self.vwap.0,
    {
        Price(self.vwap.0 - offset.0)
    }
}

/// Whether a value fits 128 bits.
pub open spec fn fits_wide(v: int) -> bool {
    i128::MIN <= v <= i128::MAX
}

/// What one print adds to the sum of squares. The square is scaled down by one
/// whole unit.
pub open spec fn square_term(price: int, qty: int) -> int {
    (price * price / 100_000_000) * qty
}

/// What a VWAP has summed up.
#[verifier::ext_equal]
pub struct VwapView {
    /// The sum of price times volume.
    pub weighted: int,
    /// The sum of squared price times volume.
    pub squares: int,
    pub volume: int,
    pub bars: u64,
}

/// A VWAP before its first print.
pub open spec fn fresh_vwap() -> VwapView {
    VwapView { weighted: 0, squares: 0, volume: 0, bars: 0 }
}

impl VwapView {
    /// The sums fit, and the average is a price.
    pub open spec fn wf(self) -> bool {
        &&& fits_wide(self.weighted)
        &&& fits_wide(self.squares)
        &&& fits_wide(self.volume)
        &&& self.volume > 0 ==> in_range(self.average())
    }

    /// The average price, cut off toward zero.
    pub open spec fn average(self) -> int {
        truncated_div(self.weighted, self.volume)
    }

    /// The variance, never below zero: scaling can leave a tiny negative from
    /// rounding when every trade was at the same price.
    pub open spec fn variance(self) -> int {
        let spread = truncated_div(self.squares, self.volume) - self.average() * self.average()
            / 100_000_000;
        if spread < 0 {
            0
        } else {
            spread
        }
    }

    /// The volume, as far as it is representable.
    pub open spec fn shown_volume(self) -> Qty {
        if self.volume < 0 {
            Qty(0)
        } else if self.volume > i64::MAX {
            Qty(i64::MAX)
        } else {
            Qty(self.volume as i64)
        }
    }

    /// Average, variance and volume, once there is volume.
    pub open spec fn point(self) -> Option<VwapPoint> {
        if self.volume <= 0 {
            None
        } else {
            Some(
                VwapPoint {
                    vwap: Price(self.average() as i64),
                    variance: self.variance() as i128,
                    volume: self.shown_volume(),
                },
            )
        }
    }

    /// The sums with one more print.
    pub open spec fn added(self, price: int, qty: int) -> VwapView {
        VwapView {
            weighted: self.weighted + price * qty,
            squares: self.squares + square_term(price, qty),
            volume: self.volume + qty,
            ..self
        }
    }

    /// Whether a print can be folded in.
    pub open spec fn can_add(self, price: int, qty: int) -> bool {
        fits_wide(square_term(price, qty)) && self.added(price, qty).wf()
    }

    /// The sums with every row of a ladder that holds volume.
    pub open spec fn with_rows(self, rows: Seq<ClusterRow>) -> VwapView
        decreases rows.len(),
    {
        if rows.len() == 0 {
            self
        } else {
            let before = self.with_rows(rows.drop_last());
            let row = rows.last();
            if row.cluster.size() > 0 {
                before.added(row.price.0 as int, row.cluster.size())
            } else {
                before
            }
        }
    }

    /// Whether every row can be folded in.
    pub open spec fn can_add_rows(self, rows: Seq<ClusterRow>) -> bool
        decreases rows.len(),
    {
        rows.len() == 0 || {
            let row = rows.last();
            &&& self.can_add_rows(rows.drop_last())
            &&& in_range(row.cluster.size())
            &&& row.cluster.size() > 0 ==> self.with_rows(rows.drop_last()).can_add(
                row.price.0 as int,
                row.cluster.size(),
            )
        }
    }

    /// Whether a bar can be folded in.
    pub open spec fn can_take(self, bar: BarView) -> bool {
        &&& bar.ladder.prices_fit()
        &&& self.can_add_rows(bar.ladder.row_list())
        &&& self.bars < u64::MAX
    }

    /// The sums after a bar.
    pub open spec fn taken(self, bar: BarView) -> VwapView {
        VwapView { bars: (self.bars + 1) as u64, ..self.with_rows(bar.ladder.row_list()) }
    }
}

/// The average never leaves the range of the prices that made it: where every
/// print has a positive size and a price from `low` to `high`, so is the
/// average of all of them.
pub proof fn law_average_lies_within_the_prices(
    v: VwapView,
    price: int,
    qty: int,
    low: int,
    high: int,
)
    requires
        low <= price <= high,
        qty > 0,
        v.volume >= 0,
        low * v.volume <= v.weighted <= high * v.volume,
    ensures
        v.added(price, qty).volume > 0,
        low * v.added(price, qty).volume <= v.added(price, qty).weighted <= high * v.added(
            price,
            qty,
        ).volume,
        low <= v.added(price, qty).average() <= high,
{
    let w = v.added(price, qty);
    assert(low * w.volume == low * v.volume + low * qty) by (nonlinear_arith)
        requires
            w.volume == v.volume + qty,
    ;
    assert(high * w.volume == high * v.volume + high * qty) by (nonlinear_arith)
        requires
            w.volume == v.volume + qty,
    ;
    assert(low * qty <= price * qty <= high * qty) by (nonlinear_arith)
        requires
            low <= price <= high,
            qty > 0,
    ;
    lemma_quotient_between(w.weighted, w.volume, low, high);
}

/// One price has no dispersion: where every print was at the same price, so is
/// the average, and the variance is zero.
pub proof fn law_one_price_has_no_dispersion(v: VwapView, price: int, qty: int)
    requires
        qty > 0,
        v.volume >= 0,
        v.weighted == price * v.volume,
        v.squares == (price * price / 100_000_000) * v.volume,
    ensures
        v.added(price, qty).weighted == price * v.added(price, qty).volume,
        v.added(price, qty).squares == (price * price / 100_000_000) * v.added(price, qty).volume,
        v.added(price, qty).average() == price,
        v.added(price, qty).variance() == 0,
{
    let w = v.added(price, qty);
    let square = price * price / 100_000_000;
    assert(price * w.volume == price * v.volume + price * qty) by (nonlinear_arith)
        requires
            w.volume == v.volume + qty,
    ;
    assert(square * w.volume == square * v.volume + square * qty) by (nonlinear_arith)
        requires
            w.volume == v.volume + qty,
    ;
    lemma_quotient_between(w.weighted, w.volume, price, price);
    lemma_quotient_between(w.squares, w.volume, square, square);
}

proof fn lemma_quotient_between(a: int, b: int, low: int, high: int)
    requires
        b > 0,
        low * b <= a <= high * b,
    ensures
        low <= truncated_div(a, b) <= high,
{
    assert(magnitude_of(b) == b);
    if a >= 0 {
        assert(low <= a / b <= high) by (nonlinear_arith)
            requires
                b > 0,
                low * b <= a <= high * b,
        ;
    } else {
        assert(low <= -((-a) / b) <= high) by (nonlinear_arith)
            requires
                b > 0,
                low * b <= a <= high * b,
        ;
    }
}

/// Volume-weighted average price over everything since the last reset.
///
/// The sums are 128 bits wide, because a session's notional overflows 64-bit
/// minor units long before the day is out.
#[derive(Debug, Clone, Copy)]
pub struct Vwap {
    weighted_sum: i128,
    weighted_square_sum: i128,
    volume: i128,
    bars: u64,
}

impl View for Vwap {
    type V = VwapView;

    closed spec fn view(&self) -> VwapView {
        VwapView {
            weighted: self.weighted_sum as int,
            squares: self.weighted_square_sum as int,
            volume: self.volume as int,
            bars: self.bars,
        }
    }
}

impl Default for Vwap {
    fn default() -> (r: Self)
        ensures
            r@ == fresh_vwap(),
            r@.wf(),
    {
        Vwap { weighted_sum: 0, weighted_square_sum: 0, volume: 0, bars: 0 }
    }
}

impl Vwap {
    /// A fresh VWAP anchored at the next bar.
    pub fn new() -> (r: Self)
        ensures
            r@ == fresh_vwap(),
            r@.wf(),
    {
        Vwap::default()
    }

    /// The sums with one more print, unless they leave 128 bits or the average
    /// is no price any more.
    fn checked(&self, price: Price, qty: Qty) -> (r: Option<Vwap>)
        ensures
            match r {
                Some(next) => self@.can_add(price.0 as int, qty.0 as int) && next@ == self@.added(
                    price.0 as int,
                    qty.0 as int,
                ),
                None => !self@.can_add(price.0 as int, qty.0 as int),
            },
    {
        proof {
            lemma_product_fits(price.0, qty.0);
            lemma_product_fits(price.0, price.0);
        }
        let p: i128 = price.0 as i128;
        let q: i128 = qty.0 as i128;
        assert(p * p >= 0) by (nonlinear_arith);
        // Scaled down once here so the square does not overflow on a busy day.
        let square: i128 = ((p * p) as u128 / 100_000_000) as i128;
        let next = match (
            self.weighted_sum.checked_add(p * q),
            square.checked_mul(q),
            self.volume.checked_add(q),
        ) {
            (Some(weighted_sum), Some(term), Some(volume)) => match self.weighted_square_sum
                .checked_add(term) {
                Some(weighted_square_sum) => Vwap {
                    weighted_sum,
                    weighted_square_sum,
                    volume,
                    bars: self.bars,
                },
                None => {
                    return None;
                },
            },
            _ => {
                return None;
            },
        };
        if next.volume > 0 {
            let average: i128 = quotient(next.weighted_sum, next.volume);
            if average < i64::MIN as i128 || average > i64::MAX as i128 {
                return None;
            }
        }
        Some(next)
    }

    /// Whether [`Vwap::add`] can fold this print in.
    pub fn can_add(&self, price: Price, qty: Qty) -> (r: bool)
        ensures
            r == self@.can_add(price.0 as int, qty.0 as int),
    {
        self.checked(price, qty).is_some()
    }

    /// Fold in a raw price and volume, for anchoring to trades rather than
    /// bars.
    pub fn add(&mut self, price: Price, qty: Qty)
        requires
            old(self)@.can_add(price.0 as int, qty.0 as int),
        ensures
            final(self)@ == old(self)@.added(price.0 as int, qty.0 as int),
            final(self)@.wf(),
    {
        if let Some(next) = self.checked(price, qty) {
            *self = next;
        }
    }

    /// Total volume behind the current average.
    pub fn volume(&self) -> (r: Qty)
        ensures
            r == self@.shown_volume(),
    {
        if self.volume < 0 {
            Qty(0)
        } else if self.volume > i64::MAX as i128 {
            Qty(i64::MAX)
        } else {
            Qty(self.volume as i64)
        }
    }

    fn compute(&self) -> (r: Option<VwapPoint>)
        requires
            self@.wf(),
        ensures
            r == self@.point(),
    {
        if self.volume <= 0 {
            return None;
        }
        let vwap: i128 = quotient(self.weighted_sum, self.volume);
        // Var(P) = E[P squared] - E[P] squared, weighted by volume.
        let mean_square: i128 = quotient(self.weighted_square_sum, self.volume);
        proof {
            lemma_product_fits(vwap as i64, vwap as i64);
            assert(vwap * vwap >= 0) by (nonlinear_arith);
            crate::primitives::fixed::lemma_quotient_bound(self@.squares, self@.volume);
        }
        let square_mean: i128 = ((vwap * vwap) as u128 / 100_000_000) as i128;
        let variance: i128 = if mean_square <= square_mean {
            0
        } else {
            mean_square - square_mean
        };
        Some(VwapPoint { vwap: Price(vwap as i64), variance, volume: self.volume() })
    }

    /// The sums with every row that holds volume, unless one cannot be folded
    /// in.
    fn checked_rows(&self, rows: &Vec<ClusterRow>) -> (r: Option<Vwap>)
        requires
            self@.wf(),
        ensures
            match r {
                Some(next) => self@.can_add_rows(rows@) && next@ == self@.with_rows(rows@)
                    && next@.wf(),
                None => !self@.can_add_rows(rows@),
            },
    {
        let mut next = *self;
        let mut i: usize = 0;
        while i < rows.len()
            invariant
                i <= rows@.len(),
                next@.wf(),
                next@ == self@.with_rows(rows@.take(i as int)),
                self@.can_add_rows(rows@.take(i as int)),
            decreases rows@.len() - i,
        {
            let row = rows[i];
            let ghost upto = rows@.take(i + 1);
            assert(upto.drop_last() =~= rows@.take(i as int));
            let step = match row.cluster.bid.checked_add(row.cluster.ask) {
                Some(total) => if total.0 > 0 {
                    next.checked(row.price, total)
                } else {
                    Some(next)
                },
                None => None,
            };
            match step {
                Some(after) => {
                    next = after;
                },
                None => {
                    proof {
                        lemma_refused_rows(self@, rows@, i + 1);
                    }
                    return None;
                },
            }
            i += 1;
        }
        assert(rows@.take(i as int) =~= rows@);
        Some(next)
    }
}

proof fn lemma_refused_rows(v: VwapView, rows: Seq<ClusterRow>, n: int)
    requires
        0 <= n <= rows.len(),
        !v.can_add_rows(rows.take(n)),
    ensures
        !v.can_add_rows(rows),
    decreases rows.len() - n,
{
    if n == rows.len() {
        assert(rows.take(n) =~= rows);
    } else {
        assert(rows.take(n + 1).drop_last() =~= rows.take(n));
        lemma_refused_rows(v, rows, n + 1);
    }
}

impl BarIndicator for Vwap {
    type Value = Option<VwapPoint>;

    open spec fn valid(&self) -> bool {
        self@.wf()
    }

    open spec fn accepts(&self, bar: BarView) -> bool {
        self@.can_take(bar)
    }

    fn name(&self) -> (r: &str)
        ensures
            r@ == "VWAP"@,
    {
        "VWAP"
    }

    fn can_update(&self, bar: &Bar) -> (r: bool) {
        bar.clusters.has_prices() && self.bars < u64::MAX && self.checked_rows(
            &bar.clusters.rows(),
        ).is_some()
    }

    fn update(&mut self, bar: &Bar) -> (r: Option<VwapPoint>)
        ensures
            final(self)@ == old(self)@.taken(bar@),
            r == final(self)@.point(),
    {
        // Weight by each cluster level rather than by the bar's typical price:
        // the ladder knows exactly how much traded at every price, so there is
        // no reason to approximate with (H+L+C)/3.
        let rows = bar.clusters.rows();
        proof {
            lemma_rows_keep_bars(self@, rows@);
        }
        if let Some(next) = self.checked_rows(&rows) {
            *self = next;
        }
        self.bars = self.bars + 1;
        self.compute()
    }

    /// Gated on volume, not on bar count: [`Vwap::add`] exists so a VWAP can
    /// be anchored to a trade rather than a bar boundary.
    fn value(&self) -> (r: Option<Option<VwapPoint>>)
        ensures
            r == Some(self@.point()),
    {
        Some(self.compute())
    }

    fn reset(&mut self)
        ensures
            final(self)@ == fresh_vwap(),
    {
        *self = Vwap::default();
    }

    fn is_warm(&self) -> (r: bool)
        ensures
            r == (self@.volume > 0),
    {
        self.volume > 0
    }
}

proof fn lemma_rows_keep_bars(v: VwapView, rows: Seq<ClusterRow>)
    ensures
        v.with_rows(rows).bars == v.bars,
    decreases rows.len(),
{
    if rows.len() > 0 {
        lemma_rows_keep_bars(v, rows.drop_last());
    }
}

} // verus!
