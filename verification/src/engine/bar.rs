//! Bars: OHLC plus the order-flow payload that makes them useful.

use crate::engine::cluster::{ClusterLadder, ValueArea};
use crate::primitives::fixed::{Price, Qty};
use crate::primitives::market::{Side, Trade};
use crate::primitives::ratio::Ratio;
use crate::primitives::time::Ts;
use vstd::prelude::*;

verus! {

use crate::engine::cluster::{empty_ladder, lemma_added_wf, lemma_row_price_fits, LadderView};
use crate::primitives::fixed::{in_range, law_row_holds_its_price, tick_row};
use vstd::arithmetic::div_mod::{lemma_div_is_ordered, lemma_fundamental_div_mod};

/// A single bar with its cluster ladder.
///
/// The OHLC fields exist so a bar can be drawn as a candle, but the ladder is
/// the point.
#[derive(Debug, PartialEq)]
pub struct Bar {
    /// Timestamp of the first trade in the bar. For time bars this is the
    /// bucket boundary, not the first trade's own timestamp.
    pub open_ts: Ts,
    /// Timestamp of the last trade recorded so far.
    pub close_ts: Ts,
    /// First traded price.
    pub open: Price,
    /// Highest traded price.
    pub high: Price,
    /// Lowest traded price.
    pub low: Price,
    /// Last traded price.
    pub close: Price,
    /// Total traded volume.
    pub volume: Qty,
    /// Number of trades.
    pub trades: u32,
    /// Per-price volume breakdown.
    pub clusters: ClusterLadder,
    /// Whether the bar is finished. A forming bar is still mutating.
    pub closed: bool,
}

/// What a bar holds.
#[verifier::ext_equal]
pub struct BarView {
    pub open_ts: Ts,
    pub close_ts: Ts,
    pub open: Price,
    pub high: Price,
    pub low: Price,
    pub close: Price,
    pub volume: Qty,
    pub trades: u32,
    pub ladder: LadderView,
    pub closed: bool,
}

impl View for Bar {
    type V = BarView;

    open spec fn view(&self) -> BarView {
        BarView {
            open_ts: self.open_ts,
            close_ts: self.close_ts,
            open: self.open,
            high: self.high,
            low: self.low,
            close: self.close,
            volume: self.volume,
            trades: self.trades,
            ladder: self.clusters@,
            closed: self.closed,
        }
    }
}

/// The higher of two prices.
pub open spec fn higher(a: Price, b: Price) -> Price {
    if b.0 > a.0 {
        b
    } else {
        a
    }
}

/// The lower of two prices.
pub open spec fn lower(a: Price, b: Price) -> Price {
    if b.0 < a.0 {
        b
    } else {
        a
    }
}

/// A bar about to take its first trade.
pub open spec fn blank_bar(open_ts: Ts, trade: Trade, tick: Price) -> BarView {
    BarView {
        open_ts,
        close_ts: trade.ts,
        open: trade.price,
        high: trade.price,
        low: trade.price,
        close: trade.price,
        volume: Qty(0),
        trades: 0,
        ladder: empty_ladder(tick),
        closed: false,
    }
}

/// A bar of one trade.
pub open spec fn opened_bar(open_ts: Ts, trade: Trade, tick: Price) -> BarView {
    blank_bar(open_ts, trade, tick).applied(trade)
}

impl BarView {
    /// The ladder accounts for every trade of the bar and reaches from the row
    /// of its low to the row of its high, and no price of the bar lies outside
    /// its range.
    pub open spec fn wf(self) -> bool {
        &&& self.ladder.wf()
        &&& self.volume.0 == self.ladder.total_bid + self.ladder.total_ask
        &&& self.trades == self.ladder.trades
        &&& self.low.0 <= self.open.0 <= self.high.0
        &&& self.low.0 <= self.close.0 <= self.high.0
        &&& self.ladder.rows.len() > 0
        &&& self.ladder.base == tick_row(self.low.0 as int, self.ladder.tick.0 as int)
        &&& self.ladder.base + self.ladder.rows.len() - 1 == tick_row(
            self.high.0 as int,
            self.ladder.tick.0 as int,
        )
    }

    /// Whether a trade can be folded in without leaving 64 bits.
    pub open spec fn can_apply(self, trade: Trade) -> bool {
        &&& in_range(self.volume.0 + trade.qty.0)
        &&& self.ladder.can_add(trade.price, trade.qty, trade.aggressor)
    }

    /// The bar after a trade.
    pub open spec fn applied(self, trade: Trade) -> BarView {
        BarView {
            high: higher(self.high, trade.price),
            low: lower(self.low, trade.price),
            close: trade.price,
            close_ts: trade.ts,
            volume: Qty((self.volume.0 + trade.qty.0) as i64),
            trades: (self.trades + 1) as u32,
            ladder: self.ladder.added(trade.price, trade.qty, trade.aggressor),
            ..self
        }
    }

    /// The finished bar.
    pub open spec fn finished(self) -> BarView {
        BarView { closed: true, ..self }
    }

    /// Ask volume minus bid volume.
    pub open spec fn net(self) -> int {
        self.ladder.total_ask - self.ladder.total_bid
    }
}

/// Folding a trade into a bar keeps it well formed.
pub proof fn lemma_applied_wf(bar: BarView, trade: Trade)
    requires
        bar.wf(),
        bar.can_apply(trade),
    ensures
        bar.applied(trade).wf(),
{
    lemma_added_wf(bar.ladder, trade.price, trade.qty, trade.aggressor);
    let tick = bar.ladder.tick.0 as int;
    let price = trade.price.0 as int;
    if price < bar.low.0 {
        lemma_div_is_ordered(price, bar.low.0 as int, tick);
    } else {
        lemma_div_is_ordered(bar.low.0 as int, price, tick);
    }
    if price > bar.high.0 {
        lemma_div_is_ordered(bar.high.0 as int, price, tick);
    } else {
        lemma_div_is_ordered(price, bar.high.0 as int, tick);
    }
    lemma_div_is_ordered(bar.low.0 as int, bar.high.0 as int, tick);
}

/// A bar's ladder lies within its range: its lowest row is the one that the low
/// falls into, its highest the one that the high falls into. Where the low is on
/// a row boundary, no row lies below it.
pub proof fn law_a_ladder_lies_within_its_bar(bar: BarView, slot: int)
    requires
        bar.wf(),
        bar.ladder.prices_fit(),
        0 <= slot < bar.ladder.rows.len(),
    ensures
        bar.ladder.row_price(0).0 <= bar.low.0 < bar.ladder.row_price(0).0 + bar.ladder.tick.0,
        bar.ladder.row_price(bar.ladder.rows.len() - 1).0 <= bar.high.0 < bar.ladder.row_price(
            bar.ladder.rows.len() - 1,
        ).0 + bar.ladder.tick.0,
        bar.low.0 - bar.ladder.tick.0 < bar.ladder.row_price(slot).0 <= bar.high.0,
        bar.low.0 as int % bar.ladder.tick.0 as int == 0 ==> bar.low.0 <= bar.ladder.row_price(
            slot,
        ).0,
{
    let v = bar.ladder;
    let tick = v.tick.0 as int;
    let last = v.rows.len() - 1;
    law_row_holds_its_price(bar.low.0 as int, tick);
    law_row_holds_its_price(bar.high.0 as int, tick);
    lemma_row_price_fits(v, 0);
    lemma_row_price_fits(v, slot);
    lemma_row_price_fits(v, last);
    let (base, at, top) = (v.base, v.base + slot, v.base + last);
    assert(base * tick <= at * tick <= top * tick) by (nonlinear_arith)
        requires
            base <= at <= top,
            tick > 0,
    ;
    assert((base + 1) * tick == base * tick + tick) by (nonlinear_arith);
    assert((top + 1) * tick == top * tick + tick) by (nonlinear_arith);
    if bar.low.0 as int % tick == 0 {
        lemma_fundamental_div_mod(bar.low.0 as int, tick);
        assert(tick * base == base * tick) by (nonlinear_arith);
    }
}

/// Any trade can open a bar, and the bar is well formed.
pub proof fn lemma_opened_wf(open_ts: Ts, trade: Trade, tick: Price)
    requires
        tick.0 > 0,
    ensures
        blank_bar(open_ts, trade, tick).can_apply(trade),
        opened_bar(open_ts, trade, tick).wf(),
{
    lemma_added_wf(empty_ladder(tick), trade.price, trade.qty, trade.aggressor);
}

impl Clone for Bar {
    fn clone(&self) -> (r: Self)
        ensures
            r@ == self@,
    {
        Bar {
            open_ts: self.open_ts,
            close_ts: self.close_ts,
            open: self.open,
            high: self.high,
            low: self.low,
            close: self.close,
            volume: self.volume,
            trades: self.trades,
            clusters: self.clusters.clone(),
            closed: self.closed,
        }
    }
}

impl Bar {
    /// Open a new bar on its first trade.
    pub fn open(open_ts: Ts, trade: &Trade, tick_size: Price) -> (r: Self)
        requires
            tick_size.0 > 0,
        ensures
            r@ == opened_bar(open_ts, *trade, tick_size),
            r@.wf(),
    {
        proof {
            lemma_opened_wf(open_ts, *trade, tick_size);
        }
        let mut clusters = ClusterLadder::new(tick_size);
        clusters.add(trade.price, trade.qty, trade.aggressor);
        Bar {
            open_ts,
            close_ts: trade.ts,
            open: trade.price,
            high: trade.price,
            low: trade.price,
            close: trade.price,
            volume: trade.qty,
            trades: 1,
            clusters,
            closed: false,
        }
    }

    /// Whether [`Bar::apply`] can fold this trade in.
    pub fn can_apply(&self, trade: &Trade) -> (r: bool)
        requires
            self@.wf(),
        ensures
            r == self@.can_apply(*trade),
    {
        self.volume.checked_add(trade.qty).is_some() && self.clusters.can_add(
            trade.price,
            trade.qty,
            trade.aggressor,
        )
    }

    /// Fold a trade into this bar.
    pub fn apply(&mut self, trade: &Trade)
        requires
            old(self)@.wf(),
            old(self)@.can_apply(*trade),
        ensures
            final(self)@.wf(),
            final(self)@ == old(self)@.applied(*trade),
    {
        proof {
            lemma_applied_wf(self@, *trade);
        }
        self.high = self.high.max(trade.price);
        self.low = self.low.min(trade.price);
        self.close = trade.price;
        self.close_ts = trade.ts;
        self.volume = Qty(self.volume.0 + trade.qty.0);
        self.trades = self.trades + 1;
        self.clusters.add(trade.price, trade.qty, trade.aggressor);
    }

    /// Ask volume minus bid volume.
    pub fn delta(&self) -> (r: Qty)
        requires
            in_range(self@.net()),
        ensures
            r.0 == self@.net(),
    {
        self.clusters.delta()
    }

    /// Whether the bar closed at or above its open.
    pub fn is_up(&self) -> (r: bool)
        ensures
            r == (self.close.0 >= self.open.0),
    {
        self.close.0 >= self.open.0
    }

    /// High minus low.
    pub fn range(&self) -> (r: Price)
        requires
            in_range(self.high.0 - self.low.0),
        ensures
            r.0 == self.high.0 - self.low.0,
    {
        Price(self.high.0 - self.low.0)
    }

    /// The most-traded price within the bar.
    pub fn poc(&self) -> (r: Option<Price>)
        requires
            self@.wf(),
            self@.ladder.prices_fit(),
        ensures
            r == self@.ladder.poc_price(),
    {
        self.clusters.poc()
    }

    /// The bar's value area.
    pub fn value_area(&self, fraction: Ratio) -> (r: Option<ValueArea>)
        requires
            self@.wf(),
            self@.ladder.prices_fit(),
            fraction.wf(),
            self@.ladder.value_fits(fraction),
        ensures
            r == self@.ladder.value_area_of(fraction),
    {
        self.clusters.value_area(fraction)
    }

    /// Volume of one side.
    pub fn side_volume(&self, side: Side) -> (r: Qty)
        ensures
            r.0 == if side is Buy {
                self@.ladder.total_ask
            } else {
                self@.ladder.total_bid
            },
    {
        match side {
            Side::Buy => self.clusters.total_ask(),
            Side::Sell => self.clusters.total_bid(),
        }
    }

    /// Mark the bar finished.
    pub fn close(&mut self)
        ensures
            final(self)@ == old(self)@.finished(),
    {
        self.closed = true;
    }
}

} // verus!
