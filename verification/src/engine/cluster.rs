//! Cluster (footprint) ladders.
//!
//! A cluster ladder is a bar decomposed into price levels, each holding the
//! volume that traded on the bid and on the ask. It is stored densely: rows are
//! a `Vec` indexed by offset from a base tick index, which makes accumulating a
//! trade an O(1) array write rather than a map lookup.

use crate::primitives::fixed::{Price, Qty};
use crate::primitives::instrument::Instrument;
use crate::primitives::market::Side;
use crate::primitives::ratio::Ratio;
use vstd::prelude::*;

verus! {

use crate::primitives::fixed::{in_range, law_row_holds_its_price, tick_row};
use crate::primitives::ratio::{reaches, share_of};

/// Volume traded at a single price level within a bar.
#[derive(Debug, Clone, Copy, PartialEq, Eq, Structural)]
pub struct Cluster {
    /// Volume that traded on the bid: sellers were the aggressor.
    pub bid: Qty,
    /// Volume that traded on the ask: buyers were the aggressor.
    pub ask: Qty,
    /// Number of individual trades at this level.
    pub trades: u32,
}

/// A level at which nothing traded.
pub open spec fn empty_cluster() -> Cluster {
    Cluster { bid: Qty(0), ask: Qty(0), trades: 0 }
}

impl Default for Cluster {
    fn default() -> (r: Self)
        ensures
            r == empty_cluster(),
    {
        Cluster { bid: Qty(0), ask: Qty(0), trades: 0 }
    }
}

impl Cluster {
    /// Bid and ask volume together.
    pub open spec fn size(self) -> int {
        self.bid.0 + self.ask.0
    }

    /// Total volume at this level.
    pub fn total(&self) -> (r: Qty)
        requires
            in_range(self.size()),
        ensures
            r.0 == self.size(),
    {
        Qty(self.bid.0 + self.ask.0)
    }

    /// Ask minus bid: positive when buyers were the aggressors here.
    pub fn delta(&self) -> (r: Qty)
        requires
            in_range(self.ask.0 - self.bid.0),
        ensures
            r.0 == self.ask.0 - self.bid.0,
            r.0 > 0 <==> self.ask.0 > self.bid.0,
    {
        Qty(self.ask.0 - self.bid.0)
    }

    /// Whether no volume traded at this level.
    pub fn is_empty(&self) -> (r: bool)
        ensures
            r == (self.bid.0 == 0 && self.ask.0 == 0),
    {
        self.bid.0 == 0 && self.ask.0 == 0
    }
}

/// A price level paired with its cluster, as handed to renderers and scanners.
#[derive(Debug, Clone, Copy, PartialEq, Eq, Structural)]
pub struct ClusterRow {
    /// The price of this level.
    pub price: Price,
    /// Volume breakdown at that price.
    pub cluster: Cluster,
}

/// One side of a detected diagonal imbalance.
#[derive(Debug, Clone, Copy, PartialEq, Eq, Structural)]
pub struct Imbalance {
    /// Price at which the dominant side traded.
    pub price: Price,
    /// Which side dominated.
    pub side: Side,
    /// Volume of the dominant side.
    pub dominant: Qty,
    /// Volume it was compared against. Zero when the other side is empty: the
    /// imbalance is then unopposed and its ratio has no bound.
    pub opposing: Qty,
}

impl Imbalance {
    /// Whether the opposing diagonal cell had no volume at all.
    pub fn is_unopposed(&self) -> (r: bool)
        ensures
            r == (self.opposing.0 == 0),
    {
        self.opposing.0 == 0
    }
}

/// The value area of a ladder: the price band containing a share of volume.
#[derive(Debug, Clone, Copy, PartialEq, Eq, Structural)]
pub struct ValueArea {
    /// Value area high.
    pub high: Price,
    /// Value area low.
    pub low: Price,
    /// Point of control: the single most-traded price.
    pub poc: Price,
    /// Volume contained within the band.
    pub volume: Qty,
}

/// What is counted at a level.
pub enum Part {
    Bid,
    Ask,
    Trades,
}

/// One count of a level.
pub open spec fn part(c: Cluster, which: Part) -> int {
    match which {
        Part::Bid => c.bid.0 as int,
        Part::Ask => c.ask.0 as int,
        Part::Trades => c.trades as int,
    }
}

/// One count, summed over levels.
pub open spec fn sum_part(rows: Seq<Cluster>, which: Part) -> int
    decreases rows.len(),
{
    if rows.len() == 0 {
        0
    } else {
        sum_part(rows.drop_last(), which) + part(rows.last(), which)
    }
}

/// Levels at which nothing traded.
pub open spec fn blank_rows(n: nat) -> Seq<Cluster> {
    Seq::new(n, |i: int| empty_cluster())
}

/// What a ladder holds: dense rows from the tick index `base` upward.
#[verifier::ext_equal]
pub struct LadderView {
    pub tick: Price,
    pub base: int,
    pub rows: Seq<Cluster>,
    pub total_bid: int,
    pub total_ask: int,
    pub trades: int,
}

/// A ladder without rows.
pub open spec fn empty_ladder(tick: Price) -> LadderView {
    LadderView {
        tick,
        base: 0,
        rows: Seq::<Cluster>::empty(),
        total_bid: 0,
        total_ask: 0,
        trades: 0,
    }
}

/// A level after one more trade.
pub open spec fn with_trade(c: Cluster, qty: int, aggressor: Side) -> Cluster {
    match aggressor {
        Side::Buy => Cluster {
            ask: Qty((c.ask.0 + qty) as i64),
            trades: (c.trades + 1) as u32,
            ..c
        },
        Side::Sell => Cluster {
            bid: Qty((c.bid.0 + qty) as i64),
            trades: (c.trades + 1) as u32,
            ..c
        },
    }
}

impl LadderView {
    pub open spec fn wf(self) -> bool {
        &&& self.tick.0 > 0
        &&& self.rows.len() <= i64::MAX
        &&& self.rows.len() <= usize::MAX
        &&& self.rows.len() == 0 <==> self.trades == 0
        &&& self.rows.len() == 0 ==> self.base == 0
        &&& in_range(self.base)
        &&& in_range(self.base + self.rows.len() - 1)
        &&& self.rows.len() > 0 ==> (self.base + self.rows.len() - 1) * self.tick.0 <= i64::MAX
        &&& self.total_bid == sum_part(self.rows, Part::Bid)
        &&& self.total_ask == sum_part(self.rows, Part::Ask)
        &&& self.trades == sum_part(self.rows, Part::Trades)
        &&& in_range(self.total_bid)
        &&& in_range(self.total_ask)
        &&& 0 <= self.trades <= u32::MAX
    }

    /// Whether the price of the lowest row is representable. It is unless a
    /// trade came within one tick of the smallest price there is.
    pub open spec fn prices_fit(self) -> bool {
        self.rows.len() > 0 ==> i64::MIN <= self.base * self.tick.0
    }

    /// The price of a row.
    pub open spec fn row_price(self, slot: int) -> Price {
        Price(((self.base + slot) * self.tick.0) as i64)
    }

    /// The level at a tick index, an empty one outside the rows.
    pub open spec fn level(self, row: int) -> Cluster {
        if self.base <= row < self.base + self.rows.len() {
            self.rows[row - self.base]
        } else {
            empty_cluster()
        }
    }

    /// The lowest tick index once `row` is on the ladder.
    pub open spec fn low_with(self, row: int) -> int {
        if self.rows.len() == 0 || row < self.base {
            row
        } else {
            self.base
        }
    }

    /// The highest tick index once `row` is on the ladder.
    pub open spec fn high_with(self, row: int) -> int {
        if self.rows.len() == 0 || row >= self.base + self.rows.len() {
            row
        } else {
            self.base + self.rows.len() - 1
        }
    }

    /// The ladder grown to hold `row`, with empty rows in between.
    pub open spec fn grown(self, row: int) -> LadderView {
        LadderView {
            base: self.low_with(row),
            rows: Seq::new(
                (self.high_with(row) - self.low_with(row) + 1) as nat,
                |i: int| self.level(self.low_with(row) + i),
            ),
            ..self
        }
    }

    /// Whether a trade can be recorded without leaving 64 bits.
    pub open spec fn can_add(self, price: Price, qty: Qty, aggressor: Side) -> bool {
        let row = tick_row(price.0 as int, self.tick.0 as int);
        let span = self.high_with(row) - self.low_with(row) + 1;
        &&& span <= i64::MAX
        &&& span <= usize::MAX
        &&& self.trades < u32::MAX
        &&& match aggressor {
            Side::Buy => in_range(self.total_ask + qty.0) && in_range(
                self.level(row).ask.0 + qty.0,
            ),
            Side::Sell => in_range(self.total_bid + qty.0) && in_range(
                self.level(row).bid.0 + qty.0,
            ),
        }
    }

    /// The ladder after a trade.
    pub open spec fn added(self, price: Price, qty: Qty, aggressor: Side) -> LadderView {
        let row = tick_row(price.0 as int, self.tick.0 as int);
        let grown = self.grown(row);
        let slot = row - grown.base;
        LadderView {
            rows: grown.rows.update(slot, with_trade(grown.rows[slot], qty.0 as int, aggressor)),
            total_bid: self.total_bid + if aggressor is Sell {
                qty.0 as int
            } else {
                0
            },
            total_ask: self.total_ask + if aggressor is Buy {
                qty.0 as int
            } else {
                0
            },
            trades: self.trades + 1,
            ..grown
        }
    }

    /// Every level from low to high.
    pub open spec fn row_list(self) -> Seq<ClusterRow> {
        Seq::new(
            self.rows.len(),
            |i: int| ClusterRow { price: self.row_price(i), cluster: self.rows[i] },
        )
    }
}

proof fn lemma_sum_concat(a: Seq<Cluster>, b: Seq<Cluster>, which: Part)
    ensures
        sum_part(a + b, which) == sum_part(a, which) + sum_part(b, which),
    decreases b.len(),
{
    if b.len() == 0 {
        assert(a + b =~= a);
    } else {
        lemma_sum_concat(a, b.drop_last(), which);
        assert((a + b).drop_last() =~= a + b.drop_last());
    }
}

proof fn lemma_sum_blank(n: nat, which: Part)
    ensures
        sum_part(blank_rows(n), which) == 0,
    decreases n,
{
    if n > 0 {
        lemma_sum_blank((n - 1) as nat, which);
        assert(blank_rows(n).drop_last() =~= blank_rows((n - 1) as nat));
    }
}

proof fn lemma_sum_update(rows: Seq<Cluster>, slot: int, c: Cluster, which: Part)
    requires
        0 <= slot < rows.len(),
    ensures
        sum_part(rows.update(slot, c), which) == sum_part(rows, which) - part(rows[slot], which)
            + part(c, which),
    decreases rows.len(),
{
    let after = rows.update(slot, c);
    if slot == rows.len() - 1 {
        assert(after.drop_last() =~= rows.drop_last());
    } else {
        lemma_sum_update(rows.drop_last(), slot, c, which);
        assert(after.drop_last() =~= rows.drop_last().update(slot, c));
    }
}

proof fn lemma_trades_bound(rows: Seq<Cluster>, slot: int)
    requires
        0 <= slot < rows.len(),
    ensures
        rows[slot].trades <= sum_part(rows, Part::Trades),
    decreases rows.len(),
{
    if slot < rows.len() - 1 {
        lemma_trades_bound(rows.drop_last(), slot);
    } else {
        lemma_sum_trades_natural(rows.drop_last());
    }
}

/// A level holds no more trades than the ladder.
pub proof fn lemma_trades_fit(v: LadderView, row: int)
    requires
        v.wf(),
    ensures
        v.level(row).trades <= v.trades,
{
    if v.base <= row < v.base + v.rows.len() {
        lemma_trades_bound(v.rows, row - v.base);
    }
}

proof fn lemma_sum_trades_natural(rows: Seq<Cluster>)
    ensures
        sum_part(rows, Part::Trades) >= 0,
    decreases rows.len(),
{
    if rows.len() > 0 {
        lemma_sum_trades_natural(rows.drop_last());
    }
}

proof fn lemma_grown_sums(v: LadderView, row: int, which: Part)
    requires
        v.wf(),
    ensures
        sum_part(v.grown(row).rows, which) == sum_part(v.rows, which),
{
    let g = v.grown(row);
    let low = blank_rows(
        if v.rows.len() == 0 {
            0
        } else {
            (v.base - g.base) as nat
        },
    );
    let high = blank_rows((g.rows.len() - v.rows.len() - low.len()) as nat);
    assert(g.rows =~= low + v.rows + high);
    lemma_sum_concat(low + v.rows, high, which);
    lemma_sum_concat(low, v.rows, which);
    lemma_sum_blank(low.len(), which);
    lemma_sum_blank(high.len(), which);
}

/// Recording a trade keeps a ladder well formed.
pub proof fn lemma_added_wf(v: LadderView, price: Price, qty: Qty, aggressor: Side)
    requires
        v.wf(),
        v.can_add(price, qty, aggressor),
    ensures
        v.added(price, qty, aggressor).wf(),
{
    let tick = v.tick.0 as int;
    let row = tick_row(price.0 as int, tick);
    let g = v.grown(row);
    let a = v.added(price, qty, aggressor);
    let slot = row - g.base;
    law_row_holds_its_price(price.0 as int, tick);
    lemma_row_in_range(price, v.tick);
    lemma_grown_sums(v, row, Part::Bid);
    lemma_grown_sums(v, row, Part::Ask);
    lemma_grown_sums(v, row, Part::Trades);
    let c = with_trade(g.rows[slot], qty.0 as int, aggressor);
    lemma_trades_bound(g.rows, slot);
    lemma_sum_update(g.rows, slot, c, Part::Bid);
    lemma_sum_update(g.rows, slot, c, Part::Ask);
    lemma_sum_update(g.rows, slot, c, Part::Trades);
    assert(a.base + a.rows.len() - 1 == v.high_with(row));
}

pub proof fn lemma_row_in_range(price: Price, tick: Price)
    requires
        tick.0 > 0,
    ensures
        in_range(tick_row(price.0 as int, tick.0 as int)),
{
    let p = price.0 as int;
    let t = tick.0 as int;
    let q = tick_row(p, t);
    law_row_holds_its_price(p, t);
    assert(in_range(q)) by (nonlinear_arith)
        requires
            q * t <= p < (q + 1) * t,
            t > 0,
            i64::MIN <= p <= i64::MAX,
    ;
}

/// A bar's volume broken down by price level.
///
/// Rows are dense between the lowest and highest traded price, so a level that
/// saw no trades is present with a zero cluster. That is deliberate: gaps in a
/// footprint carry information (single prints), and callers should be able to
/// walk rows without reasoning about missing keys.
#[derive(Debug, PartialEq)]
pub struct ClusterLadder {
    tick_size: Price,
    /// Tick index of `rows[0]`. Zero while `rows` is empty.
    base_index: i64,
    rows: Vec<Cluster>,
    total_bid: Qty,
    total_ask: Qty,
    trades: u32,
}

impl View for ClusterLadder {
    type V = LadderView;

    closed spec fn view(&self) -> LadderView {
        LadderView {
            tick: self.tick_size,
            base: self.base_index as int,
            rows: self.rows@,
            total_bid: self.total_bid.0 as int,
            total_ask: self.total_ask.0 as int,
            trades: self.trades as int,
        }
    }
}

impl Clone for ClusterLadder {
    fn clone(&self) -> (r: Self)
        ensures
            r@ == self@,
    {
        let mut rows: Vec<Cluster> = Vec::new();
        let mut i: usize = 0;
        while i < self.rows.len()
            invariant
                i <= self.rows@.len(),
                rows@ == self.rows@.take(i as int),
            decreases self.rows@.len() - i,
        {
            rows.push(self.rows[i]);
            i += 1;
            assert(rows@ =~= self.rows@.take(i as int));
        }
        assert(rows@ =~= self.rows@);
        ClusterLadder {
            tick_size: self.tick_size,
            base_index: self.base_index,
            rows,
            total_bid: self.total_bid,
            total_ask: self.total_ask,
            trades: self.trades,
        }
    }
}

impl ClusterLadder {
    /// An empty ladder for an instrument's tick size.
    pub fn new(tick_size: Price) -> (r: Self)
        requires
            tick_size.0 > 0,
        ensures
            r@ == empty_ladder(tick_size),
            r@.wf(),
    {
        ClusterLadder {
            tick_size,
            base_index: 0,
            rows: Vec::new(),
            total_bid: Qty(0),
            total_ask: Qty(0),
            trades: 0,
        }
    }

    /// An empty ladder for an instrument.
    pub fn for_instrument(instrument: &Instrument) -> (r: Self)
        requires
            instrument.tick_size.0 > 0,
        ensures
            r@ == empty_ladder(instrument.tick_size),
            r@.wf(),
    {
        ClusterLadder::new(instrument.tick_size)
    }

    /// Whether [`ClusterLadder::add`] can record this trade.
    pub fn can_add(&self, price: Price, qty: Qty, aggressor: Side) -> (r: bool)
        requires
            self@.wf(),
        ensures
            r == self@.can_add(price, qty, aggressor),
    {
        let index: i64 = price.tick_index(self.tick_size);
        let len: i128 = self.rows.len() as i128;
        let base: i128 = self.base_index as i128;
        let low: i128 = if len == 0 || (index as i128) < base {
            index as i128
        } else {
            base
        };
        let high: i128 = if len == 0 || index as i128 >= base + len {
            index as i128
        } else {
            base + len - 1
        };
        let span: i128 = high - low + 1;
        if span > i64::MAX as i128 || span > usize::MAX as i128 || self.trades == u32::MAX {
            return false;
        }
        let level = self.at(price);
        match aggressor {
            Side::Buy => self.total_ask.checked_add(qty).is_some() && level.ask.checked_add(
                qty,
            ).is_some(),
            Side::Sell => self.total_bid.checked_add(qty).is_some() && level.bid.checked_add(
                qty,
            ).is_some(),
        }
    }

    /// Record a trade at a price.
    ///
    /// The price is floored to its tick, so an off-tick print (some venues send
    /// them) lands on the level below rather than being dropped or creating a
    /// phantom row.
    pub fn add(&mut self, price: Price, qty: Qty, aggressor: Side)
        requires
            old(self)@.wf(),
            old(self)@.can_add(price, qty, aggressor),
        ensures
            final(self)@.wf(),
            final(self)@ == old(self)@.added(price, qty, aggressor),
    {
        proof {
            lemma_added_wf(self@, price, qty, aggressor);
        }
        let ghost before = self@;
        let index: i64 = price.tick_index(self.tick_size);
        let slot: usize = self.slot_for(index);
        proof {
            assert(self.rows@[slot as int] == before.level(index as int));
            lemma_grown_sums(before, index as int, Part::Trades);
            lemma_trades_bound(self.rows@, slot as int);
        }
        let mut cluster = self.rows[slot];
        match aggressor {
            Side::Buy => {
                cluster.ask = Qty(cluster.ask.0 + qty.0);
                self.total_ask = Qty(self.total_ask.0 + qty.0);
            },
            Side::Sell => {
                cluster.bid = Qty(cluster.bid.0 + qty.0);
                self.total_bid = Qty(self.total_bid.0 + qty.0);
            },
        }
        cluster.trades = cluster.trades + 1;
        self.rows.set(slot, cluster);
        self.trades = self.trades + 1;
        assert(self@ =~= before.added(price, qty, aggressor));
    }

    /// Return the row slot for a tick index, growing the ladder if needed.
    fn slot_for(&mut self, index: i64) -> (slot: usize)
        requires
            old(self)@.wf(),
            old(self)@.high_with(index as int) - old(self)@.low_with(index as int) + 1 <= i64::MAX,
            old(self)@.high_with(index as int) - old(self)@.low_with(index as int) + 1
                <= usize::MAX,
        ensures
            final(self)@ == old(self)@.grown(index as int),
            slot == index - final(self)@.base,
            slot < final(self)@.rows.len(),
    {
        let ghost before = self@;
        if self.rows.len() == 0 {
            self.base_index = index;
            self.rows.push(Cluster::default());
            assert(self@ =~= before.grown(index as int));
            return 0;
        }
        if index < self.base_index {
            // Grow downward: the missing rows first, then the old ones.
            let missing: usize = (self.base_index as i128 - index as i128) as usize;
            let mut rows: Vec<Cluster> = Vec::new();
            let mut k: usize = 0;
            while k < missing
                invariant
                    k <= missing,
                    rows@ == blank_rows(k as nat),
                decreases missing - k,
            {
                rows.push(Cluster::default());
                k += 1;
                assert(rows@ =~= blank_rows(k as nat));
            }
            rows.append(&mut self.rows);
            self.rows = rows;
            self.base_index = index;
            assert(self@ =~= before.grown(index as int));
            return 0;
        }
        let slot: usize = (index as i128 - self.base_index as i128) as usize;
        while self.rows.len() <= slot
            invariant
                before.wf(),
                index >= before.base,
                slot == index - before.base,
                before.rows.len() <= self.rows@.len(),
                self.rows@.len() <= slot + 1 || self.rows@.len() == before.rows.len(),
                self@ == (LadderView {
                    rows: before.rows + blank_rows(
                        (self.rows@.len() - before.rows.len()) as nat,
                    ),
                    ..before
                }),
            decreases slot + 1 - self.rows@.len(),
        {
            let ghost n = (self.rows@.len() - before.rows.len()) as nat;
            self.rows.push(Cluster::default());
            assert(before.rows + blank_rows(n + 1) =~= (before.rows + blank_rows(n)).push(
                empty_cluster(),
            ));
        }
        assert(self@ =~= before.grown(index as int));
        slot
    }

    /// Whether no trade has been recorded.
    pub fn is_empty(&self) -> (r: bool)
        ensures
            r == (self@.rows.len() == 0),
    {
        self.rows.len() == 0
    }

    /// Number of price levels spanned, including untraded ones in between.
    pub fn len(&self) -> (r: usize)
        ensures
            r == self@.rows.len(),
    {
        self.rows.len()
    }

    /// The tick size this ladder was built with.
    pub fn tick_size(&self) -> (r: Price)
        ensures
            r == self@.tick,
    {
        self.tick_size
    }

    /// Total volume across every level.
    pub fn total_volume(&self) -> (r: Qty)
        requires
            in_range(self@.total_bid + self@.total_ask),
        ensures
            r.0 == self@.total_bid + self@.total_ask,
    {
        Qty(self.total_bid.0 + self.total_ask.0)
    }

    /// Total volume that traded on the bid.
    pub fn total_bid(&self) -> (r: Qty)
        ensures
            r.0 == self@.total_bid,
    {
        self.total_bid
    }

    /// Total volume that traded on the ask.
    pub fn total_ask(&self) -> (r: Qty)
        ensures
            r.0 == self@.total_ask,
    {
        self.total_ask
    }

    /// Bar delta: ask volume minus bid volume.
    pub fn delta(&self) -> (r: Qty)
        requires
            in_range(self@.total_ask - self@.total_bid),
        ensures
            r.0 == self@.total_ask - self@.total_bid,
            r.0 > 0 <==> self@.total_ask > self@.total_bid,
    {
        Qty(self.total_ask.0 - self.total_bid.0)
    }

    /// Number of trades recorded.
    pub fn trade_count(&self) -> (r: u32)
        ensures
            r == self@.trades,
    {
        self.trades
    }

    /// Whether the price of every row is representable.
    pub fn has_prices(&self) -> (r: bool)
        requires
            self@.wf(),
        ensures
            r == self@.prices_fit(),
    {
        proof {
            crate::primitives::fixed::lemma_product_fits(self.base_index, self.tick_size.0);
        }
        self.rows.len() == 0 || self.base_index as i128 * self.tick_size.0 as i128
            >= i64::MIN as i128
    }

    /// Lowest price level in the ladder.
    pub fn low(&self) -> (r: Option<Price>)
        requires
            self@.wf(),
            self@.prices_fit(),
        ensures
            r == if self@.rows.len() == 0 {
                None
            } else {
                Some(self@.row_price(0))
            },
    {
        if self.rows.len() == 0 {
            None
        } else {
            Some(self.price_at(0))
        }
    }

    /// Highest price level in the ladder.
    pub fn high(&self) -> (r: Option<Price>)
        requires
            self@.wf(),
            self@.prices_fit(),
        ensures
            r == if self@.rows.len() == 0 {
                None
            } else {
                Some(self@.row_price(self@.rows.len() - 1))
            },
    {
        if self.rows.len() == 0 {
            None
        } else {
            Some(self.price_at(self.rows.len() - 1))
        }
    }

    /// Price of a row slot.
    fn price_at(&self, slot: usize) -> (r: Price)
        requires
            self@.wf(),
            self@.prices_fit(),
            slot < self@.rows.len(),
        ensures
            r == self@.row_price(slot as int),
            r.0 == (self@.base + slot) * self@.tick.0,
    {
        proof {
            lemma_row_price_fits(self@, slot as int);
        }
        Price::from_tick_index((self.base_index as i128 + slot as i128) as i64, self.tick_size)
    }

    /// The cluster at an exact price, or an empty one if nothing traded there.
    pub fn at(&self, price: Price) -> (r: Cluster)
        requires
            self@.wf(),
        ensures
            r == self@.level(tick_row(price.0 as int, self@.tick.0 as int)),
    {
        let index: i64 = price.tick_index(self.tick_size);
        if index < self.base_index {
            return Cluster::default();
        }
        let slot: i128 = index as i128 - self.base_index as i128;
        if slot < self.rows.len() as i128 {
            self.rows[slot as usize]
        } else {
            Cluster::default()
        }
    }

    /// Every level from low to high.
    pub fn rows(&self) -> (r: Vec<ClusterRow>)
        requires
            self@.wf(),
            self@.prices_fit(),
        ensures
            r@ == self@.row_list(),
    {
        let mut out: Vec<ClusterRow> = Vec::new();
        let mut slot: usize = 0;
        while slot < self.rows.len()
            invariant
                self@.wf(),
                self@.prices_fit(),
                slot <= self@.rows.len(),
                self@.rows == self.rows@,
                out@ == self@.row_list().take(slot as int),
            decreases self.rows@.len() - slot,
        {
            out.push(ClusterRow { price: self.price_at(slot), cluster: self.rows[slot] });
            slot += 1;
            assert(out@ =~= self@.row_list().take(slot as int));
        }
        assert(out@ =~= self@.row_list());
        out
    }
}

/// Between the lowest row and the highest, every row has a representable price.
pub proof fn lemma_row_price_fits(v: LadderView, slot: int)
    requires
        v.wf(),
        v.prices_fit(),
        0 <= slot < v.rows.len(),
    ensures
        in_range((v.base + slot) * v.tick.0),
        in_range(v.base + slot),
{
    let t = v.tick.0 as int;
    let n = v.rows.len() as int;
    assert(v.base * t <= (v.base + slot) * t <= (v.base + n - 1) * t) by (nonlinear_arith)
        requires
            0 <= slot < n,
            t > 0,
    ;
}

/// Rows are one tick apart.
pub proof fn law_rows_are_one_tick_apart(v: LadderView, slot: int)
    requires
        v.wf(),
        v.prices_fit(),
        0 <= slot < v.rows.len() - 1,
    ensures
        v.row_price(slot + 1).0 - v.row_price(slot).0 == v.tick.0,
{
    lemma_row_price_fits(v, slot);
    lemma_row_price_fits(v, slot + 1);
    let t = v.tick.0 as int;
    assert((v.base + slot + 1) * t == (v.base + slot) * t + t) by (nonlinear_arith);
}

/// Twice the distance of a slot from the middle of `n` slots.
pub open spec fn off_middle(slot: int, n: int) -> int {
    if 2 * slot >= n - 1 {
        2 * slot - (n - 1)
    } else {
        (n - 1) - 2 * slot
    }
}

/// Whether a slot is the point of control: it holds the most volume, and of the
/// slots that hold as much it is the closest to the middle, the lower of two.
pub open spec fn is_poc_slot(rows: Seq<Cluster>, slot: int) -> bool {
    &&& 0 <= slot < rows.len()
    &&& rows[slot].size() > 0
    &&& forall|j: int| 0 <= j < rows.len() ==> (#[trigger] rows[j]).size() <= rows[slot].size()
    &&& forall|j: int|
        0 <= j < rows.len() && (#[trigger] rows[j]).size() == rows[slot].size() && j != slot
            ==> off_middle(slot, rows.len() as int) < off_middle(j, rows.len() as int) || (
        off_middle(slot, rows.len() as int) == off_middle(j, rows.len() as int) && slot < j)
}

/// The slot of the point of control, if any volume traded.
pub open spec fn poc_slot(rows: Seq<Cluster>) -> Option<int> {
    if exists|slot: int| is_poc_slot(rows, slot) {
        Some(choose|slot: int| is_poc_slot(rows, slot))
    } else {
        None
    }
}

proof fn lemma_poc_unique(rows: Seq<Cluster>, slot: int)
    requires
        is_poc_slot(rows, slot),
    ensures
        poc_slot(rows) == Some(slot),
{
    let other = poc_slot(rows)->0;
    assert(is_poc_slot(rows, other));
    if other != slot {
        assert(rows[other].size() == rows[slot].size());
    }
}

/// The volume of the rows from `lower` to `upper`.
pub open spec fn band_volume(rows: Seq<Cluster>, lower: int, upper: int) -> int
    decreases upper - lower + 1,
{
    if upper < lower {
        0
    } else {
        band_volume(rows, lower, upper - 1) + rows[upper].size()
    }
}

/// The volume of a row, nothing outside the ladder.
pub open spec fn row_volume(rows: Seq<Cluster>, slot: int) -> int {
    if 0 <= slot < rows.len() {
        rows[slot].size()
    } else {
        0
    }
}

/// A band of rows, both ends included.
pub struct Band {
    pub lower: int,
    pub upper: int,
}

/// A band widened by two rows, or by the one that is left, on the side whose
/// next two rows hold more volume; upward when they hold the same.
pub open spec fn widened(rows: Seq<Cluster>, band: Band) -> Band {
    let above = row_volume(rows, band.upper + 1) + row_volume(rows, band.upper + 2);
    let below = row_volume(rows, band.lower - 1) + row_volume(rows, band.lower - 2);
    if band.upper + 1 < rows.len() && (band.lower <= 0 || above >= below) {
        Band {
            upper: if band.upper + 2 < rows.len() {
                band.upper + 2
            } else {
                band.upper + 1
            },
            ..band
        }
    } else {
        Band {
            lower: if band.lower >= 2 {
                band.lower - 2
            } else {
                0
            },
            ..band
        }
    }
}

/// The first band, widening from `band`, that holds `target` or is the whole
/// ladder.
pub open spec fn band_holding(rows: Seq<Cluster>, band: Band, target: int) -> Band
    decreases rows.len() - (band.upper - band.lower),
{
    if !(0 <= band.lower <= band.upper < rows.len()) || band_volume(rows, band.lower, band.upper)
        >= target || (band.lower == 0 && band.upper == rows.len() - 1) {
        band
    } else {
        band_holding(rows, widened(rows, band), target)
    }
}

impl LadderView {
    /// The most-traded price.
    pub open spec fn poc_price(self) -> Option<Price> {
        match poc_slot(self.rows) {
            Some(slot) => Some(self.row_price(slot)),
            None => None,
        }
    }

    /// The rows that hold a share of all volume around the point of control.
    pub open spec fn value_band(self, fraction: Ratio) -> Band {
        let slot = poc_slot(self.rows)->0;
        band_holding(
            self.rows,
            Band { lower: slot, upper: slot },
            share_of(self.total_bid + self.total_ask, fraction),
        )
    }

    /// The price band that holds a share of all volume.
    pub open spec fn value_area_of(self, fraction: Ratio) -> Option<ValueArea> {
        if poc_slot(self.rows) is None || self.total_bid + self.total_ask <= 0 {
            None
        } else {
            let band = self.value_band(fraction);
            Some(
                ValueArea {
                    high: self.row_price(band.upper),
                    low: self.row_price(band.lower),
                    poc: self.row_price(poc_slot(self.rows)->0),
                    volume: Qty(band_volume(self.rows, band.lower, band.upper) as i64),
                },
            )
        }
    }

    /// Whether the volume of the value area is representable.
    pub open spec fn value_fits(self, fraction: Ratio) -> bool {
        &&& in_range(self.total_bid + self.total_ask)
        &&& self.value_area_of(fraction) is Some ==> in_range(
            band_volume(
                self.rows,
                self.value_band(fraction).lower,
                self.value_band(fraction).upper,
            ),
        )
    }
}

proof fn lemma_band_bound(rows: Seq<Cluster>, lower: int, upper: int)
    requires
        0 <= lower <= upper + 1 <= rows.len(),
    ensures
        -(upper - lower + 1) * 0x1_0000_0000_0000_0000 <= band_volume(rows, lower, upper) <= (upper - lower + 1)
            * 0xffff_ffff_ffff_ffff,
    decreases upper - lower + 1,
{
    if lower <= upper {
        lemma_band_bound(rows, lower, upper - 1);
    }
}

proof fn lemma_band_below(rows: Seq<Cluster>, lower: int, upper: int)
    requires
        0 < lower <= upper < rows.len(),
    ensures
        band_volume(rows, lower - 1, upper) == rows[lower - 1].size() + band_volume(
            rows,
            lower,
            upper,
        ),
    decreases upper - lower,
{
    if lower == upper {
        assert(band_volume(rows, lower - 1, lower - 1) == band_volume(rows, lower - 1, lower - 2)
            + rows[lower - 1].size());
        assert(band_volume(rows, lower - 1, lower - 2) == 0);
        assert(band_volume(rows, lower, lower) == band_volume(rows, lower, lower - 1)
            + rows[lower].size());
        assert(band_volume(rows, lower, lower - 1) == 0);
    } else {
        lemma_band_below(rows, lower, upper - 1);
    }
}

impl ClusterLadder {
    fn wide_total(&self, slot: usize) -> (r: i128)
        requires
            slot < self@.rows.len(),
        ensures
            r == self@.rows[slot as int].size(),
    {
        self.rows[slot].bid.0 as i128 + self.rows[slot].ask.0 as i128
    }

    fn wide_total_or_zero(&self, slot: i128) -> (r: i128)
        ensures
            r == row_volume(self@.rows, slot as int),
            -0x1_0000_0000_0000_0000 <= r < 0x1_0000_0000_0000_0000,
    {
        if 0 <= slot && slot < self.rows.len() as i128 {
            self.wide_total(slot as usize)
        } else {
            0
        }
    }

    fn poc_at(&self) -> (r: Option<usize>)
        requires
            self@.wf(),
        ensures
            match r {
                Some(slot) => poc_slot(self@.rows) == Some(slot as int) && slot < self@.rows.len(),
                None => poc_slot(self@.rows) is None,
            },
    {
        let n: usize = self.rows.len();
        let mut best: usize = 0;
        let mut best_total: i128 = 0;
        let mut slot: usize = 0;
        while slot < n
            invariant
                self@.wf(),
                n == self@.rows.len(),
                slot <= n,
                best_total >= 0,
                forall|j: int| 0 <= j < slot ==> (#[trigger] self@.rows[j]).size() <= best_total,
                best_total > 0 ==> best < slot && self@.rows[best as int].size() == best_total,
                best_total > 0 ==> forall|j: int|
                    0 <= j < slot && (#[trigger] self@.rows[j]).size() == best_total && j != best
                        ==> off_middle(best as int, n as int) < off_middle(j, n as int) || (
                    off_middle(best as int, n as int) == off_middle(j, n as int) && best < j),
            decreases n - slot,
        {
            let total: i128 = self.wide_total(slot);
            if total > best_total {
                best_total = total;
                best = slot;
            } else if total == best_total && total > 0 {
                let span: i128 = n as i128 - 1;
                let current: i128 = if 2 * slot as i128 >= span {
                    2 * slot as i128 - span
                } else {
                    span - 2 * slot as i128
                };
                let incumbent: i128 = if 2 * best as i128 >= span {
                    2 * best as i128 - span
                } else {
                    span - 2 * best as i128
                };
                if current < incumbent {
                    best = slot;
                }
            }
            slot += 1;
        }
        if best_total > 0 {
            proof {
                assert(is_poc_slot(self@.rows, best as int));
                lemma_poc_unique(self@.rows, best as int);
            }
            Some(best)
        } else {
            proof {
                if exists|s: int| is_poc_slot(self@.rows, s) {
                    let s = choose|s: int| is_poc_slot(self@.rows, s);
                    assert(self@.rows[s].size() <= 0);
                }
            }
            None
        }
    }

    /// Point of control: the most-traded price.
    ///
    /// Ties go to the level closest to the middle of the ladder, which is the
    /// convention that keeps the POC from jumping to an extreme on thin bars.
    pub fn poc(&self) -> (r: Option<Price>)
        requires
            self@.wf(),
            self@.prices_fit(),
        ensures
            r == self@.poc_price(),
    {
        match self.poc_at() {
            Some(slot) => Some(self.price_at(slot)),
            None => None,
        }
    }

    /// The rows that hold `fraction` of a positive total around the point of
    /// control, lowest and highest, and the volume in them.
    fn value_slots(&self, slot: usize, total: Qty, fraction: Ratio) -> (r: (usize, usize, i128))
        requires
            self@.wf(),
            fraction.wf(),
            poc_slot(self@.rows) == Some(slot as int),
            slot < self@.rows.len(),
            total.0 == self@.total_bid + self@.total_ask,
            total.0 > 0,
        ensures
            r.0 == self@.value_band(fraction).lower,
            r.1 == self@.value_band(fraction).upper,
            0 <= r.0 <= r.1 < self@.rows.len(),
            r.2 == band_volume(self@.rows, r.0 as int, r.1 as int),
    {
        let target: i128 = fraction.share(total).0 as i128;
        let n: usize = self.rows.len();
        let mut lower: usize = slot;
        let mut upper: usize = slot;
        let mut volume: i128 = self.wide_total(slot);
        assert(band_volume(self@.rows, slot as int, slot - 1) == 0);
        while volume < target && (upper + 1 < n || lower > 0)
            invariant
                self@.wf(),
                n == self@.rows.len(),
                0 <= lower <= slot <= upper < n,
                volume == band_volume(self@.rows, lower as int, upper as int),
                target == share_of(self@.total_bid + self@.total_ask, fraction),
                poc_slot(self@.rows) == Some(slot as int),
                band_holding(
                    self@.rows,
                    Band { lower: lower as int, upper: upper as int },
                    target as int,
                ) == self@.value_band(fraction),
            decreases n - (upper - lower),
        {
            let ghost rows = self@.rows;
            let above: i128 = self.wide_total_or_zero(upper as i128 + 1)
                + self.wide_total_or_zero(upper as i128 + 2);
            let below: i128 = self.wide_total_or_zero(lower as i128 - 1)
                + self.wide_total_or_zero(lower as i128 - 2);
            proof {
                lemma_band_bound(rows, lower as int, upper as int);
            }
            if upper + 1 < n && (lower == 0 || above >= below) {
                upper += 1;
                volume = volume + self.wide_total(upper);
                if upper + 1 < n {
                    proof {
                        lemma_band_bound(rows, lower as int, upper as int);
                    }
                    upper += 1;
                    volume = volume + self.wide_total(upper);
                }
            } else {
                proof {
                    lemma_band_below(rows, lower as int, upper as int);
                }
                lower -= 1;
                volume = volume + self.wide_total(lower);
                if lower > 0 {
                    proof {
                        lemma_band_bound(rows, lower as int, upper as int);
                        lemma_band_below(rows, lower as int, upper as int);
                    }
                    lower -= 1;
                    volume = volume + self.wide_total(lower);
                }
            }
        }
        (lower, upper, volume)
    }

    /// Whether the volume of the value area is representable.
    pub fn has_value_area(&self, fraction: Ratio) -> (r: bool)
        requires
            self@.wf(),
            fraction.wf(),
        ensures
            r == self@.value_fits(fraction),
    {
        let total = match self.total_bid.checked_add(self.total_ask) {
            Some(total) => total,
            None => {
                return false;
            },
        };
        match self.poc_at() {
            Some(slot) if total.0 > 0 => {
                let (_, _, volume) = self.value_slots(slot, total, fraction);
                i64::MIN as i128 <= volume && volume <= i64::MAX as i128
            },
            _ => true,
        }
    }

    /// Value area containing `fraction` of total volume (0.7 is conventional).
    ///
    /// Grows outward from the POC, at each step taking whichever adjacent pair
    /// of levels holds more volume: the standard Market Profile construction.
    pub fn value_area(&self, fraction: Ratio) -> (r: Option<ValueArea>)
        requires
            self@.wf(),
            self@.prices_fit(),
            fraction.wf(),
            self@.value_fits(fraction),
        ensures
            r == self@.value_area_of(fraction),
    {
        let slot: usize = match self.poc_at() {
            Some(slot) => slot,
            None => {
                return None;
            },
        };
        let total = self.total_volume();
        if total.0 <= 0 {
            return None;
        }
        let (lower, upper, volume) = self.value_slots(slot, total, fraction);
        Some(
            ValueArea {
                high: self.price_at(upper),
                low: self.price_at(lower),
                poc: self.price_at(slot),
                volume: Qty(volume as i64),
            },
        )
    }
}

proof fn lemma_band_holding(rows: Seq<Cluster>, band: Band, target: int)
    requires
        0 <= band.lower <= band.upper < rows.len(),
    ensures
        ({
            let b = band_holding(rows, band, target);
            &&& 0 <= b.lower <= band.lower
            &&& band.upper <= b.upper < rows.len()
            &&& band_volume(rows, b.lower, b.upper) >= target || (b.lower == 0 && b.upper
                == rows.len() - 1)
        }),
    decreases rows.len() - (band.upper - band.lower),
{
    if !(band_volume(rows, band.lower, band.upper) >= target || (band.lower == 0 && band.upper
        == rows.len() - 1)) {
        lemma_band_holding(rows, widened(rows, band), target);
    }
}

/// A value area brackets the point of control, its volume is what traded in its
/// rows, and it holds the asked share of all volume or is the whole ladder.
pub proof fn law_value_area_holds_its_share(v: LadderView, fraction: Ratio)
    requires
        v.wf(),
        v.prices_fit(),
        fraction.wf(),
        v.value_fits(fraction),
        v.value_area_of(fraction) is Some,
    ensures
        ({
            let area = v.value_area_of(fraction)->0;
            let band = v.value_band(fraction);
            &&& area.low.0 <= area.poc.0 <= area.high.0
            &&& area.volume.0 == band_volume(v.rows, band.lower, band.upper)
            &&& area.volume.0 >= share_of(v.total_bid + v.total_ask, fraction) || (band.lower == 0
                && band.upper == v.rows.len() - 1)
        }),
{
    let slot = poc_slot(v.rows)->0;
    assert(is_poc_slot(v.rows, slot));
    let band = v.value_band(fraction);
    lemma_band_holding(
        v.rows,
        Band { lower: slot, upper: slot },
        share_of(v.total_bid + v.total_ask, fraction),
    );
    lemma_row_price_fits(v, slot);
    lemma_row_price_fits(v, band.lower);
    lemma_row_price_fits(v, band.upper);
    let t = v.tick.0 as int;
    assert((v.base + band.lower) * t <= (v.base + slot) * t <= (v.base + band.upper) * t)
        by (nonlinear_arith)
        requires
            band.lower <= slot <= band.upper,
            t > 0,
    ;
}

proof fn lemma_whole_band(rows: Seq<Cluster>, n: int)
    requires
        0 <= n <= rows.len(),
    ensures
        band_volume(rows, 0, n - 1) == sum_part(rows.take(n), Part::Bid) + sum_part(
            rows.take(n),
            Part::Ask,
        ),
    decreases n,
{
    if n > 0 {
        lemma_whole_band(rows, n - 1);
        assert(rows.take(n).drop_last() =~= rows.take(n - 1));
    }
}

/// The totals of a ladder are the sums over its rows: no volume is lost and
/// none is counted twice.
pub proof fn law_totals_are_sums_of_rows(v: LadderView)
    requires
        v.wf(),
    ensures
        v.total_bid + v.total_ask == band_volume(v.rows, 0, v.rows.len() - 1),
        v.total_bid == sum_part(v.rows, Part::Bid),
        v.total_ask == sum_part(v.rows, Part::Ask),
        v.trades == sum_part(v.rows, Part::Trades),
{
    lemma_whole_band(v.rows, v.rows.len() as int);
    assert(v.rows.take(v.rows.len() as int) =~= v.rows);
}

/// Whether positive volume counts as an imbalance against the volume it is
/// compared with. Unopposed volume always does.
pub open spec fn dominates(dominant: int, opposing: int, ratio: Ratio) -> bool {
    dominant > 0 && (opposing == 0 || (opposing > 0 && reaches(dominant, opposing, ratio)))
}

impl LadderView {
    /// The buy imbalance of a row: its ask against the bid one row below.
    pub open spec fn buy_imbalance(self, slot: int, ratio: Ratio, min_volume: Qty) -> Seq<
        Imbalance,
    > {
        let ask = self.rows[slot].ask;
        if slot > 0 && ask.0 >= min_volume.0 && dominates(
            ask.0 as int,
            self.rows[slot - 1].bid.0 as int,
            ratio,
        ) {
            seq![
                Imbalance {
                    price: self.row_price(slot),
                    side: Side::Buy,
                    dominant: ask,
                    opposing: self.rows[slot - 1].bid,
                },
            ]
        } else {
            Seq::<Imbalance>::empty()
        }
    }

    /// The sell imbalance of a row: its bid against the ask one row above.
    pub open spec fn sell_imbalance(self, slot: int, ratio: Ratio, min_volume: Qty) -> Seq<
        Imbalance,
    > {
        let bid = self.rows[slot].bid;
        if slot + 1 < self.rows.len() && bid.0 >= min_volume.0 && dominates(
            bid.0 as int,
            self.rows[slot + 1].ask.0 as int,
            ratio,
        ) {
            seq![
                Imbalance {
                    price: self.row_price(slot),
                    side: Side::Sell,
                    dominant: bid,
                    opposing: self.rows[slot + 1].ask,
                },
            ]
        } else {
            Seq::<Imbalance>::empty()
        }
    }

    /// The imbalances of the lowest `n` rows, from low to high, the buy side of
    /// a row before its sell side.
    pub open spec fn imbalances_below(self, n: int, ratio: Ratio, min_volume: Qty) -> Seq<
        Imbalance,
    >
        decreases n,
    {
        if n <= 0 {
            Seq::<Imbalance>::empty()
        } else {
            self.imbalances_below(n - 1, ratio, min_volume) + self.buy_imbalance(
                n - 1,
                ratio,
                min_volume,
            ) + self.sell_imbalance(n - 1, ratio, min_volume)
        }
    }

    /// Every diagonal imbalance.
    pub open spec fn all_imbalances(self, ratio: Ratio, min_volume: Qty) -> Seq<Imbalance> {
        self.imbalances_below(self.rows.len() as int, ratio, min_volume)
    }
}

/// Whether `next` goes on a run: the same side, one row up.
pub open spec fn goes_on(run: Seq<Imbalance>, next: Imbalance, tick: Price) -> bool {
    run.len() > 0 && run.last().side == next.side && next.price.0 - run.last().price.0 == tick.0
}

/// The runs that are complete after a list of imbalances was walked, and the
/// one that may still go on.
pub open spec fn walked(found: Seq<Imbalance>, tick: Price, min_run: int) -> (
    Seq<Seq<Imbalance>>,
    Seq<Imbalance>,
)
    decreases found.len(),
{
    if found.len() == 0 {
        (Seq::<Seq<Imbalance>>::empty(), Seq::<Imbalance>::empty())
    } else {
        let (runs, run) = walked(found.drop_last(), tick, min_run);
        if goes_on(run, found.last(), tick) {
            (runs, run.push(found.last()))
        } else {
            (kept_runs(runs, run, min_run), seq![found.last()])
        }
    }
}

/// `runs` with `run` behind them, if it is long enough.
pub open spec fn kept_runs(
    runs: Seq<Seq<Imbalance>>,
    run: Seq<Imbalance>,
    min_run: int,
) -> Seq<Seq<Imbalance>> {
    if run.len() >= min_run {
        runs.push(run)
    } else {
        runs
    }
}

/// The runs of at least `min_run` consecutive same-side imbalances.
pub open spec fn stacks_of(found: Seq<Imbalance>, tick: Price, min_run: int) -> Seq<
    Seq<Imbalance>,
> {
    let (runs, run) = walked(found, tick, min_run);
    kept_runs(runs, run, min_run)
}

/// The contents of a list of runs.
pub open spec fn runs_view(runs: Seq<Vec<Imbalance>>) -> Seq<Seq<Imbalance>> {
    Seq::new(runs.len(), |i: int| runs[i]@)
}

/// Whether `dominant` clears `threshold` against `opposing`.
fn imbalance_ratio(dominant: Qty, opposing: Qty, threshold: Ratio) -> (r: bool)
    ensures
        r == dominates(dominant.0 as int, opposing.0 as int, threshold),
{
    if dominant.0 <= 0 {
        return false;
    }
    // Unopposed volume is the strongest imbalance there is.
    opposing.0 == 0 || (opposing.0 > 0 && threshold.reached_by(dominant, opposing))
}

impl ClusterLadder {
    /// Diagonal imbalances at or above `ratio`.
    ///
    /// Footprint imbalance is diagonal, not horizontal: buyers lifting the
    /// offer at a price are compared against sellers hitting the bid one tick
    /// *below*, because those are the two sides of the same auction. Comparing
    /// bid and ask on the same row measures something that never actually
    /// traded against each other.
    ///
    /// `min_volume` filters out imbalances built from noise-sized prints.
    pub fn imbalances(&self, ratio: Ratio, min_volume: Qty) -> (r: Vec<Imbalance>)
        requires
            self@.wf(),
            self@.prices_fit(),
            ratio.wf(),
            ratio.num > 0,
        ensures
            r@ == self@.all_imbalances(ratio, min_volume),
    {
        let n: usize = self.rows.len();
        let mut out: Vec<Imbalance> = Vec::new();
        let mut slot: usize = 0;
        while slot < n
            invariant
                self@.wf(),
                self@.prices_fit(),
                n == self@.rows.len(),
                self@.rows == self.rows@,
                slot <= n,
                out@ == self@.imbalances_below(slot as int, ratio, min_volume),
            decreases n - slot,
        {
            let ghost before = out@;
            // Buy imbalance: ask at this level vs bid one tick below.
            let ask = self.rows[slot].ask;
            if ask.0 >= min_volume.0 && slot > 0 {
                let opposing = self.rows[slot - 1].bid;
                if imbalance_ratio(ask, opposing, ratio) {
                    out.push(
                        Imbalance {
                            price: self.price_at(slot),
                            side: Side::Buy,
                            dominant: ask,
                            opposing,
                        },
                    );
                }
            }
            assert(out@ =~= before + self@.buy_imbalance(slot as int, ratio, min_volume));
            let ghost between = out@;
            // Sell imbalance: bid at this level vs ask one tick above.
            let bid = self.rows[slot].bid;
            if bid.0 >= min_volume.0 && slot + 1 < n {
                let opposing = self.rows[slot + 1].ask;
                if imbalance_ratio(bid, opposing, ratio) {
                    out.push(
                        Imbalance {
                            price: self.price_at(slot),
                            side: Side::Sell,
                            dominant: bid,
                            opposing,
                        },
                    );
                }
            }
            assert(out@ =~= between + self@.sell_imbalance(slot as int, ratio, min_volume));
            slot += 1;
        }
        out
    }

    /// Runs of at least `min_run` consecutive same-side imbalances.
    ///
    /// A stacked imbalance is the tradable signal: one imbalanced level is
    /// noise, four in a row is a side that kept paying up and got filled.
    /// Each returned run is ordered low price to high.
    pub fn stacked_imbalances(&self, ratio: Ratio, min_volume: Qty, min_run: usize) -> (r: Vec<
        Vec<Imbalance>,
    >)
        requires
            self@.wf(),
            self@.prices_fit(),
            ratio.wf(),
            ratio.num > 0,
            min_run > 0,
        ensures
            runs_view(r@) == stacks_of(
                self@.all_imbalances(ratio, min_volume),
                self@.tick,
                min_run as int,
            ),
    {
        let found = self.imbalances(ratio, min_volume);
        stack_runs(&found, self.tick_size, min_run)
    }
}

/// Split imbalances, ordered low to high, into runs of at least `min_run`.
pub fn stack_runs(found: &Vec<Imbalance>, tick_size: Price, min_run: usize) -> (r: Vec<
    Vec<Imbalance>,
>)
    requires
        min_run > 0,
    ensures
        runs_view(r@) == stacks_of(found@, tick_size, min_run as int),
{
    let mut runs: Vec<Vec<Imbalance>> = Vec::new();
    let mut current: Vec<Imbalance> = Vec::new();
    let mut i: usize = 0;
    assert(found@.take(0) =~= Seq::<Imbalance>::empty());
    assert(runs_view(runs@) =~= Seq::<Seq<Imbalance>>::empty());
    while i < found.len()
        invariant
            i <= found@.len(),
            runs_view(runs@) == walked(found@.take(i as int), tick_size, min_run as int).0,
            current@ == walked(found@.take(i as int), tick_size, min_run as int).1,
        decreases found@.len() - i,
    {
        assert(found@.take(i + 1).drop_last() =~= found@.take(i as int));
        let imb = found[i];
        let continues = if current.len() == 0 {
            false
        } else {
            let prev = current[current.len() - 1];
            prev.side == imb.side && imb.price.0 as i128 - prev.price.0 as i128
                == tick_size.0 as i128
        };
        if continues {
            current.push(imb);
        } else {
            let ghost before = runs@;
            let run = current;
            current = Vec::new();
            current.push(imb);
            assert(current@ =~= seq![imb]);
            if run.len() >= min_run {
                runs.push(run);
                assert(runs_view(runs@) =~= runs_view(before).push(run@));
            }
        }
        i += 1;
    }
    assert(found@.take(i as int) =~= found@);
    if current.len() >= min_run {
        let ghost before = runs@;
        let ghost last = current@;
        runs.push(current);
        assert(runs_view(runs@) =~= runs_view(before).push(last));
    }
    runs
}

/// Whether a run is of one side and goes up one row at a time.
pub open spec fn is_stack(run: Seq<Imbalance>, tick: Price) -> bool {
    forall|i: int|
        0 < i < run.len() ==> (#[trigger] run[i]).side == run[i - 1].side && run[i].price.0 - run[i
            - 1].price.0 == tick.0
}

proof fn lemma_walked(found: Seq<Imbalance>, tick: Price, min_run: int)
    ensures
        is_stack(walked(found, tick, min_run).1, tick),
        forall|k: int|
            0 <= k < walked(found, tick, min_run).0.len() ==> is_stack(
                #[trigger] walked(found, tick, min_run).0[k],
                tick,
            ) && walked(found, tick, min_run).0[k].len() >= min_run,
    decreases found.len(),
{
    if found.len() > 0 {
        lemma_walked(found.drop_last(), tick, min_run);
    }
}

/// Every stacked run is at least as long as asked, of one side, and goes up one
/// row at a time.
pub proof fn law_stacks_are_contiguous(found: Seq<Imbalance>, tick: Price, min_run: int, k: int)
    requires
        0 <= k < stacks_of(found, tick, min_run).len(),
    ensures
        is_stack(stacks_of(found, tick, min_run)[k], tick),
        stacks_of(found, tick, min_run)[k].len() >= min_run,
{
    lemma_walked(found, tick, min_run);
}

proof fn lemma_imbalances_dominate(v: LadderView, n: int, ratio: Ratio, min_volume: Qty)
    requires
        v.wf(),
        0 <= n <= v.rows.len(),
    ensures
        forall|k: int|
            0 <= k < v.imbalances_below(n, ratio, min_volume).len() ==> ({
                let imb = #[trigger] v.imbalances_below(n, ratio, min_volume)[k];
                &&& imb.dominant.0 >= min_volume.0
                &&& dominates(imb.dominant.0 as int, imb.opposing.0 as int, ratio)
            }),
    decreases n,
{
    if n > 0 {
        lemma_imbalances_dominate(v, n - 1, ratio, min_volume);
    }
}

/// Every reported imbalance has the asked volume and clears the ratio against
/// the diagonal cell, or is unopposed.
pub proof fn law_imbalances_clear_the_ratio(v: LadderView, ratio: Ratio, min_volume: Qty, k: int)
    requires
        v.wf(),
        0 <= k < v.all_imbalances(ratio, min_volume).len(),
    ensures
        v.all_imbalances(ratio, min_volume)[k].dominant.0 >= min_volume.0,
        v.all_imbalances(ratio, min_volume)[k].dominant.0 > 0,
        v.all_imbalances(ratio, min_volume)[k].opposing.0 != 0 ==> reaches(
            v.all_imbalances(ratio, min_volume)[k].dominant.0 as int,
            v.all_imbalances(ratio, min_volume)[k].opposing.0 as int,
            ratio,
        ),
{
    lemma_imbalances_dominate(v, v.rows.len() as int, ratio, min_volume);
}

} // verus!
