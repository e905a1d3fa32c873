//! The paper matching engine.
//!
//! # Fill realism
//!
//! A paper engine is only useful if it is pessimistic in the places a real one
//! would be. Two choices matter more than everything else here:
//!
//! **Market orders walk the book.** Taking the whole size at the touch price
//! ignores the cost of clearing depth, which is most of the cost of trading
//! size. This engine consumes level by level and reports the volume-weighted
//! result, so a size too large for the book shows up as the slippage it is.
//!
//! **Resting limit orders need the market to trade *through* them.** A limit
//! buy at 100 does not fill because a trade printed at 100: the trader was
//! behind everyone already queued at that price. Without a real queue model,
//! the honest assumption is the conservative one: fill only once a trade
//! prints strictly better than the limit. That understates fills slightly,
//! which is the correct direction to be wrong in.

use crate::primitives::book::{BookLevel, OrderBook};
use crate::primitives::fixed::{Price, Qty};
use crate::primitives::instrument::Instrument;
use crate::primitives::market::{Side, Trade};
use crate::primitives::ratio::Ratio;
use crate::primitives::time::Ts;
use crate::trading::order::{
    Fill, Order, OrderId, OrderRequest, OrderStatus, OrderType, RejectReason, TimeInForce,
};
use crate::trading::position::Position;
use std::collections::HashMap;
use vstd::prelude::*;

verus! {

use crate::primitives::book::BookView;
use crate::primitives::fixed::magnitude_of;
use crate::trading::desk::{
    all_positive, cancel_count, cancel_each, cancelled, commission_of, crossing, facing, fill_all,
    fill_one, goes_through, is_live, lemma_cancelled, lemma_crossing, lemma_facing,
    lemma_fill_all_keeps, lemma_fill_all_ok, lemma_limit_trades, lemma_plan, lemma_planned_natural,
    lemma_pruned_wf, lemma_react, lemma_react_all, lemma_stop_plan, lemma_submission_wf,
    limit_plan, limit_trades, live_ids, market_plan, order_for, order_ok, placed, planned, pruned,
    put_back, react, react_all, recorded, request_refusal, settled, siblings, stop_fires,
    stop_limit_wakes, submission, taken_from, traded, without_siblings, EngineView, Filling,
    Reaction,
};
use crate::trading::position::flat_position;

broadcast use vstd::std_specs::hash::group_hash_axioms;

/// Engine configuration.
#[derive(Debug, Clone, Copy, PartialEq, Eq, Structural)]
pub struct TradingConfig {
    /// Commission per unit of notional, as a fraction (4/10000 is 4 bps).
    pub commission_rate: Ratio,
    /// Largest absolute position allowed. `None` for unlimited.
    pub max_position: Option<Qty>,
    /// Largest number of simultaneously working orders.
    pub max_working_orders: usize,
    /// Whether market orders may walk past the top of book.
    ///
    /// Turning this off rejects any market order the touch cannot fill, which
    /// models a venue that refuses to sweep.
    pub allow_book_walk: bool,
}

impl Default for TradingConfig {
    fn default() -> (r: Self)
        ensures
            r == (TradingConfig {
                commission_rate: Ratio { num: 4, den: 10_000 },
                max_position: None,
                max_working_orders: 256,
                allow_book_walk: true,
            }),
    {
        TradingConfig {
            commission_rate: Ratio { num: 4, den: 10_000 },
            max_position: None,
            max_working_orders: 256,
            allow_book_walk: true,
        }
    }
}

/// What happened when an order was submitted.
#[derive(Debug, Clone, PartialEq)]
pub struct SubmitOutcome {
    /// The order as the engine recorded it.
    pub order: Order,
    /// Fills produced immediately.
    pub fills: Vec<Fill>,
}

/// Simulated matching against live market data.
#[derive(Debug)]
pub struct PaperEngine {
    instrument: Instrument,
    config: TradingConfig,
    orders: HashMap<u64, Order>,
    working: Vec<OrderId>,
    position: Position,
    fills: Vec<Fill>,
    next_id: u64,
    last_price: Option<Price>,
    now: Ts,
}

impl View for PaperEngine {
    type V = EngineView;

    closed spec fn view(&self) -> EngineView {
        EngineView {
            instrument: self.instrument,
            config: self.config,
            orders: self.orders@,
            working: self.working@,
            position: self.position,
            fills: self.fills@,
            next_id: self.next_id,
            last_price: self.last_price,
            now: self.now,
        }
    }
}

/// An engine that saw nothing yet.
pub open spec fn fresh_engine(instrument: Instrument, config: TradingConfig) -> EngineView {
    EngineView {
        instrument,
        config,
        orders: Map::<u64, Order>::empty(),
        working: Seq::<OrderId>::empty(),
        position: flat_position(instrument.kind),
        fills: Seq::<Fill>::empty(),
        next_id: 1,
        last_price: None,
        now: Ts(0),
    }
}

fn levels_for(side: Side, book: &OrderBook) -> (r: Vec<BookLevel>)
    ensures
        r@ == facing(book@, side),
{
    let (bids, asks) = book.level_count();
    match side {
        Side::Buy => book.asks(asks),
        Side::Sell => book.bids(bids),
    }
}

/// Take `want` from the first `count` levels.
fn take_from(levels: &Vec<BookLevel>, count: usize, want: i64) -> (r: Vec<(Price, Qty)>)
    requires
        count <= levels@.len(),
        forall|i: int| 0 <= i < levels@.len() ==> (#[trigger] levels@[i]).qty.0 > 0,
    ensures
        r@ == taken_from(levels@.take(count as int), want as int),
{
    let mut plan: Vec<(Price, Qty)> = Vec::new();
    let mut remaining: i64 = want;
    let mut i: usize = 0;
    let ghost all = taken_from(levels@.take(count as int), want as int);
    assert(levels@.subrange(0, count as int) =~= levels@.take(count as int));
    assert(all =~= plan@ + taken_from(levels@.subrange(0, count as int), want as int));
    while i < count && remaining > 0
        invariant
            i <= count <= levels@.len(),
            forall|j: int| 0 <= j < levels@.len() ==> (#[trigger] levels@[j]).qty.0 > 0,
            all == plan@ + taken_from(
                levels@.subrange(i as int, count as int),
                remaining as int,
            ),
        decreases count - i,
    {
        let level = levels[i];
        let take: i64 = if level.qty.0 < remaining {
            level.qty.0
        } else {
            remaining
        };
        let ghost before = plan@;
        let ghost here = levels@.subrange(i as int, count as int);
        assert(here.drop_first() =~= levels@.subrange(i + 1, count as int));
        plan.push((level.price, Qty(take)));
        remaining = remaining - take;
        i += 1;
        assert(all =~= plan@ + taken_from(
            levels@.subrange(i as int, count as int),
            remaining as int,
        ));
    }
    assert(all =~= plan@);
    plan
}

/// How many levels in front a limit reaches.
fn crossing_count(levels: &Vec<BookLevel>, side: Side, limit: Price) -> (r: usize)
    ensures
        r == crossing(levels@, side, limit).len(),
        r <= levels@.len(),
{
    let mut i: usize = 0;
    assert(levels@.skip(0) =~= levels@);
    while i < levels.len()
        invariant
            i <= levels@.len(),
            crossing(levels@, side, limit).len() == i + crossing(
                levels@.skip(i as int),
                side,
                limit,
            ).len(),
        decreases levels@.len() - i,
    {
        let level = levels[i];
        let reached = match side {
            Side::Buy => level.price.0 <= limit.0,
            Side::Sell => level.price.0 >= limit.0,
        };
        let ghost here = levels@.skip(i as int);
        assert(here.drop_first() =~= levels@.skip(i + 1));
        if !reached {
            return i;
        }
        i += 1;
    }
    i
}

/// Fill-or-kill needs to know how much a plan would fill.
fn plan_total(plan: &Vec<(Price, Qty)>) -> (r: i128)
    ensures
        r == planned(plan@),
{
    let mut sum: i128 = 0;
    let mut i: usize = 0;
    assert(plan@.skip(0) =~= plan@);
    while i < plan.len()
        invariant
            i <= plan@.len(),
            planned(plan@) == sum + planned(plan@.skip(i as int)),
            -0x8000_0000_0000_0000 * i <= sum <= 0x8000_0000_0000_0000 * i,
        decreases plan@.len() - i,
    {
        assert(plan@.skip(i as int).drop_first() =~= plan@.skip(i + 1));
        sum = sum + plan[i].1.0 as i128;
        i += 1;
    }
    sum
}

impl PaperEngine {
    /// An engine for one instrument.
    pub fn new(instrument: Instrument, config: TradingConfig) -> (r: Self)
        requires
            config.commission_rate.wf(),
        ensures
            r@ == fresh_engine(instrument, config),
            r@.wf(),
    {
        let position = Position::new(&instrument);
        let engine = PaperEngine {
            instrument,
            config,
            orders: HashMap::new(),
            working: Vec::new(),
            position,
            fills: Vec::new(),
            next_id: 1,
            last_price: None,
            now: Ts(0),
        };
        assert(engine@ =~= fresh_engine(instrument, config));
        engine
    }

    /// The instrument being traded.
    pub fn instrument(&self) -> (r: &Instrument)
        ensures
            *r == self@.instrument,
    {
        &self.instrument
    }

    /// The current position.
    pub fn position(&self) -> (r: &Position)
        ensures
            *r == self@.position,
    {
        &self.position
    }

    /// Every fill so far.
    pub fn fills(&self) -> (r: &[Fill])
        ensures
            r@ == self@.fills,
    {
        self.fills.as_slice()
    }

    /// An order by id.
    pub fn order(&self, id: OrderId) -> (r: Option<&Order>)
        ensures
            match r {
                Some(order) => self@.orders.contains_pair(id.0, *order),
                None => !self@.orders.contains_key(id.0),
            },
    {
        self.orders.get(&id.0)
    }

    /// Orders that can still trade.
    pub fn working_orders(&self) -> (r: Vec<Order>)
        requires
            self@.wf(),
        ensures
            r@ == Seq::new(
                self@.working.len(),
                |i: int| self@.orders[self@.working[i].0],
            ),
    {
        let ghost all = Seq::new(self@.working.len(), |i: int| self@.orders[self@.working[i].0]);
        let mut out: Vec<Order> = Vec::new();
        let mut i: usize = 0;
        while i < self.working.len()
            invariant
                self@.wf(),
                i <= self.working@.len(),
                all == Seq::new(
                    self@.working.len(),
                    |i: int| self@.orders[self@.working[i].0],
                ),
                out@ == all.take(i as int),
            decreases self.working@.len() - i,
        {
            assert(is_live(self@.orders, self@.working[i as int]));
            if let Some(order) = self.orders.get(&self.working[i].0) {
                out.push(order.clone());
            }
            i += 1;
            assert(out@ =~= all.take(i as int));
        }
        assert(out@ =~= all);
        out
    }

    /// Last traded price seen.
    pub fn last_price(&self) -> (r: Option<Price>)
        ensures
            r == self@.last_price,
    {
        self.last_price
    }

    /// Unrealised PnL at the last traded price.
    pub fn unrealised(&self) -> (r: Qty)
        requires
            self@.position.qty.0 != i64::MIN,
        ensures
            r.0 == match self@.last_price {
                Some(p) => self@.position.open_pnl(p),
                None => 0,
            },
    {
        match self.last_price {
            Some(p) => self.position.unrealised(p),
            None => Qty(0),
        }
    }

    /// Realised plus unrealised PnL, net of commission.
    pub fn total_pnl(&self) -> (r: Qty)
        requires
            self@.pnl_fits(),
        ensures
            r.0 == self@.net_pnl(),
    {
        match self.last_price {
            Some(p) => self.position.total_pnl(p),
            None => Qty(self.position.realised.0 - self.position.commission.0),
        }
    }

    /// Whether [`PaperEngine::total_pnl`] is representable.
    pub fn has_total_pnl(&self) -> (r: bool)
        ensures
            r == self@.pnl_fits(),
    {
        let open: i128 = match self.last_price {
            Some(p) => {
                if self.position.qty.0 == i64::MIN {
                    return false;
                }
                self.position.unrealised(p).0 as i128
            },
            None => 0,
        };
        let gross: i128 = self.position.realised.0 as i128 + open;
        let net: i128 = gross - self.position.commission.0 as i128;
        i64::MIN as i128 <= gross && gross <= i64::MAX as i128 && i64::MIN as i128 <= net && net
            <= i64::MAX as i128
    }

    fn commission_on(&self, price: Price, qty: Qty) -> (r: Qty)
        requires
            self@.config.commission_rate.wf(),
        ensures
            r == commission_of(self@.config, price, qty),
    {
        self.config.commission_rate.of(price.notional(qty))
    }

    fn validate(&self, request: &OrderRequest) -> (r: Result<(), RejectReason>)
        ensures
            match r {
                Ok(_) => request_refusal(self@, *request) is None,
                Err(e) => request_refusal(self@, *request) == Some(e),
            },
    {
        if request.qty.0 <= 0 {
            return Err(RejectReason::NonPositiveQty);
        }
        if let Some(price) = request.kind.limit_price() {
            if price.0 <= 0 {
                return Err(RejectReason::NonPositivePrice);
            }
        }
        if let Some(price) = request.kind.trigger_price() {
            if price.0 <= 0 {
                return Err(RejectReason::NonPositivePrice);
            }
        }
        if self.working.len() >= self.config.max_working_orders {
            return Err(RejectReason::TooManyOrders { limit: self.config.max_working_orders });
        }
        if let Some(limit) = self.config.max_position {
            // Only additions to the position can breach the limit; an order
            // that reduces exposure must always be allowed through, or a
            // trader cannot get out of a position that is already too large.
            let held: i128 = self.position.qty.0 as i128;
            let projected: i128 = match request.side {
                Side::Buy => held + request.qty.0 as i128,
                Side::Sell => held - request.qty.0 as i128,
            };
            let size: i128 = if projected < 0 {
                -projected
            } else {
                projected
            };
            let now: i128 = if held < 0 {
                -held
            } else {
                held
            };
            if size > limit.0 as i128 && size > now {
                return Err(RejectReason::PositionLimit { limit });
            }
        }
        Ok(())
    }

    /// Walk the book to price a market order, without mutating anything.
    fn plan_market_fill(&self, side: Side, qty: Qty, book: &OrderBook) -> (r: Result<
        Vec<(Price, Qty)>,
        RejectReason,
    >)
        requires
            book@.wf(),
        ensures
            match r {
                Ok(plan) => market_plan(self@.config, side, qty.0 as int, book@) == Ok::<
                    Seq<(Price, Qty)>,
                    RejectReason,
                >(plan@),
                Err(e) => market_plan(self@.config, side, qty.0 as int, book@) == Err::<
                    Seq<(Price, Qty)>,
                    RejectReason,
                >(e),
            },
    {
        let levels = levels_for(side, book);
        proof {
            lemma_facing(book@, side);
        }
        if levels.len() == 0 {
            return Err(RejectReason::NoMarket);
        }
        if self.config.allow_book_walk {
            let plan = take_from(&levels, levels.len(), qty.0);
            assert(levels@.take(levels@.len() as int) =~= levels@);
            Ok(plan)
        } else if levels[0].qty.0 < qty.0 {
            Err(RejectReason::NoMarket)
        } else {
            Ok(take_from(&levels, 1, qty.0))
        }
    }

    /// Immediate fill for a limit order that crosses the spread.
    fn marketable_limit_fill(
        &self,
        side: Side,
        qty: Qty,
        limit: Price,
        book: &OrderBook,
    ) -> (r: Vec<(Price, Qty)>)
        requires
            book@.wf(),
        ensures
            r@ == limit_plan(side, qty.0 as int, limit, book@),
    {
        let levels = levels_for(side, book);
        proof {
            lemma_facing(book@, side);
            lemma_crossing(levels@, side, limit);
        }
        let count: usize = crossing_count(&levels, side, limit);
        take_from(&levels, count, qty.0)
    }

    /// Settle an order that had its chance to fill immediately.
    fn finalise_immediate(order: &mut Order, now: Ts)
        ensures
            *final(order) == settled(*old(order), now),
    {
        if order.is_complete() {
            order.status = OrderStatus::Filled;
            order.closed = Some(now);
            return;
        }
        match order.tif {
            // Fill-or-kill never gets here holding a partial fill: the plan is
            // checked against the full quantity before any of it is applied.
            TimeInForce::Fok | TimeInForce::Ioc => {
                // Whatever filled, filled; the remainder does not rest.
                order.status = OrderStatus::Cancelled;
                order.closed = Some(now);
            },
            TimeInForce::Gtc => {
                if matches!(order.kind, OrderType::Market) {
                    // A market order that could not be fully filled has no
                    // book left to rest against. It is not complete, so it
                    // does not count as filled.
                    order.status = OrderStatus::Cancelled;
                    order.closed = Some(now);
                } else if order.filled.0 > 0 {
                    order.status = OrderStatus::PartiallyFilled;
                }
            },
        }
    }

    /// Apply a fill to an order and to the position. `false` where the position
    /// would leave 64 bits; what the engine holds then means nothing.
    fn record_fill(
        &mut self,
        order: &mut Order,
        fills: &mut Vec<Fill>,
        price: Price,
        qty: Qty,
        now: Ts,
    ) -> (r: bool)
        requires
            old(self)@.config.commission_rate.wf(),
            0 <= old(order).filled.0,
            qty.0 > 0,
            old(order).filled.0 + qty.0 <= i64::MAX,
        ensures
            ({
                let f = fill_one(
                    Filling {
                        desk: old(self)@,
                        order: *old(order),
                        made: old(fills)@,
                        ok: true,
                    },
                    price,
                    qty,
                    now,
                );
                &&& r == f.ok
                &&& r ==> final(self)@ == f.desk && *final(order) == f.order && final(fills)@
                    == f.made
            }),
    {
        let ghost before = Filling { desk: self@, order: *order, made: fills@, ok: true };
        let commission = self.commission_on(price, qty);
        if !self.position.accepts_fill(order.side, price, qty, commission) {
            return false;
        }
        let average = match order.avg_fill_price {
            None => price,
            Some(previous) => crate::trading::position::weighted_average(
                previous,
                order.filled,
                price,
                qty,
            ),
        };
        order.avg_fill_price = Some(average);
        order.filled = Qty(order.filled.0 + qty.0);
        self.position.apply_fill(order.side, price, qty, commission);
        self.last_price = Some(price);
        let fill = Fill { order_id: order.id, ts: now, price, qty, side: order.side, commission };
        self.fills.push(fill);
        fills.push(fill);
        assert(self@ =~= fill_one(before, price, qty, now).desk);
        true
    }

    /// Apply every fill of a plan.
    fn apply_plan(
        &mut self,
        order: &mut Order,
        fills: &mut Vec<Fill>,
        plan: &Vec<(Price, Qty)>,
        now: Ts,
    ) -> (r: bool)
        requires
            old(self)@.config.commission_rate.wf(),
            0 <= old(order).filled.0,
            all_positive(plan@),
            old(order).filled.0 + planned(plan@) <= old(order).qty.0,
        ensures
            ({
                let f = fill_all(
                    Filling {
                        desk: old(self)@,
                        order: *old(order),
                        made: old(fills)@,
                        ok: true,
                    },
                    plan@,
                    now,
                );
                &&& r == f.ok
                &&& r ==> final(self)@ == f.desk && *final(order) == f.order && final(fills)@
                    == f.made
            }),
    {
        let ghost all = fill_all(
            Filling { desk: self@, order: *order, made: fills@, ok: true },
            plan@,
            now,
        );
        let mut i: usize = 0;
        assert(plan@.skip(0) =~= plan@);
        while i < plan.len()
            invariant
                i <= plan@.len(),
                self@.config.commission_rate.wf(),
                0 <= order.filled.0,
                all_positive(plan@),
                order.filled.0 + planned(plan@.skip(i as int)) <= order.qty.0,
                fill_all(
                    Filling { desk: self@, order: *order, made: fills@, ok: true },
                    plan@.skip(i as int),
                    now,
                ) == all,
                all == fill_all(
                    Filling {
                        desk: old(self)@,
                        order: *old(order),
                        made: old(fills)@,
                        ok: true,
                    },
                    plan@,
                    now,
                ),
            decreases plan@.len() - i,
        {
            let ghost rest = plan@.skip(i + 1);
            let (price, qty) = plan[i];
            proof {
                assert(plan@.skip(i as int).drop_first() =~= rest);
                assert(plan@.skip(i as int)[0] == plan@[i as int]);
                assert(all_positive(rest)) by {
                    assert forall|k: int| 0 <= k < rest.len() implies (
                    #[trigger] rest[k]).1.0 > 0 by {
                        assert(rest[k] == plan@[i + 1 + k]);
                    }
                }
                lemma_planned_natural(rest);
                lemma_fill_all_ok(
                    fill_one(
                        Filling { desk: self@, order: *order, made: fills@, ok: true },
                        price,
                        qty,
                        now,
                    ),
                    rest,
                    now,
                );
            }
            if !self.record_fill(order, fills, price, qty, now) {
                return false;
            }
            i += 1;
        }
        true
    }
}

impl PaperEngine {
    fn prune_working(&mut self)
        ensures
            final(self)@ == pruned(old(self)@),
    {
        let ghost before = self@;
        let mut kept: Vec<OrderId> = Vec::new();
        let mut i: usize = 0;
        assert(before.working.take(0) =~= Seq::<OrderId>::empty());
        while i < self.working.len()
            invariant
                self@ == before,
                i <= self.working@.len(),
                self.working@ == before.working,
                kept@ == live_ids(before.working.take(i as int), before.orders),
            decreases self.working@.len() - i,
        {
            assert(before.working.take(i + 1).drop_last() =~= before.working.take(i as int));
            let id = self.working[i];
            if self.is_live(id) {
                kept.push(id);
            }
            i += 1;
        }
        assert(before.working.take(i as int) =~= before.working);
        self.working = kept;
        assert(self@ =~= pruned(before));
    }

    fn is_live(&self, id: OrderId) -> (r: bool)
        ensures
            r == is_live(self@.orders, id),
    {
        match self.orders.get(&id.0) {
            Some(order) => order.status.is_live(),
            None => false,
        }
    }

    /// Cancel a working order.
    pub fn cancel(&mut self, id: OrderId, now: Ts) -> (r: bool)
        requires
            old(self)@.sound(),
        ensures
            r == is_live(old(self)@.orders, id),
            final(self)@ == cancelled(old(self)@, id, now),
            final(self)@.sound(),
            old(self)@.wf() ==> final(self)@.wf(),
    {
        proof {
            lemma_cancelled(self@, id, now);
        }
        let ghost before = self@;
        let mut order = match self.orders.get(&id.0) {
            Some(order) => order.clone(),
            None => {
                return false;
            },
        };
        if order.status.is_done() {
            return false;
        }
        order.status = OrderStatus::Cancelled;
        order.closed = Some(now);
        self.orders.insert(id.0, order);
        assert(self@ =~= EngineView {
            orders: before.orders.insert(
                id.0,
                Order {
                    status: OrderStatus::Cancelled,
                    closed: Some(now),
                    ..before.orders[id.0]
                },
            ),
            ..before
        });
        self.prune_working();
        true
    }

    fn cancel_list(&mut self, ids: &Vec<OrderId>, now: Ts) -> (r: usize)
        requires
            old(self)@.sound(),
        ensures
            r == cancel_count(old(self)@, ids@, now),
            final(self)@ == cancel_each(old(self)@, ids@, now),
            final(self)@.sound(),
            old(self)@.wf() ==> final(self)@.wf(),
    {
        let ghost before = self@;
        let mut count: usize = 0;
        let mut i: usize = 0;
        assert(ids@.skip(0) =~= ids@);
        while i < ids.len()
            invariant
                i <= ids@.len(),
                count <= i,
                self@.sound(),
                before.wf() ==> self@.wf(),
                cancel_each(self@, ids@.skip(i as int), now) == cancel_each(before, ids@, now),
                count + cancel_count(self@, ids@.skip(i as int), now) == cancel_count(
                    before,
                    ids@,
                    now,
                ),
            decreases ids@.len() - i,
        {
            assert(ids@.skip(i as int).drop_first() =~= ids@.skip(i + 1));
            if self.cancel(ids[i], now) {
                count += 1;
            }
            i += 1;
        }
        count
    }

    /// Cancel every working order, returning how many were cancelled.
    pub fn cancel_all(&mut self, now: Ts) -> (r: usize)
        requires
            old(self)@.wf(),
        ensures
            r == cancel_count(old(self)@, old(self)@.working, now),
            final(self)@ == cancel_each(old(self)@, old(self)@.working, now),
            final(self)@.wf(),
    {
        let ids = copy_ids(&self.working);
        self.cancel_list(&ids, now)
    }

    /// Cancel the other members of an OCO group.
    fn cancel_oco_siblings(&mut self, filled: OrderId, group: Option<u64>, now: Ts)
        requires
            old(self)@.sound(),
        ensures
            final(self)@ == without_siblings(old(self)@, filled, group, now),
            final(self)@.sound(),
            old(self)@.wf() ==> final(self)@.wf(),
    {
        if let Some(g) = group {
            let mut ids: Vec<OrderId> = Vec::new();
            let mut i: usize = 0;
            assert(self@.working.take(0) =~= Seq::<OrderId>::empty());
            while i < self.working.len()
                invariant
                    self@ == old(self)@,
                    i <= self.working@.len(),
                    self.working@ == self@.working,
                    self.orders@ == self@.orders,
                    ids@ == siblings(self@.working.take(i as int), self@.orders, g, filled),
                decreases self.working@.len() - i,
            {
                assert(self@.working.take(i + 1).drop_last() =~= self@.working.take(i as int));
                let id = self.working[i];
                if id.0 != filled.0 {
                    if let Some(order) = self.orders.get(&id.0) {
                        if order.status.is_live() && order.oco_group == Some(g) {
                            ids.push(id);
                        }
                    }
                }
                i += 1;
            }
            assert(self@.working.take(i as int) =~= self@.working);
            self.cancel_list(&ids, now);
        }
    }
}

fn copy_ids(ids: &Vec<OrderId>) -> (r: Vec<OrderId>)
    ensures
        r@ == ids@,
{
    let mut out: Vec<OrderId> = Vec::new();
    let mut i: usize = 0;
    while i < ids.len()
        invariant
            i <= ids@.len(),
            out@ == ids@.take(i as int),
        decreases ids@.len() - i,
    {
        out.push(ids[i]);
        i += 1;
        assert(out@ =~= ids@.take(i as int));
    }
    assert(out@ =~= ids@);
    out
}

/// Whether a submission ended as the model says.
pub open spec fn matches_submission(
    r: Result<SubmitOutcome, RejectReason>,
    expected: Result<(Order, Seq<Fill>), RejectReason>,
) -> bool {
    match r {
        Ok(outcome) => expected == Ok::<(Order, Seq<Fill>), RejectReason>(
            (outcome.order, outcome.fills@),
        ),
        Err(reason) => expected == Err::<(Order, Seq<Fill>), RejectReason>(reason),
    }
}

/// What flattening leads to.
pub struct Flattening {
    pub desk: EngineView,
    pub fills: Result<Seq<Fill>, RejectReason>,
    pub ok: bool,
}

/// Flattening cancels every working order, and closes an open position at
/// market.
pub open spec fn flattened(before: EngineView, book: BookView, now: Ts) -> Flattening {
    let desk = cancel_each(before, before.working, now);
    if desk.position.qty.0 == 0 {
        Flattening { desk, fills: Ok(Seq::<Fill>::empty()), ok: true }
    } else {
        let s = submission(desk, exit_request(desk.position), book, now);
        Flattening {
            desk: s.desk,
            fills: match s.result {
                Ok((_, fills)) => Ok(fills),
                Err(reason) => Err(reason),
            },
            ok: s.ok && desk.position.qty.0 != i64::MIN,
        }
    }
}

/// The market order that closes a position.
pub open spec fn exit_request(position: Position) -> OrderRequest {
    OrderRequest {
        side: match position.held() {
            Some(side) => side.other(),
            None => Side::Buy,
        },
        kind: OrderType::Market,
        qty: Qty(magnitude_of(position.qty.0 as int) as i64),
        tif: TimeInForce::Gtc,
        oco_group: None,
    }
}

impl PaperEngine {
    /// Submit an order, matching it against `book` where possible.
    pub fn submit(&mut self, request: OrderRequest, book: &OrderBook, now: Ts) -> (r: Result<
        SubmitOutcome,
        RejectReason,
    >)
        requires
            old(self)@.wf(),
            book@.wf(),
            submission(old(self)@, request, book@, now).ok,
        ensures
            final(self)@ == submission(old(self)@, request, book@, now).desk,
            final(self)@.wf(),
            matches_submission(r, submission(old(self)@, request, book@, now).result),
    {
        match self.try_submit(request, book, now) {
            Some(result) => result,
            None => Err(RejectReason::NoMarket),
        }
    }

    /// Submit an order. `None` where the numbers would leave 64 bits; the engine
    /// must not be used after that.
    pub fn try_submit(&mut self, request: OrderRequest, book: &OrderBook, now: Ts) -> (r: Option<
        Result<SubmitOutcome, RejectReason>,
    >)
        requires
            old(self)@.wf(),
            book@.wf(),
        ensures
            ({
                let s = submission(old(self)@, request, book@, now);
                match r {
                    Some(result) => s.ok && final(self)@ == s.desk && final(self)@.wf()
                        && matches_submission(result, s.result),
                    None => !s.ok,
                }
            }),
    {
        let ghost before = self@;
        let ghost expected = submission(self@, request, book@, now);
        proof {
            if expected.ok {
                lemma_submission_wf(self@, request, book@, now);
            }
        }
        self.now = now;
        let ghost desk = self@;
        assert(desk =~= EngineView { now, ..before });
        if let Err(reason) = self.validate(&request) {
            return Some(Err(reason));
        }
        if self.next_id == u64::MAX {
            return None;
        }
        let id = OrderId(self.next_id);
        self.next_id = self.next_id + 1;
        let ghost numbered = self@;
        assert(numbered =~= EngineView { next_id: (desk.next_id + 1) as u64, ..desk });
        // Plan before applying. Fill-or-kill has to know the whole outcome
        // before any of it lands, or it is not fill-or-kill.
        let plan: Vec<(Price, Qty)> = match request.kind {
            OrderType::Market => {
                match self.plan_market_fill(request.side, request.qty, book) {
                    Ok(plan) => plan,
                    Err(reason) => {
                        return Some(Err(reason));
                    },
                }
            },
            // A marketable limit crosses the spread, so it takes liquidity
            // immediately rather than resting.
            OrderType::Limit { price } => {
                self.marketable_limit_fill(request.side, request.qty, price, book)
            },
            _ => Vec::new(),
        };
        proof {
            lemma_plan(desk.config, request.side, request.qty.0 as int, book@);
        }
        let mut order = Order {
            id,
            side: request.side,
            kind: request.kind,
            qty: request.qty,
            filled: Qty(0),
            avg_fill_price: None,
            status: if request.kind.trigger_price().is_some() {
                OrderStatus::Pending
            } else {
                OrderStatus::Working
            },
            tif: request.tif,
            created: now,
            closed: None,
            oco_group: request.oco_group,
            reject_reason: None,
        };
        assert(order == order_for(request, id, now));
        let ghost fresh = order;
        let ghost f = placed(numbered, order, plan@, now);
        let mut fills: Vec<Fill> = Vec::new();
        let immediate = matches!(request.kind, OrderType::Market | OrderType::Limit { .. });
        if immediate {
            if matches!(request.tif, TimeInForce::Fok) && plan_total(&plan) < request.qty.0 as i128 {
                // Killed: nothing is applied, so there is nothing to unwind.
                order.status = OrderStatus::Cancelled;
                order.closed = Some(now);
            } else {
                if !self.apply_plan(&mut order, &mut fills, &plan, now) {
                    return None;
                }
                Self::finalise_immediate(&mut order, now);
            }
        }
        assert(self@ == f.desk && order == f.order && fills@ == f.made && f.ok);
        if order.status.is_live() {
            self.working.push(id);
        }
        let copy = order.clone();
        let group = order.oco_group;
        self.orders.insert(id.0, order);
        proof {
            let start = Filling {
                desk: numbered,
                order: fresh,
                made: Seq::<Fill>::empty(),
                ok: true,
            };
            lemma_fill_all_keeps(start, plan@, now);
            assert(self@ =~= EngineView {
                orders: f.desk.orders.insert(f.order.id.0, f.order),
                working: if f.order.status.live() {
                    f.desk.working.push(f.order.id)
                } else {
                    f.desk.working
                },
                ..f.desk
            });
            crate::trading::desk::lemma_recorded(
                Filling { made: Seq::<Fill>::empty(), ..f },
                now,
            );
            assert(self@.wf());
            assert(self@.sound());
        }
        if fills.len() > 0 {
            self.cancel_oco_siblings(id, group, now);
        }
        assert(self@ == recorded(f, now));
        Some(Ok(SubmitOutcome { order: copy, fills }))
    }

    /// Feed a trade in: triggers stops and fills resting limits.
    ///
    /// Returns the fills the trade caused.
    pub fn on_trade(&mut self, trade: &Trade, book: &OrderBook) -> (r: Vec<Fill>)
        requires
            old(self)@.wf(),
            book@.wf(),
            traded(old(self)@, *trade, book@).ok,
        ensures
            final(self)@ == traded(old(self)@, *trade, book@).desk,
            final(self)@.wf(),
            r@ == traded(old(self)@, *trade, book@).made,
    {
        match self.try_on_trade(trade, book) {
            Some(fills) => fills,
            None => Vec::new(),
        }
    }

    /// Feed a trade in. `None` where the numbers would leave 64 bits; the engine
    /// must not be used after that.
    pub fn try_on_trade(&mut self, trade: &Trade, book: &OrderBook) -> (r: Option<Vec<Fill>>)
        requires
            old(self)@.wf(),
            book@.wf(),
        ensures
            ({
                let t = traded(old(self)@, *trade, book@);
                match r {
                    Some(fills) => t.ok && final(self)@ == t.desk && final(self)@.wf() && fills@
                        == t.made,
                    None => !t.ok,
                }
            }),
    {
        let ghost before = self@;
        let candidates = copy_ids(&self.working);
        self.now = trade.ts;
        self.last_price = Some(trade.price);
        let mut fills: Vec<Fill> = Vec::new();
        let ghost start = Reaction { desk: self@, made: fills@, ok: true };
        assert(start.desk =~= EngineView {
            now: trade.ts,
            last_price: Some(trade.price),
            ..before
        });
        let ghost all = react_all(start, candidates@, *trade, book@);
        let mut i: usize = 0;
        assert(candidates@.skip(0) =~= candidates@);
        while i < candidates.len()
            invariant
                i <= candidates@.len(),
                self@.sound(),
                book@.wf(),
                all == react_all(
                    Reaction {
                        desk: EngineView {
                            now: trade.ts,
                            last_price: Some(trade.price),
                            ..old(self)@
                        },
                        made: Seq::<Fill>::empty(),
                        ok: true,
                    },
                    old(self)@.working,
                    *trade,
                    book@,
                ),
                react_all(
                    Reaction { desk: self@, made: fills@, ok: true },
                    candidates@.skip(i as int),
                    *trade,
                    book@,
                ) == all,
            decreases candidates@.len() - i,
        {
            let ghost here = Reaction { desk: self@, made: fills@, ok: true };
            proof {
                assert(candidates@.skip(i as int).drop_first() =~= candidates@.skip(i + 1));
                lemma_react(here, candidates@[i as int], *trade, book@);
                lemma_react_all(
                    react(here, candidates@[i as int], *trade, book@),
                    candidates@.skip(i + 1),
                    *trade,
                    book@,
                );
            }
            if !self.react_to(candidates[i], &mut fills, trade, book) {
                return None;
            }
            i += 1;
        }
        proof {
            lemma_pruned_wf(self@);
        }
        self.prune_working();
        Some(fills)
    }

    /// Let one order react to a trade.
    fn react_to(&mut self, id: OrderId, fills: &mut Vec<Fill>, trade: &Trade, book: &OrderBook) -> (r:
        bool)
        requires
            old(self)@.sound(),
            book@.wf(),
        ensures
            ({
                let after = react(
                    Reaction { desk: old(self)@, made: old(fills)@, ok: true },
                    id,
                    *trade,
                    book@,
                );
                &&& r == after.ok
                &&& r ==> final(self)@ == after.desk && final(fills)@ == after.made
            }),
    {
        let mut order = match self.orders.get(&id.0) {
            Some(order) => order.clone(),
            None => {
                return true;
            },
        };
        if !order.status.is_live() {
            return true;
        }
        assert(order_ok(id.0, order));
        assert(self@.working.contains(OrderId(id.0)));
        // Stops trigger when the market trades at or through them.
        if matches!(order.status, OrderStatus::Pending) {
            let trigger = match order.kind.trigger_price() {
                Some(trigger) => trigger,
                None => {
                    return true;
                },
            };
            let triggered = match order.side {
                Side::Buy => trade.price.0 >= trigger.0,
                Side::Sell => trade.price.0 <= trigger.0,
            };
            if !triggered {
                return true;
            }
            if matches!(order.kind, OrderType::Stop { .. }) {
                return self.fire_stop(order, fills, trade, book);
            }
            return self.wake_stop_limit(order, fills, trade);
        }
        self.trade_limit(order, fills, trade)
    }

    /// Turn a stop-limit that was set off into a limit order.
    fn wake_stop_limit(&mut self, mut order: Order, fills: &mut Vec<Fill>, trade: &Trade) -> (r: bool)
        requires
            old(self)@.sound(),
            old(self)@.orders.contains_key(order.id.0),
            order_ok(order.id.0, order),
            order.status.live(),
            old(self)@.working.contains(order.id),
        ensures
            ({
                let after = stop_limit_wakes(
                    Reaction { desk: old(self)@, made: old(fills)@, ok: true },
                    order,
                    *trade,
                );
                &&& r == after.ok
                &&& r ==> final(self)@ == after.desk && final(fills)@ == after.made
            }),
    {
        let ghost before = self@;
        let id = order.id;
        let rests = matches!(order.tif, TimeInForce::Gtc);
        order.status = OrderStatus::Working;
        let copy = order.clone();
        self.orders.insert(id.0, copy);
        proof {
            assert(self@ =~= EngineView { orders: before.orders.insert(id.0, order), ..before });
            assert(self@.sound());
        }
        if matches!(order.tif, TimeInForce::Fok) && !(Self::trades_through(&order, trade)
            && order.remaining().0 <= trade.qty.0) {
            // Killed: the trade that set it off cannot fill it whole.
            self.cancel(id, trade.ts);
            return true;
        }
        proof {
            lemma_limit_trades(Reaction { desk: self@, made: fills@, ok: true }, order, *trade);
        }
        if !self.trade_limit(order, fills, trade) {
            return false;
        }
        if !rests {
            // Whatever filled, filled; the remainder does not rest.
            self.cancel(id, trade.ts);
        }
        true
    }

    /// Whether the market traded strictly through an order's limit.
    fn trades_through(order: &Order, trade: &Trade) -> (r: bool)
        ensures
            r == goes_through(*order, *trade),
    {
        match order.kind.limit_price() {
            Some(limit) => match order.side {
                Side::Buy => trade.price.0 < limit.0,
                Side::Sell => trade.price.0 > limit.0,
            },
            None => false,
        }
    }

    /// Turn a stop that was set off into a market order.
    fn fire_stop(
        &mut self,
        mut order: Order,
        fills: &mut Vec<Fill>,
        trade: &Trade,
        book: &OrderBook,
    ) -> (r: bool)
        requires
            old(self)@.sound(),
            book@.wf(),
            old(self)@.orders.contains_key(order.id.0),
            order_ok(order.id.0, order),
            order.status.live(),
            old(self)@.working.contains(order.id),
        ensures
            ({
                let after = stop_fires(
                    Reaction { desk: old(self)@, made: old(fills)@, ok: true },
                    order,
                    *trade,
                    book@,
                );
                &&& r == after.ok
                &&& r ==> final(self)@ == after.desk && final(fills)@ == after.made
            }),
    {
        let had: usize = fills.len();
        let want = order.remaining();
        proof {
            lemma_plan(self@.config, order.side, want.0 as int, book@);
            lemma_stop_plan(self@, order, book@);
        }
        let ghost start = Filling { desk: self@, order, made: fills@, ok: true };
        if let Ok(plan) = self.plan_market_fill(order.side, want, book) {
            let killed = matches!(order.tif, TimeInForce::Fok) && plan_total(&plan) < want.0 as i128;
            if !killed {
                proof {
                    lemma_fill_all_keeps(start, plan@, trade.ts);
                }
                if !self.apply_plan(&mut order, fills, &plan, trade.ts) {
                    return false;
                }
            }
        }
        // A market order has nothing to rest at.
        order.status = if order.is_complete() {
            OrderStatus::Filled
        } else {
            OrderStatus::Cancelled
        };
        order.closed = Some(trade.ts);
        self.put_order_back(order, fills, had, trade.ts);
        true
    }

    /// Fill a resting limit that the market went through.
    fn trade_limit(&mut self, mut order: Order, fills: &mut Vec<Fill>, trade: &Trade) -> (r: bool)
        requires
            old(self)@.sound(),
            old(self)@.orders.contains_key(order.id.0),
            order_ok(order.id.0, order),
            order.status.live(),
            !(order.status is Pending),
            old(self)@.working.contains(order.id),
        ensures
            ({
                let after = limit_trades(
                    Reaction { desk: old(self)@, made: old(fills)@, ok: true },
                    order,
                    *trade,
                );
                &&& r == after.ok
                &&& r ==> final(self)@ == after.desk && final(fills)@ == after.made
            }),
    {
        // Resting limits fill only once the market trades strictly through
        // them: see the module docs on queue position.
        let limit = match order.kind.limit_price() {
            Some(limit) => limit,
            None => {
                return true;
            },
        };
        if !Self::trades_through(&order, trade) {
            return true;
        }
        let had: usize = fills.len();
        // Fill at the limit price: the trader's resting order cannot
        // have been improved by a trade that happened past it.
        let take = order.remaining().min(trade.qty);
        if take.0 > 0 {
            if !self.record_fill(&mut order, fills, limit, take, trade.ts) {
                return false;
            }
        }
        if order.is_complete() {
            order.status = OrderStatus::Filled;
            order.closed = Some(trade.ts);
        } else if order.filled.0 > 0 {
            order.status = OrderStatus::PartiallyFilled;
        }
        self.put_order_back(order, fills, had, trade.ts);
        true
    }

    /// Put an order back on record, and cancel its siblings if it filled.
    fn put_order_back(&mut self, order: Order, fills: &Vec<Fill>, had: usize, now: Ts)
        requires
            old(self)@.sound(),
            old(self)@.orders.contains_key(order.id.0),
            order_ok(order.id.0, order),
            old(self)@.working.contains(order.id),
        ensures
            final(self)@ == put_back(
                Filling { desk: old(self)@, order, made: fills@, ok: true },
                had as nat,
                now,
            ).desk,
    {
        let ghost before = self@;
        let id = order.id;
        let group = order.oco_group;
        self.orders.insert(id.0, order);
        proof {
            assert(self@ =~= EngineView { orders: before.orders.insert(id.0, order), ..before });
            assert(self@.sound());
        }
        if fills.len() > had {
            self.cancel_oco_siblings(id, group, now);
        }
    }

    /// Cancel working orders and close the position at market.
    pub fn flatten(&mut self, book: &OrderBook, now: Ts) -> (r: Result<Vec<Fill>, RejectReason>)
        requires
            old(self)@.wf(),
            book@.wf(),
            flattened(old(self)@, book@, now).ok,
        ensures
            final(self)@ == flattened(old(self)@, book@, now).desk,
            final(self)@.wf(),
            match flattened(old(self)@, book@, now).fills {
                Ok(fills) => r matches Ok(made) && made@ == fills,
                Err(reason) => r == Err::<Vec<Fill>, RejectReason>(reason),
            },
    {
        match self.try_flatten(book, now) {
            Some(result) => result,
            None => Ok(Vec::new()),
        }
    }

    /// Cancel working orders and close the position at market. `None` where the
    /// numbers would leave 64 bits; the engine must not be used after that.
    pub fn try_flatten(&mut self, book: &OrderBook, now: Ts) -> (r: Option<
        Result<Vec<Fill>, RejectReason>,
    >)
        requires
            old(self)@.wf(),
            book@.wf(),
        ensures
            ({
                let s = flattened(old(self)@, book@, now);
                match r {
                    Some(result) => s.ok && final(self)@ == s.desk && final(self)@.wf()
                        && match s.fills {
                        Ok(fills) => result matches Ok(made) && made@ == fills,
                        Err(reason) => result == Err::<Vec<Fill>, RejectReason>(reason),
                    },
                    None => !s.ok,
                }
            }),
    {
        self.cancel_all(now);
        let side = match self.position.side() {
            Some(side) => side.opposite(),
            None => {
                return Some(Ok(Vec::new()));
            },
        };
        if self.position.qty.0 == i64::MIN {
            return None;
        }
        let size = self.position.size();
        match self.try_submit(OrderRequest::market(side, size), book, now) {
            Some(Ok(outcome)) => Some(Ok(outcome.fills)),
            Some(Err(reason)) => Some(Err(reason)),
            None => None,
        }
    }
}

} // verus!
