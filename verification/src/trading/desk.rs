//! What the matching engine does, as a model: planned fills, fills, triggers,
//! cancellations and the order of events among them.

use crate::primitives::book::BookLevel;
use crate::primitives::fixed::{Price, Qty};
use crate::primitives::instrument::Instrument;
use crate::primitives::market::{Side, Trade};
use crate::primitives::time::Ts;
use crate::trading::engine::TradingConfig;
use crate::trading::order::{
    Fill, Order, OrderId, OrderRequest, OrderStatus, OrderType, RejectReason,
};
use crate::trading::position::Position;
use vstd::prelude::*;

verus! {

use crate::primitives::book::BookView;
use crate::primitives::fixed::{in_range, magnitude_of, notional_of, truncated_div};
use crate::primitives::ratio::scaled_by;

/// What the engine holds.
#[verifier::ext_equal]
pub struct EngineView {
    pub instrument: Instrument,
    pub config: TradingConfig,
    pub orders: Map<u64, Order>,
    pub working: Seq<OrderId>,
    pub position: Position,
    pub fills: Seq<Fill>,
    pub next_id: u64,
    pub last_price: Option<Price>,
    pub now: Ts,
}

/// The levels an order on this side takes from, best first.
pub open spec fn facing(book: BookView, side: Side) -> Seq<BookLevel> {
    match side {
        Side::Buy => book.asks,
        Side::Sell => book.bids.reverse(),
    }
}

/// Taking `want` from levels in their order: all of each level until the rest
/// of `want` fits into one.
pub open spec fn taken_from(levels: Seq<BookLevel>, want: int) -> Seq<(Price, Qty)>
    decreases levels.len(),
{
    if levels.len() == 0 || want <= 0 {
        Seq::<(Price, Qty)>::empty()
    } else {
        let take = if levels[0].qty.0 < want {
            levels[0].qty
        } else {
            Qty(want as i64)
        };
        seq![(levels[0].price, take)] + taken_from(levels.drop_first(), want - take.0)
    }
}

/// The total quantity of a plan.
pub open spec fn planned(plan: Seq<(Price, Qty)>) -> int
    decreases plan.len(),
{
    if plan.len() == 0 {
        0
    } else {
        plan[0].1.0 + planned(plan.drop_first())
    }
}

/// Whether every part of a plan is positive.
pub open spec fn all_positive(plan: Seq<(Price, Qty)>) -> bool {
    forall|i: int| 0 <= i < plan.len() ==> (#[trigger] plan[i]).1.0 > 0
}

/// Whether a level is at least as good as a limit.
pub open spec fn crosses(level: BookLevel, side: Side, limit: Price) -> bool {
    match side {
        Side::Buy => level.price.0 <= limit.0,
        Side::Sell => level.price.0 >= limit.0,
    }
}

/// The levels in front that are at least as good as a limit.
pub open spec fn crossing(levels: Seq<BookLevel>, side: Side, limit: Price) -> Seq<BookLevel>
    decreases levels.len(),
{
    if levels.len() == 0 || !crosses(levels[0], side, limit) {
        Seq::<BookLevel>::empty()
    } else {
        seq![levels[0]] + crossing(levels.drop_first(), side, limit)
    }
}

/// How a market order is filled: it walks the book, or takes all it wants from
/// the first level where walking is not allowed.
pub open spec fn market_plan(config: TradingConfig, side: Side, want: int, book: BookView) -> Result<
    Seq<(Price, Qty)>,
    RejectReason,
> {
    let levels = facing(book, side);
    if levels.len() == 0 {
        Err(RejectReason::NoMarket)
    } else if config.allow_book_walk {
        Ok(taken_from(levels, want))
    } else if levels[0].qty.0 < want {
        Err(RejectReason::NoMarket)
    } else {
        Ok(taken_from(levels.take(1), want))
    }
}

/// How much of a limit order is filled at once: what its limit reaches.
pub open spec fn limit_plan(side: Side, want: int, limit: Price, book: BookView) -> Seq<
    (Price, Qty),
> {
    taken_from(crossing(facing(book, side), side, limit), want)
}

/// The commission on a fill.
pub open spec fn commission_of(config: TradingConfig, price: Price, qty: Qty) -> Qty {
    Qty(
        scaled_by(notional_of(price.0 as int, qty.0 as int), config.commission_rate) as i64,
    )
}

/// An order after a fill: the average price is weighted by quantity.
pub open spec fn order_filled(order: Order, price: Price, qty: Qty) -> Order {
    Order {
        avg_fill_price: match order.avg_fill_price {
            None => Some(price),
            Some(previous) => Some(
                Price(
                    truncated_div(
                        previous.0 * order.filled.0 + price.0 * qty.0,
                        order.filled.0 + qty.0,
                    ) as i64,
                ),
            ),
        },
        filled: Qty((order.filled.0 + qty.0) as i64),
        ..order
    }
}

/// An order on its way through a plan: the fills made so far, and whether all
/// of them stayed within 64 bits.
pub struct Filling {
    pub desk: EngineView,
    pub order: Order,
    pub made: Seq<Fill>,
    pub ok: bool,
}

/// One more fill.
pub open spec fn fill_one(f: Filling, price: Price, qty: Qty, now: Ts) -> Filling {
    let commission = commission_of(f.desk.config, price, qty);
    let fill = Fill { order_id: f.order.id, ts: now, price, qty, side: f.order.side, commission };
    Filling {
        desk: EngineView {
            position: f.desk.position.filled(f.order.side, price, qty, commission),
            last_price: Some(price),
            fills: f.desk.fills.push(fill),
            ..f.desk
        },
        order: order_filled(f.order, price, qty),
        made: f.made.push(fill),
        ok: f.ok && f.desk.position.can_fill(f.order.side, price, qty, commission),
    }
}

/// Every fill of a plan.
pub open spec fn fill_all(f: Filling, plan: Seq<(Price, Qty)>, now: Ts) -> Filling
    decreases plan.len(),
{
    if plan.len() == 0 {
        f
    } else {
        fill_all(fill_one(f, plan[0].0, plan[0].1, now), plan.drop_first(), now)
    }
}

/// Whether an order is known and can still trade.
pub open spec fn is_live(orders: Map<u64, Order>, id: OrderId) -> bool {
    orders.contains_key(id.0) && orders[id.0].status.live()
}

/// The ids among `ids` whose orders can still trade.
pub open spec fn live_ids(ids: Seq<OrderId>, orders: Map<u64, Order>) -> Seq<OrderId>
    decreases ids.len(),
{
    if ids.len() == 0 {
        ids
    } else if is_live(orders, ids.last()) {
        live_ids(ids.drop_last(), orders).push(ids.last())
    } else {
        live_ids(ids.drop_last(), orders)
    }
}

/// Whether an order is a live member of a group other than `except`.
pub open spec fn is_sibling(
    orders: Map<u64, Order>,
    id: OrderId,
    group: u64,
    except: OrderId,
) -> bool {
    id != except && is_live(orders, id) && orders[id.0].oco_group == Some(group)
}

/// The live members of a group among `ids`, other than `except`.
pub open spec fn siblings(
    ids: Seq<OrderId>,
    orders: Map<u64, Order>,
    group: u64,
    except: OrderId,
) -> Seq<OrderId>
    decreases ids.len(),
{
    if ids.len() == 0 {
        ids
    } else if is_sibling(orders, ids.last(), group, except) {
        siblings(ids.drop_last(), orders, group, except).push(ids.last())
    } else {
        siblings(ids.drop_last(), orders, group, except)
    }
}

/// The engine with only live orders among the working ones.
pub open spec fn pruned(desk: EngineView) -> EngineView {
    EngineView { working: live_ids(desk.working, desk.orders), ..desk }
}

/// The engine after an order was cancelled, unchanged where it cannot be.
pub open spec fn cancelled(desk: EngineView, id: OrderId, now: Ts) -> EngineView {
    if is_live(desk.orders, id) {
        pruned(
            EngineView {
                orders: desk.orders.insert(
                    id.0,
                    Order {
                        status: OrderStatus::Cancelled,
                        closed: Some(now),
                        ..desk.orders[id.0]
                    },
                ),
                ..desk
            },
        )
    } else {
        desk
    }
}

/// The engine after several orders were cancelled in turn.
pub open spec fn cancel_each(desk: EngineView, ids: Seq<OrderId>, now: Ts) -> EngineView
    decreases ids.len(),
{
    if ids.len() == 0 {
        desk
    } else {
        cancel_each(cancelled(desk, ids[0], now), ids.drop_first(), now)
    }
}

/// How many of several orders are cancelled when that is asked of each in turn.
pub open spec fn cancel_count(desk: EngineView, ids: Seq<OrderId>, now: Ts) -> nat
    decreases ids.len(),
{
    if ids.len() == 0 {
        0
    } else {
        (if is_live(desk.orders, ids[0]) {
            1nat
        } else {
            0nat
        }) + cancel_count(cancelled(desk, ids[0], now), ids.drop_first(), now)
    }
}

/// The engine without the other members of an order's group.
pub open spec fn without_siblings(
    desk: EngineView,
    filled: OrderId,
    group: Option<u64>,
    now: Ts,
) -> EngineView {
    match group {
        None => desk,
        Some(g) => cancel_each(desk, siblings(desk.working, desk.orders, g, filled), now),
    }
}

/// Why a request is refused before it is priced.
pub open spec fn request_refusal(desk: EngineView, request: OrderRequest) -> Option<RejectReason> {
    let projected = desk.position.qty.0 + request.qty.0 * request.side.sign();
    if request.qty.0 <= 0 {
        Some(RejectReason::NonPositiveQty)
    } else if (request.kind.limit_of() matches Some(p) && p.0 <= 0) || (
    request.kind.trigger_of() matches Some(p) && p.0 <= 0) {
        Some(RejectReason::NonPositivePrice)
    } else if desk.working.len() >= desk.config.max_working_orders {
        Some(RejectReason::TooManyOrders { limit: desk.config.max_working_orders })
    } else {
        match desk.config.max_position {
            Some(limit) => if magnitude_of(projected) > limit.0 && magnitude_of(projected)
                > magnitude_of(desk.position.qty.0 as int) {
                Some(RejectReason::PositionLimit { limit })
            } else {
                None
            },
            None => None,
        }
    }
}

/// The order that a request becomes.
pub open spec fn order_for(request: OrderRequest, id: OrderId, now: Ts) -> Order {
    Order {
        id,
        side: request.side,
        kind: request.kind,
        qty: request.qty,
        filled: Qty(0),
        avg_fill_price: None,
        status: if request.kind.trigger_of() is Some {
            OrderStatus::Pending
        } else {
            OrderStatus::Working
        },
        tif: request.tif,
        created: now,
        closed: None,
        oco_group: request.oco_group,
        reject_reason: None,
    }
}

/// An order in a final state.
pub open spec fn ended(order: Order, status: OrderStatus, now: Ts) -> Order {
    Order { status, closed: Some(now), ..order }
}

/// An order that had its chance to fill immediately. What did not fill rests
/// only for a limit order that may rest; any other order keeps what filled and
/// is cancelled before completing.
pub open spec fn settled(order: Order, now: Ts) -> Order {
    if order.filled.0 >= order.qty.0 {
        ended(order, OrderStatus::Filled, now)
    } else if order.tif is Gtc && !(order.kind is Market) {
        if order.filled.0 > 0 {
            Order { status: OrderStatus::PartiallyFilled, ..order }
        } else {
            order
        }
    } else {
        ended(order, OrderStatus::Cancelled, now)
    }
}

/// What a submission leads to.
pub struct Submission {
    pub desk: EngineView,
    pub result: Result<(Order, Seq<Fill>), RejectReason>,
    pub ok: bool,
}

/// How an order is filled on submission.
pub open spec fn opening_plan(desk: EngineView, request: OrderRequest, book: BookView) -> Result<
    Seq<(Price, Qty)>,
    RejectReason,
> {
    match request.kind {
        OrderType::Market => market_plan(
            desk.config,
            request.side,
            request.qty.0 as int,
            book,
        ),
        OrderType::Limit { price } => Ok(
            limit_plan(request.side, request.qty.0 as int, price, book),
        ),
        _ => Ok(Seq::<(Price, Qty)>::empty()),
    }
}

/// The order and its fills, once its plan is known. A fill-or-kill order whose
/// plan falls short is cancelled with nothing applied.
pub open spec fn placed(desk: EngineView, order: Order, plan: Seq<(Price, Qty)>, now: Ts) -> Filling {
    let start = Filling { desk, order, made: Seq::<Fill>::empty(), ok: true };
    if !(order.kind is Market || order.kind is Limit) {
        start
    } else if order.tif is Fok && planned(plan) < order.qty.0 {
        Filling { order: ended(order, OrderStatus::Cancelled, now), ..start }
    } else {
        let f = fill_all(start, plan, now);
        Filling { order: settled(f.order, now), ..f }
    }
}

/// The engine once a placed order is on record.
pub open spec fn recorded(f: Filling, now: Ts) -> EngineView {
    let desk = EngineView {
        orders: f.desk.orders.insert(f.order.id.0, f.order),
        working: if f.order.status.live() {
            f.desk.working.push(f.order.id)
        } else {
            f.desk.working
        },
        ..f.desk
    };
    if f.made.len() > 0 {
        without_siblings(desk, f.order.id, f.order.oco_group, now)
    } else {
        desk
    }
}

/// What submitting a request leads to.
pub open spec fn submission(
    before: EngineView,
    request: OrderRequest,
    book: BookView,
    now: Ts,
) -> Submission {
    let desk = EngineView { now, ..before };
    match request_refusal(desk, request) {
        Some(reason) => Submission { desk, result: Err(reason), ok: true },
        None => {
            let numbered = EngineView { next_id: (desk.next_id + 1) as u64, ..desk };
            let roomy = desk.next_id < u64::MAX;
            match opening_plan(desk, request, book) {
                Err(reason) => Submission { desk: numbered, result: Err(reason), ok: roomy },
                Ok(plan) => {
                    let order = order_for(request, OrderId(desk.next_id), now);
                    let f = placed(numbered, order, plan, now);
                    Submission {
                        desk: recorded(f, now),
                        result: Ok((f.order, f.made)),
                        ok: roomy && f.ok,
                    }
                },
            }
        },
    }
}

/// The engine on its way through the orders that a trade may touch.
pub struct Reaction {
    pub desk: EngineView,
    pub made: Seq<Fill>,
    pub ok: bool,
}

/// An order put on record, and the others of its group cancelled if it filled:
/// if there are more fills than the `had` from before.
pub open spec fn put_back(f: Filling, had: nat, now: Ts) -> Reaction {
    let desk = EngineView { orders: f.desk.orders.insert(f.order.id.0, f.order), ..f.desk };
    Reaction {
        desk: if f.made.len() > had {
            without_siblings(desk, f.order.id, f.order.oco_group, now)
        } else {
            desk
        },
        made: f.made,
        ok: f.ok,
    }
}

/// Whether a trade sets a waiting order off.
pub open spec fn triggers(order: Order, trade: Trade) -> bool {
    order.kind.trigger_of() matches Some(trigger) && match order.side {
        Side::Buy => trade.price.0 >= trigger.0,
        Side::Sell => trade.price.0 <= trigger.0,
    }
}

/// Whether a trade went strictly through a resting limit.
pub open spec fn goes_through(order: Order, trade: Trade) -> bool {
    order.kind.limit_of() matches Some(limit) && match order.side {
        Side::Buy => trade.price.0 < limit.0,
        Side::Sell => trade.price.0 > limit.0,
    }
}

/// What a stop that was set off takes from the book: what a market order would,
/// nothing where the book has nothing for one, and nothing for a fill-or-kill
/// order where that is not all of it.
pub open spec fn stop_plan(desk: EngineView, order: Order, book: BookView) -> Seq<(Price, Qty)> {
    let want = order.qty.0 - order.filled.0;
    match market_plan(desk.config, order.side, want, book) {
        Ok(plan) => if order.tif is Fok && planned(plan) < want {
            Seq::<(Price, Qty)>::empty()
        } else {
            plan
        },
        Err(_) => Seq::<(Price, Qty)>::empty(),
    }
}

/// An order with nothing to rest at: filled where it is complete, cancelled
/// with what it has otherwise.
pub open spec fn closed_out(order: Order, now: Ts) -> Order {
    if order.filled.0 >= order.qty.0 {
        ended(order, OrderStatus::Filled, now)
    } else {
        ended(order, OrderStatus::Cancelled, now)
    }
}

/// A stop that was set off becomes a market order: it takes from the book what
/// it can, and the rest is cancelled.
pub open spec fn stop_fires(r: Reaction, order: Order, trade: Trade, book: BookView) -> Reaction {
    let start = Filling { desk: r.desk, order, made: r.made, ok: r.ok };
    let f = fill_all(start, stop_plan(r.desk, order, book), trade.ts);
    put_back(Filling { order: closed_out(f.order, trade.ts), ..f }, r.made.len(), trade.ts)
}

/// A resting limit fills at its own price, with at most the traded quantity.
pub open spec fn limit_trades(r: Reaction, order: Order, trade: Trade) -> Reaction {
    if !goes_through(order, trade) {
        r
    } else {
        let limit = order.kind.limit_of()->0;
        let left = order.qty.0 - order.filled.0;
        let take = if trade.qty.0 < left {
            trade.qty.0 as int
        } else {
            left
        };
        let start = Filling { desk: r.desk, order, made: r.made, ok: r.ok };
        let f = if take > 0 {
            fill_one(start, limit, Qty(take as i64), trade.ts)
        } else {
            start
        };
        put_back(
            Filling {
                order: if f.order.filled.0 >= f.order.qty.0 {
                    ended(f.order, OrderStatus::Filled, trade.ts)
                } else if f.order.filled.0 > 0 {
                    Order { status: OrderStatus::PartiallyFilled, ..f.order }
                } else {
                    f.order
                },
                ..f
            },
            r.made.len(),
            trade.ts,
        )
    }
}

/// Whether a trade is enough to fill all that is left of a limit order.
pub open spec fn fills_whole(order: Order, trade: Trade) -> bool {
    goes_through(order, trade) && order.qty.0 - order.filled.0 <= trade.qty.0
}

/// A stop-limit that was set off becomes a limit order. One that may not rest
/// has only the trade that set it off to fill against: what is left after it is
/// cancelled, and a fill-or-kill order that it cannot fill whole takes nothing.
pub open spec fn stop_limit_wakes(r: Reaction, order: Order, trade: Trade) -> Reaction {
    let awake = Order { status: OrderStatus::Working, ..order };
    let up = Reaction {
        desk: EngineView { orders: r.desk.orders.insert(order.id.0, awake), ..r.desk },
        ..r
    };
    if order.tif is Gtc {
        limit_trades(up, awake, trade)
    } else if order.tif is Fok && !fills_whole(order, trade) {
        Reaction { desk: cancelled(up.desk, order.id, trade.ts), ..up }
    } else {
        let after = limit_trades(up, awake, trade);
        Reaction { desk: cancelled(after.desk, order.id, trade.ts), ..after }
    }
}

/// What a trade does to one order.
pub open spec fn react(r: Reaction, id: OrderId, trade: Trade, book: BookView) -> Reaction {
    if !is_live(r.desk.orders, id) {
        r
    } else {
        let order = r.desk.orders[id.0];
        if order.status is Pending {
            if !triggers(order, trade) {
                r
            } else if order.kind is Stop {
                stop_fires(r, order, trade, book)
            } else {
                stop_limit_wakes(r, order, trade)
            }
        } else {
            limit_trades(r, order, trade)
        }
    }
}

/// What a trade does to several orders in turn.
pub open spec fn react_all(r: Reaction, ids: Seq<OrderId>, trade: Trade, book: BookView) -> Reaction
    decreases ids.len(),
{
    if ids.len() == 0 {
        r
    } else {
        react_all(react(r, ids[0], trade, book), ids.drop_first(), trade, book)
    }
}

/// What a trade does to the engine.
pub open spec fn traded(before: EngineView, trade: Trade, book: BookView) -> Reaction {
    let desk = EngineView { now: trade.ts, last_price: Some(trade.price), ..before };
    let r = react_all(
        Reaction { desk, made: Seq::<Fill>::empty(), ok: true },
        before.working,
        trade,
        book,
    );
    Reaction { desk: pruned(r.desk), ..r }
}

/// Whether an order is in a state that the engine brings orders into.
pub open spec fn order_ok(id: u64, order: Order) -> bool {
    &&& order.id.0 == id
    &&& order.qty.0 > 0
    &&& 0 <= order.filled.0 <= order.qty.0
    &&& order.status is Pending ==> order.kind.trigger_of() is Some
    &&& order.status is Filled ==> order.filled == order.qty
    &&& order.status.live() ==> order.filled.0 < order.qty.0
}

/// Whether every order on record is in such a state.
pub open spec fn orders_ok(orders: Map<u64, Order>) -> bool {
    forall|id: u64| #[trigger] orders.contains_key(id) ==> order_ok(id, orders[id])
}

impl EngineView {
    /// The working orders are the live ones, each once.
    pub open spec fn wf(self) -> bool {
        &&& self.config.commission_rate.wf()
        &&& orders_ok(self.orders)
        &&& forall|id: u64| #[trigger] self.orders.contains_key(id) ==> id < self.next_id
        &&& self.working.no_duplicates()
        &&& forall|i: int| 0 <= i < self.working.len() ==> is_live(self.orders, #[trigger] self.working[i])
        &&& forall|id: u64| #[trigger]
            self.orders.contains_key(id) && self.orders[id].status.live() ==> self.working.contains(
                OrderId(id),
            )
    }
}

impl EngineView {
    /// What holds while a trade is being worked through: every live order is
    /// among the working ones, but orders that are done may still be there too.
    pub open spec fn sound(self) -> bool {
        &&& self.config.commission_rate.wf()
        &&& orders_ok(self.orders)
        &&& forall|id: u64| #[trigger] self.orders.contains_key(id) ==> id < self.next_id
        &&& self.working.no_duplicates()
        &&& forall|id: u64| #[trigger]
            self.orders.contains_key(id) && self.orders[id].status.live() ==> self.working.contains(
                OrderId(id),
            )
    }
}

/// Taking from levels that hold something takes positive parts, and no more
/// than is wanted.
pub proof fn lemma_taken(levels: Seq<BookLevel>, want: int)
    requires
        forall|i: int| 0 <= i < levels.len() ==> (#[trigger] levels[i]).qty.0 > 0,
        want <= i64::MAX,
    ensures
        all_positive(taken_from(levels, want)),
        want > 0 ==> 0 <= planned(taken_from(levels, want)) <= want,
        want <= 0 ==> planned(taken_from(levels, want)) == 0,
        taken_from(levels, want).len() <= levels.len(),
    decreases levels.len(),
{
    if levels.len() > 0 && want > 0 {
        let take = if levels[0].qty.0 < want {
            levels[0].qty
        } else {
            Qty(want as i64)
        };
        let rest = taken_from(levels.drop_first(), want - take.0);
        lemma_taken(levels.drop_first(), want - take.0);
        let plan = taken_from(levels, want);
        assert(plan.drop_first() =~= rest);
        assert forall|i: int| 0 <= i < plan.len() implies (#[trigger] plan[i]).1.0 > 0 by {
            if i > 0 {
                assert(plan[i] == rest[i - 1]);
            }
        }
    }
}

/// The levels that a limit reaches are the first ones.
pub proof fn lemma_crossing(levels: Seq<BookLevel>, side: Side, limit: Price)
    ensures
        crossing(levels, side, limit).len() <= levels.len(),
        crossing(levels, side, limit) == levels.take(crossing(levels, side, limit).len() as int),
        forall|i: int|
            0 <= i < crossing(levels, side, limit).len() ==> crosses(
                #[trigger] levels[i],
                side,
                limit,
            ),
    decreases levels.len(),
{
    if levels.len() > 0 && crosses(levels[0], side, limit) {
        let tail = levels.drop_first();
        let rest = crossing(tail, side, limit);
        lemma_crossing(tail, side, limit);
        let all = crossing(levels, side, limit);
        assert(all =~= levels.take(all.len() as int));
        assert forall|i: int| 0 <= i < all.len() implies crosses(
            #[trigger] levels[i],
            side,
            limit,
        ) by {
            if i > 0 {
                assert(tail[i - 1] == levels[i]);
            }
        }
    }
}

/// Levels that an order faces hold something.
pub proof fn lemma_facing(book: BookView, side: Side)
    requires
        book.wf(),
    ensures
        forall|i: int|
            0 <= i < facing(book, side).len() ==> (#[trigger] facing(book, side)[i]).qty.0 > 0,
{
}

/// What a plan is bound by.
pub proof fn lemma_plan(config: TradingConfig, side: Side, want: int, book: BookView)
    requires
        book.wf(),
        0 < want <= i64::MAX,
    ensures
        market_plan(config, side, want, book) matches Ok(plan) ==> all_positive(plan) && planned(plan)
            <= want,
        forall|limit: Price|
            all_positive(#[trigger] limit_plan(side, want, limit, book)) && planned(
                limit_plan(side, want, limit, book),
            ) <= want,
{
    let levels = facing(book, side);
    lemma_facing(book, side);
    lemma_taken(levels, want);
    if levels.len() > 0 {
        lemma_taken(levels.take(1), want);
    }
    assert forall|limit: Price|
        all_positive(#[trigger] limit_plan(side, want, limit, book)) && planned(
            limit_plan(side, want, limit, book),
        ) <= want by {
        lemma_crossing(levels, side, limit);
        lemma_taken(crossing(levels, side, limit), want);
    }
}

/// A plan that has overflowed stays overflowed.
pub proof fn lemma_fill_all_ok(f: Filling, plan: Seq<(Price, Qty)>, now: Ts)
    ensures
        fill_all(f, plan, now).ok ==> f.ok,
    decreases plan.len(),
{
    if plan.len() > 0 {
        lemma_fill_all_ok(fill_one(f, plan[0].0, plan[0].1, now), plan.drop_first(), now);
    }
}

/// What filling a plan leaves alone, and how far it fills the order.
pub proof fn lemma_fill_all_keeps(f: Filling, plan: Seq<(Price, Qty)>, now: Ts)
    requires
        all_positive(plan),
        0 <= f.order.filled.0,
        f.order.filled.0 + planned(plan) <= f.order.qty.0,
    ensures
        ({
            let g = fill_all(f, plan, now);
            &&& g.desk.orders == f.desk.orders
            &&& g.desk.working == f.desk.working
            &&& g.desk.config == f.desk.config
            &&& g.desk.next_id == f.desk.next_id
            &&& g.desk.instrument == f.desk.instrument
            &&& g.order.id == f.order.id
            &&& g.order.qty == f.order.qty
            &&& g.order.kind == f.order.kind
            &&& g.order.side == f.order.side
            &&& g.order.tif == f.order.tif
            &&& g.order.status == f.order.status
            &&& g.order.oco_group == f.order.oco_group
            &&& g.order.filled.0 == f.order.filled.0 + planned(plan)
            &&& g.made.len() == f.made.len() + plan.len()
        }),
        planned(plan) >= 0,
    decreases plan.len(),
{
    if plan.len() > 0 {
        let rest = plan.drop_first();
        assert(all_positive(rest)) by {
            assert forall|i: int| 0 <= i < rest.len() implies (#[trigger] rest[i]).1.0 > 0 by {
                assert(rest[i] == plan[i + 1]);
            }
        }
        lemma_planned_natural(rest);
        lemma_fill_all_keeps(fill_one(f, plan[0].0, plan[0].1, now), rest, now);
    }
}

/// A plan of positive parts has no negative total.
pub proof fn lemma_planned_natural(plan: Seq<(Price, Qty)>)
    requires
        all_positive(plan),
    ensures
        planned(plan) >= 0,
    decreases plan.len(),
{
    if plan.len() > 0 {
        let rest = plan.drop_first();
        assert(all_positive(rest)) by {
            assert forall|i: int| 0 <= i < rest.len() implies (#[trigger] rest[i]).1.0 > 0 by {
                assert(rest[i] == plan[i + 1]);
            }
        }
        lemma_planned_natural(rest);
    }
}

/// What pruning keeps: the live ids, in their order, each as often as before.
pub proof fn lemma_live_ids(ids: Seq<OrderId>, orders: Map<u64, Order>)
    ensures
        forall|i: int|
            0 <= i < live_ids(ids, orders).len() ==> is_live(
                orders,
                #[trigger] live_ids(ids, orders)[i],
            ) && ids.contains(live_ids(ids, orders)[i]),
        forall|id: OrderId|
            ids.contains(id) && is_live(orders, id) ==> #[trigger] live_ids(
                ids,
                orders,
            ).contains(id),
        ids.no_duplicates() ==> live_ids(ids, orders).no_duplicates(),
        live_ids(ids, orders).len() <= ids.len(),
    decreases ids.len(),
{
    if ids.len() > 0 {
        let before = ids.drop_last();
        let kept = live_ids(before, orders);
        let all = live_ids(ids, orders);
        lemma_live_ids(before, orders);
        assert forall|i: int| 0 <= i < all.len() implies is_live(orders, #[trigger] all[i])
            && ids.contains(all[i]) by {
            if i < kept.len() {
                assert(all[i] == kept[i]);
                let j = before.index_of(kept[i]);
                assert(before.contains(kept[i]));
                assert(ids[j] == kept[i]);
            } else {
                assert(ids[ids.len() - 1] == all[i]);
            }
        }
        assert forall|id: OrderId| ids.contains(id) && is_live(orders, id) implies
            #[trigger] all.contains(id) by {
            let j = ids.index_of(id);
            if j < before.len() {
                assert(before[j] == id);
                assert(kept.contains(id));
                let k = kept.index_of(id);
                assert(all[k] == id);
            } else {
                assert(all[all.len() - 1] == id);
            }
        }
        if ids.no_duplicates() {
            assert(before.no_duplicates()) by {
                assert forall|a: int, b: int|
                    0 <= a < before.len() && 0 <= b < before.len() && a != b implies before[a]
                    != before[b] by {
                    assert(ids[a] != ids[b]);
                }
            }
            assert forall|a: int, b: int|
                0 <= a < all.len() && 0 <= b < all.len() && a != b implies all[a] != all[b] by {
                if a < kept.len() && b < kept.len() {
                    assert(kept[a] != kept[b]);
                } else {
                    let low = if a < b {
                        a
                    } else {
                        b
                    };
                    assert(before.contains(kept[low]));
                    let j = before.index_of(kept[low]);
                    assert(ids[j] != ids[ids.len() - 1]);
                }
            }
        }
    }
}

/// Pruning a sound engine makes it well formed.
pub proof fn lemma_pruned_wf(desk: EngineView)
    requires
        desk.sound(),
    ensures
        pruned(desk).wf(),
        pruned(desk).sound(),
{
    lemma_live_ids(desk.working, desk.orders);
    let after = pruned(desk);
    assert forall|id: u64| #[trigger]
        after.orders.contains_key(id) && after.orders[id].status.live() implies after.working.contains(
        OrderId(id),
    ) by {
        assert(desk.working.contains(OrderId(id)));
        assert(is_live(desk.orders, OrderId(id)));
    }
}

/// Cancelling keeps an engine sound, and a well formed one well formed.
pub proof fn lemma_cancelled(desk: EngineView, id: OrderId, now: Ts)
    requires
        desk.sound(),
    ensures
        cancelled(desk, id, now).sound(),
        desk.wf() ==> cancelled(desk, id, now).wf(),
        cancelled(desk, id, now).next_id == desk.next_id,
        cancelled(desk, id, now).config == desk.config,
        cancelled(desk, id, now).position == desk.position,
        cancelled(desk, id, now).fills == desk.fills,
        cancelled(desk, id, now).orders.dom() == desk.orders.dom(),
        !is_live(cancelled(desk, id, now).orders, id),
        forall|k: u64|
            k != id.0 && #[trigger] desk.orders.contains_key(k) ==> cancelled(
                desk,
                id,
                now,
            ).orders[k] == desk.orders[k],
{
    if is_live(desk.orders, id) {
        let mid = EngineView {
            orders: desk.orders.insert(
                id.0,
                Order { status: OrderStatus::Cancelled, closed: Some(now), ..desk.orders[id.0] },
            ),
            ..desk
        };
        assert(mid.orders.dom() =~= desk.orders.dom());
        assert(mid.sound());
        lemma_pruned_wf(mid);
    }
}

/// Cancelling several orders keeps an engine sound, and a well formed one well
/// formed.
pub proof fn lemma_cancel_each(desk: EngineView, ids: Seq<OrderId>, now: Ts)
    requires
        desk.sound(),
    ensures
        cancel_each(desk, ids, now).sound(),
        desk.wf() ==> cancel_each(desk, ids, now).wf(),
        cancel_each(desk, ids, now).next_id == desk.next_id,
        cancel_each(desk, ids, now).config == desk.config,
        cancel_each(desk, ids, now).position == desk.position,
        cancel_each(desk, ids, now).fills == desk.fills,
        cancel_each(desk, ids, now).orders.dom() == desk.orders.dom(),
        forall|k: u64|
            #![trigger cancel_each(desk, ids, now).orders[k]]
            desk.orders.contains_key(k) && !ids.contains(OrderId(k)) ==> cancel_each(
                desk,
                ids,
                now,
            ).orders[k] == desk.orders[k],
        forall|k: u64|
            #![trigger desk.orders[k].status]
            desk.orders.contains_key(k) && !desk.orders[k].status.live() ==> cancel_each(
                desk,
                ids,
                now,
            ).orders[k] == desk.orders[k],
        forall|i: int|
            0 <= i < ids.len() ==> !is_live(
                cancel_each(desk, ids, now).orders,
                #[trigger] ids[i],
            ),
    decreases ids.len(),
{
    if ids.len() > 0 {
        let next = cancelled(desk, ids[0], now);
        let rest = ids.drop_first();
        lemma_cancelled(desk, ids[0], now);
        lemma_cancel_each(next, rest, now);
        let after = cancel_each(desk, ids, now);
        assert forall|k: u64|
            #![trigger after.orders[k]]
            desk.orders.contains_key(k) && !ids.contains(OrderId(k)) implies after.orders[k]
            == desk.orders[k] by {
            assert(ids[0] != OrderId(k));
            if rest.contains(OrderId(k)) {
                let j = rest.index_of(OrderId(k));
                assert(ids[j + 1] == OrderId(k));
            }
            assert(next.orders.contains_key(k));
        }
        assert forall|k: u64|
            #![trigger desk.orders[k].status]
            desk.orders.contains_key(k) && !desk.orders[k].status.live() implies after.orders[k]
            == desk.orders[k] by {
            assert(next.orders[k] == desk.orders[k]);
            assert(!next.orders[k].status.live());
        }
        assert forall|i: int| 0 <= i < ids.len() implies !is_live(
            after.orders,
            #[trigger] ids[i],
        ) by {
            if i == 0 {
                let k = ids[0].0;
                if next.orders.contains_key(k) {
                    assert(!next.orders[k].status.live());
                } else {
                    assert(!after.orders.contains_key(k));
                }
            } else {
                assert(rest[i - 1] == ids[i]);
            }
        }
    }
}

/// Putting an order back on record keeps an engine sound.
pub proof fn lemma_put_back(f: Filling, had: nat, now: Ts)
    requires
        f.desk.sound(),
        f.desk.orders.contains_key(f.order.id.0),
        order_ok(f.order.id.0, f.order),
        f.desk.working.contains(f.order.id),
    ensures
        put_back(f, had, now).desk.sound(),
        put_back(f, had, now).desk.next_id == f.desk.next_id,
        put_back(f, had, now).desk.config == f.desk.config,
        put_back(f, had, now).desk.orders.dom() == f.desk.orders.dom(),
{
    let desk = EngineView { orders: f.desk.orders.insert(f.order.id.0, f.order), ..f.desk };
    assert(desk.orders.dom() =~= f.desk.orders.dom());
    assert(desk.sound());
    if f.made.len() > had {
        if let Some(g) = f.order.oco_group {
            lemma_cancel_each(desk, siblings(desk.working, desk.orders, g, f.order.id), now);
        }
    }
}

/// A limit that trades keeps an engine sound.
pub proof fn lemma_limit_trades(r: Reaction, order: Order, trade: Trade)
    requires
        r.desk.sound(),
        r.desk.orders.contains_key(order.id.0),
        order_ok(order.id.0, order),
        order.status.live(),
        !(order.status is Pending),
        r.desk.working.contains(order.id),
    ensures
        limit_trades(r, order, trade).desk.sound(),
        limit_trades(r, order, trade).ok ==> r.ok,
        limit_trades(r, order, trade).desk.next_id == r.desk.next_id,
        limit_trades(r, order, trade).desk.config == r.desk.config,
        limit_trades(r, order, trade).desk.orders.dom() == r.desk.orders.dom(),
{
    if goes_through(order, trade) {
        let limit = order.kind.limit_of()->0;
        let left = order.qty.0 - order.filled.0;
        let take = if trade.qty.0 < left {
            trade.qty.0 as int
        } else {
            left
        };
        let start = Filling { desk: r.desk, order, made: r.made, ok: r.ok };
        let f = if take > 0 {
            fill_one(start, limit, Qty(take as i64), trade.ts)
        } else {
            start
        };
        assert(f.desk.sound());
        let g = Filling {
            order: if f.order.filled.0 >= f.order.qty.0 {
                ended(f.order, OrderStatus::Filled, trade.ts)
            } else if f.order.filled.0 > 0 {
                Order { status: OrderStatus::PartiallyFilled, ..f.order }
            } else {
                f.order
            },
            ..f
        };
        lemma_put_back(g, r.made.len(), trade.ts);
    }
}

/// A stop-limit that wakes keeps an engine sound.
pub proof fn lemma_stop_limit_wakes(r: Reaction, order: Order, trade: Trade)
    requires
        r.desk.sound(),
        r.desk.orders.contains_key(order.id.0),
        order_ok(order.id.0, order),
        order.status.live(),
        r.desk.working.contains(order.id),
    ensures
        stop_limit_wakes(r, order, trade).desk.sound(),
        stop_limit_wakes(r, order, trade).ok ==> r.ok,
        stop_limit_wakes(r, order, trade).desk.next_id == r.desk.next_id,
        stop_limit_wakes(r, order, trade).desk.config == r.desk.config,
{
    let awake = Order { status: OrderStatus::Working, ..order };
    let desk = EngineView { orders: r.desk.orders.insert(order.id.0, awake), ..r.desk };
    let up = Reaction { desk, ..r };
    assert(desk.sound());
    lemma_cancelled(desk, order.id, trade.ts);
    lemma_limit_trades(up, awake, trade);
    lemma_cancelled(limit_trades(up, awake, trade).desk, order.id, trade.ts);
}

/// What a stop takes is positive, and no more than it wants.
pub proof fn lemma_stop_plan(desk: EngineView, order: Order, book: BookView)
    requires
        book.wf(),
        order_ok(order.id.0, order),
        order.status.live(),
    ensures
        all_positive(stop_plan(desk, order, book)),
        order.filled.0 + planned(stop_plan(desk, order, book)) <= order.qty.0,
{
    lemma_plan(desk.config, order.side, order.qty.0 - order.filled.0, book);
}

/// A stop that fires keeps an engine sound.
pub proof fn lemma_stop_fires(r: Reaction, order: Order, trade: Trade, book: BookView)
    requires
        r.desk.sound(),
        book.wf(),
        r.desk.orders.contains_key(order.id.0),
        order_ok(order.id.0, order),
        order.status.live(),
        r.desk.working.contains(order.id),
    ensures
        stop_fires(r, order, trade, book).desk.sound(),
        stop_fires(r, order, trade, book).ok ==> r.ok,
        stop_fires(r, order, trade, book).desk.next_id == r.desk.next_id,
        stop_fires(r, order, trade, book).desk.config == r.desk.config,
{
    let start = Filling { desk: r.desk, order, made: r.made, ok: r.ok };
    let plan = stop_plan(r.desk, order, book);
    lemma_stop_plan(r.desk, order, book);
    lemma_fill_all_ok(start, plan, trade.ts);
    lemma_fill_all_keeps(start, plan, trade.ts);
    let f = fill_all(start, plan, trade.ts);
    assert(f.desk.sound());
    lemma_put_back(
        Filling { order: closed_out(f.order, trade.ts), ..f },
        r.made.len(),
        trade.ts,
    );
}

/// What a trade does to one order keeps an engine sound.
pub proof fn lemma_react(r: Reaction, id: OrderId, trade: Trade, book: BookView)
    requires
        r.desk.sound(),
        book.wf(),
    ensures
        react(r, id, trade, book).desk.sound(),
        react(r, id, trade, book).ok ==> r.ok,
        react(r, id, trade, book).desk.next_id == r.desk.next_id,
        react(r, id, trade, book).desk.config == r.desk.config,
{
    if is_live(r.desk.orders, id) {
        let order = r.desk.orders[id.0];
        assert(order_ok(id.0, order));
        assert(order.id == id);
        assert(r.desk.working.contains(OrderId(id.0)));
        if order.status is Pending {
            if triggers(order, trade) {
                if order.kind is Stop {
                    lemma_stop_fires(r, order, trade, book);
                } else {
                    lemma_stop_limit_wakes(r, order, trade);
                }
            }
        } else {
            lemma_limit_trades(r, order, trade);
        }
    }
}

/// What a trade does to several orders keeps an engine sound.
pub proof fn lemma_react_all(r: Reaction, ids: Seq<OrderId>, trade: Trade, book: BookView)
    requires
        r.desk.sound(),
        book.wf(),
    ensures
        react_all(r, ids, trade, book).desk.sound(),
        react_all(r, ids, trade, book).ok ==> r.ok,
        react_all(r, ids, trade, book).desk.next_id == r.desk.next_id,
        react_all(r, ids, trade, book).desk.config == r.desk.config,
    decreases ids.len(),
{
    if ids.len() > 0 {
        lemma_react(r, ids[0], trade, book);
        lemma_react_all(react(r, ids[0], trade, book), ids.drop_first(), trade, book);
    }
}

/// Recording a placed order keeps an engine well formed.
pub proof fn lemma_recorded(f: Filling, now: Ts)
    requires
        f.desk.wf(),
        !f.desk.orders.contains_key(f.order.id.0),
        f.order.id.0 < f.desk.next_id,
        order_ok(f.order.id.0, f.order),
    ensures
        recorded(f, now).wf(),
{
    let desk = EngineView {
        orders: f.desk.orders.insert(f.order.id.0, f.order),
        working: if f.order.status.live() {
            f.desk.working.push(f.order.id)
        } else {
            f.desk.working
        },
        ..f.desk
    };
    assert forall|i: int| 0 <= i < desk.working.len() implies is_live(
        desk.orders,
        #[trigger] desk.working[i],
    ) by {
        if i < f.desk.working.len() {
            assert(is_live(f.desk.orders, f.desk.working[i]));
        }
    }
    assert(desk.working.no_duplicates()) by {
        assert forall|a: int, b: int|
            0 <= a < desk.working.len() && 0 <= b < desk.working.len() && a != b implies
            desk.working[a] != desk.working[b] by {
            if a < f.desk.working.len() {
                assert(is_live(f.desk.orders, f.desk.working[a]));
            }
            if b < f.desk.working.len() {
                assert(is_live(f.desk.orders, f.desk.working[b]));
            }
        }
    }
    assert forall|id: u64| #[trigger]
        desk.orders.contains_key(id) && desk.orders[id].status.live() implies desk.working.contains(
        OrderId(id),
    ) by {
        if id == f.order.id.0 {
            assert(desk.working[desk.working.len() - 1] == OrderId(id));
        } else {
            assert(f.desk.orders.contains_key(id));
            let j = f.desk.working.index_of(OrderId(id));
            assert(f.desk.working.contains(OrderId(id)));
            assert(desk.working[j] == OrderId(id));
        }
    }
    assert(desk.wf());
    if f.made.len() > 0 {
        if let Some(g) = f.order.oco_group {
            lemma_cancel_each(desk, siblings(desk.working, desk.orders, g, f.order.id), now);
        }
    }
}

/// A submission keeps an engine well formed, whatever becomes of it.
pub proof fn lemma_submission_wf(
    before: EngineView,
    request: OrderRequest,
    book: BookView,
    now: Ts,
)
    requires
        before.wf(),
        book.wf(),
        submission(before, request, book, now).ok,
    ensures
        submission(before, request, book, now).desk.wf(),
{
    let desk = EngineView { now, ..before };
    if request_refusal(desk, request) is None {
        let numbered = EngineView { next_id: (desk.next_id + 1) as u64, ..desk };
        if let Ok(plan) = opening_plan(desk, request, book) {
            let order = order_for(request, OrderId(desk.next_id), now);
            lemma_plan(desk.config, request.side, request.qty.0 as int, book);
            let start = Filling { desk: numbered, order, made: Seq::<Fill>::empty(), ok: true };
            lemma_fill_all_keeps(start, plan, now);
            assert(numbered.wf());
            let f = placed(numbered, order, plan, now);
            assert(f.desk.wf());
            lemma_recorded(f, now);
        }
    }
}

impl EngineView {
    /// Realised plus unrealised PnL at the last price, net of commission.
    pub open spec fn net_pnl(self) -> int {
        self.gross_pnl() - self.position.commission.0
    }

    /// Realised plus unrealised PnL at the last price.
    pub open spec fn gross_pnl(self) -> int {
        self.position.realised.0 + match self.last_price {
            Some(p) => self.position.open_pnl(p),
            None => 0,
        }
    }

    /// Whether PnL is representable.
    pub open spec fn pnl_fits(self) -> bool {
        &&& self.last_price is Some ==> self.position.qty.0 != i64::MIN
        &&& in_range(self.gross_pnl())
        &&& in_range(self.net_pnl())
    }
}

} // verus!
