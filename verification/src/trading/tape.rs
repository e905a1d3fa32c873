//! What a trade on the tape does to the orders at work, in terms of their prices
//! and its price and size.

use crate::primitives::fixed::{Price, Qty};
use crate::primitives::market::{Side, Trade};
use crate::primitives::time::Ts;
use crate::trading::order::{Fill, Order, OrderId, OrderStatus, OrderType};
use vstd::prelude::*;

verus! {

use crate::primitives::book::BookView;
use crate::trading::desk::{
    cancel_count, cancel_each, cancelled, closed_out, commission_of, ended, fill_all, fill_one,
    is_live, is_sibling, lemma_cancel_each, lemma_cancelled, lemma_facing, lemma_fill_all_keeps,
    lemma_limit_trades, lemma_plan, lemma_pruned_wf, lemma_react, lemma_react_all, lemma_stop_plan,
    limit_trades, order_filled, order_ok, planned, put_back, react, react_all, stop_fires,
    stop_limit_wakes, stop_plan, submission, taken_from, traded, without_siblings, EngineView, Filling,
    Reaction,
};
use crate::trading::engine::flattened;
use crate::trading::laws::{law_a_plan_takes_what_is_there, law_one_cancels_the_others};
use crate::trading::matching::{
    against, best_first, law_a_submitted_order_is_on_record,
    law_an_order_takes_the_best_that_it_can_reach, lemma_best_first, lemma_cancel_keeps_price,
    lemma_fills_of_plan, lemma_reach, lemma_taken_whole, size_of, smaller,
};
use crate::trading::pnl::{is_whole_part, lemma_average};

/// The limit of an order that has one.
pub open spec fn limit_in(kind: OrderType) -> Option<Price> {
    match kind {
        OrderType::Limit { price } => Some(price),
        OrderType::StopLimit { limit, .. } => Some(limit),
        _ => None,
    }
}

/// The trigger of an order that has one.
pub open spec fn trigger_in(kind: OrderType) -> Option<Price> {
    match kind {
        OrderType::Stop { trigger } => Some(trigger),
        OrderType::StopLimit { trigger, .. } => Some(trigger),
        _ => None,
    }
}

/// Whether an order can still trade.
pub open spec fn at_work(order: Order) -> bool {
    order.status is Pending || order.status is Working || order.status is PartiallyFilled
}

/// Whether a trade is beyond an order's limit: below what a buyer would pay,
/// above what a seller would take.
pub open spec fn is_beyond(order: Order, trade: Trade) -> bool {
    match limit_in(order.kind) {
        Some(limit) => match order.side {
            Side::Buy => trade.price.0 < limit.0,
            Side::Sell => trade.price.0 > limit.0,
        },
        None => false,
    }
}

/// Whether a trade is at an order's trigger or past it: up for a buyer, down for
/// a seller.
pub open spec fn sets_off(order: Order, trade: Trade) -> bool {
    match trigger_in(order.kind) {
        Some(trigger) => match order.side {
            Side::Buy => trade.price.0 >= trigger.0,
            Side::Sell => trade.price.0 <= trigger.0,
        },
        None => false,
    }
}

/// What an order at work looks like after a trade that it meets on its own. One
/// that rests at a limit fills by no more than the trade's size, and only where
/// the trade is beyond the limit. One that waits for a trigger is left alone
/// until a trade sets it off. A stop then takes what the book holds and is done;
/// a stop-limit rests if it may, and is done with this trade if it may not.
pub open spec fn is_after(order: Order, after: Order, trade: Trade, book: BookView) -> bool {
    let gain = after.filled.0 - order.filled.0;
    let left = order.qty.0 - order.filled.0;
    let size = if trade.qty.0 > 0 {
        trade.qty.0 as int
    } else {
        0
    };
    let whole = is_beyond(order, trade) && left <= size;
    let held = size_of(against(book, order.side));
    &&& after.id == order.id
    &&& after.side == order.side
    &&& after.kind == order.kind
    &&& after.qty == order.qty
    &&& after.tif == order.tif
    &&& after.created == order.created
    &&& after.oco_group == order.oco_group
    &&& after.reject_reason == order.reject_reason
    &&& after.status is Filled <==> after.filled == after.qty
    &&& after.closed == if at_work(after) {
        order.closed
    } else {
        Some(trade.ts)
    }
    &&& if order.status is Pending && !sets_off(order, trade) {
        after == order
    } else if order.status is Pending && order.kind is Stop {
        &&& !at_work(after)
        &&& gain == if left <= held {
            left
        } else if order.tif is Fok {
            0
        } else {
            held
        }
    } else if order.status is Pending && order.tif is Fok && !whole {
        gain == 0 && after.status is Cancelled
    } else if !is_beyond(order, trade) {
        &&& gain == 0
        &&& order.status is Pending ==> after.status == if order.tif is Gtc {
            OrderStatus::Working
        } else {
            OrderStatus::Cancelled
        }
        &&& !(order.status is Pending) ==> after == order
    } else {
        &&& gain == smaller(left, size)
        &&& gain < left ==> after.status == if order.status is Pending && !(order.tif is Gtc) {
            OrderStatus::Cancelled
        } else if after.filled.0 > 0 {
            OrderStatus::PartiallyFilled
        } else if order.status is Pending {
            OrderStatus::Working
        } else {
            order.status
        }
    }
}

proof fn lemma_put_back_keeps(f: Filling, had: nat, now: Ts)
    requires
        f.desk.sound(),
        f.desk.orders.contains_key(f.order.id.0),
        order_ok(f.order.id.0, f.order),
        f.desk.working.contains(f.order.id),
    ensures
        put_back(f, had, now).desk.orders.contains_key(f.order.id.0),
        put_back(f, had, now).desk.orders[f.order.id.0] == f.order,
        put_back(f, had, now).desk.position == f.desk.position,
        put_back(f, had, now).desk.last_price == f.desk.last_price,
        put_back(f, had, now).desk.fills == f.desk.fills,
        forall|k: u64|
            #![trigger put_back(f, had, now).desk.orders[k]]
            f.desk.orders.contains_key(k) && k != f.order.id.0 && (f.desk.orders[k].oco_group
                is None || f.desk.orders[k].oco_group != f.order.oco_group)
                ==> put_back(f, had, now).desk.orders[k] == f.desk.orders[k],
{
    let desk = EngineView { orders: f.desk.orders.insert(f.order.id.0, f.order), ..f.desk };
    assert(desk.sound());
    if f.made.len() > had {
        if let Some(g) = f.order.oco_group {
            law_one_cancels_the_others(desk, f.order.id, g, now);
            let ids = crate::trading::desk::siblings(desk.working, desk.orders, g, f.order.id);
            lemma_cancel_each(desk, ids, now);
            lemma_cancel_keeps_price(desk, ids, now);
            assert(!is_sibling(desk.orders, f.order.id, g, f.order.id));
            let after = without_siblings(desk, f.order.id, Some(g), now);
            assert(after.orders[f.order.id.0] == f.order);
            assert forall|k: u64|
                #![trigger after.orders[k]]
                f.desk.orders.contains_key(k) && k != f.order.id.0 && (f.desk.orders[k].oco_group
                    is None || f.desk.orders[k].oco_group
                    != f.order.oco_group) implies after.orders[k] == f.desk.orders[k] by {
                assert(desk.orders[k] == f.desk.orders[k]);
                assert(!is_sibling(desk.orders, OrderId(k), g, f.order.id));
            }
        }
    }
}

/// The fill that a resting order gets, and what is then on record.
proof fn lemma_limit_after(r: Reaction, order: Order, trade: Trade, book: BookView)
    requires
        r.desk.sound(),
        r.desk.orders.contains_key(order.id.0),
        r.desk.orders[order.id.0] == order,
        order_ok(order.id.0, order),
        order.status.live(),
        !(order.status is Pending),
        r.desk.working.contains(order.id),
    ensures
        ({
            let a = limit_trades(r, order, trade);
            &&& a.desk.orders.contains_key(order.id.0)
            &&& is_after(order, a.desk.orders[order.id.0], trade, book)
            &&& forall|k: u64|
                #![trigger a.desk.orders[k]]
                r.desk.orders.contains_key(k) && k != order.id.0 && (r.desk.orders[k].oco_group
                    is None || r.desk.orders[k].oco_group != order.oco_group)
                    ==> a.desk.orders[k] == r.desk.orders[k]
        }),
{
    if is_beyond(order, trade) {
        let limit = limit_in(order.kind)->0;
        let left = order.qty.0 - order.filled.0;
        let take = if trade.qty.0 < left {
            trade.qty.0 as int
        } else {
            left
        };
        let start = Filling { desk: r.desk, order, made: r.made, ok: r.ok };
        let f = if take > 0 {
            fill_one(start, limit, Qty(take as i64), trade.ts)
        } else {
            start
        };
        assert(f.desk.sound());
        let g = Filling {
            order: if f.order.filled.0 >= f.order.qty.0 {
                ended(f.order, OrderStatus::Filled, trade.ts)
            } else if f.order.filled.0 > 0 {
                Order { status: OrderStatus::PartiallyFilled, ..f.order }
            } else {
                f.order
            },
            ..f
        };
        assert(order.kind.limit_of() == limit_in(order.kind));
        assert(limit_trades(r, order, trade) == put_back(g, r.made.len(), trade.ts));
        lemma_put_back_keeps(g, r.made.len(), trade.ts);
    } else {
        assert(order.kind.limit_of() == limit_in(order.kind));
    }
}

/// What a trade does to an order that it comes to, and to no other outside its
/// group: see [`is_after`], which for a stop is what it takes where it may walk the
/// book.
pub proof fn law_an_order_meets_a_trade(r: Reaction, id: OrderId, trade: Trade, book: BookView)
    requires
        r.desk.sound(),
        book.wf(),
        r.desk.orders.contains_key(id.0),
    ensures
        ({
            let order = r.desk.orders[id.0];
            let a = react(r, id, trade, book);
            &&& a.desk.orders.contains_key(id.0)
            &&& at_work(order) && (r.desk.config.allow_book_walk || !(order.kind is Stop))
                ==> is_after(order, a.desk.orders[id.0], trade, book)
            &&& !at_work(order) ==> a == r
            &&& forall|k: u64|
                #![trigger a.desk.orders[k]]
                r.desk.orders.contains_key(k) && k != id.0 && (r.desk.orders[k].oco_group is None
                    || r.desk.orders[k].oco_group != order.oco_group) ==> a.desk.orders[k]
                    == r.desk.orders[k]
        }),
{
    let order = r.desk.orders[id.0];
    assert(order_ok(id.0, order));
    assert(order.id == id);
    assert(order.kind.trigger_of() == trigger_in(order.kind));
    if at_work(order) {
        assert(r.desk.working.contains(OrderId(id.0)));
        if order.status is Pending {
            if sets_off(order, trade) {
                if order.kind is Stop {
                    lemma_stop_after(r, order, trade, book);
                } else {
                    lemma_wake_after(r, order, trade, book);
                }
            }
        } else {
            lemma_limit_after(r, order, trade, book);
        }
    }
}

proof fn lemma_stop_after(r: Reaction, order: Order, trade: Trade, book: BookView)
    requires
        r.desk.sound(),
        book.wf(),
        r.desk.orders.contains_key(order.id.0),
        r.desk.orders[order.id.0] == order,
        order_ok(order.id.0, order),
        order.status is Pending,
        order.kind is Stop,
        sets_off(order, trade),
        r.desk.working.contains(order.id),
    ensures
        ({
            let a = stop_fires(r, order, trade, book);
            &&& a.desk.orders.contains_key(order.id.0)
            &&& r.desk.config.allow_book_walk ==> is_after(
                order,
                a.desk.orders[order.id.0],
                trade,
                book,
            )
            &&& forall|k: u64|
                #![trigger a.desk.orders[k]]
                r.desk.orders.contains_key(k) && k != order.id.0 && (r.desk.orders[k].oco_group
                    is None || r.desk.orders[k].oco_group != order.oco_group)
                    ==> a.desk.orders[k] == r.desk.orders[k]
        }),
{
    let left = order.qty.0 - order.filled.0;
    let plan = stop_plan(r.desk, order, book);
    let start = Filling { desk: r.desk, order, made: r.made, ok: r.ok };
    lemma_stop_plan(r.desk, order, book);
    lemma_plan(r.desk.config, order.side, left, book);
    lemma_fill_all_keeps(start, plan, trade.ts);
    lemma_fill_all_order(start, plan, trade.ts);
    lemma_facing(book, order.side);
    lemma_reach(book, order.side, Price(0));
    law_a_plan_takes_what_is_there(crate::trading::desk::facing(book, order.side), left);
    let f = fill_all(start, plan, trade.ts);
    let g = Filling { order: closed_out(f.order, trade.ts), ..f };
    assert(g.desk.sound());
    lemma_put_back_keeps(g, r.made.len(), trade.ts);
}

proof fn lemma_fill_all_order(f: Filling, plan: Seq<(Price, Qty)>, now: Ts)
    ensures
        fill_all(f, plan, now).order.created == f.order.created,
        fill_all(f, plan, now).order.closed == f.order.closed,
        fill_all(f, plan, now).order.reject_reason == f.order.reject_reason,
    decreases plan.len(),
{
    if plan.len() > 0 {
        lemma_fill_all_order(fill_one(f, plan[0].0, plan[0].1, now), plan.drop_first(), now);
    }
}

proof fn lemma_wake_after(r: Reaction, order: Order, trade: Trade, book: BookView)
    requires
        r.desk.sound(),
        r.desk.orders.contains_key(order.id.0),
        r.desk.orders[order.id.0] == order,
        order_ok(order.id.0, order),
        order.status is Pending,
        order.kind is StopLimit,
        sets_off(order, trade),
        r.desk.working.contains(order.id),
    ensures
        ({
            let a = stop_limit_wakes(r, order, trade);
            &&& a.desk.orders.contains_key(order.id.0)
            &&& is_after(order, a.desk.orders[order.id.0], trade, book)
            &&& forall|k: u64|
                #![trigger a.desk.orders[k]]
                r.desk.orders.contains_key(k) && k != order.id.0 && (r.desk.orders[k].oco_group
                    is None || r.desk.orders[k].oco_group != order.oco_group)
                    ==> a.desk.orders[k] == r.desk.orders[k]
        }),
{
    let awake = Order { status: OrderStatus::Working, ..order };
    let desk = EngineView { orders: r.desk.orders.insert(order.id.0, awake), ..r.desk };
    let up = Reaction { desk, ..r };
    assert(desk.sound());
    assert(desk.working.contains(awake.id));
    assert(order.kind.limit_of() == limit_in(order.kind));
    lemma_limit_after(up, awake, trade, book);
    lemma_limit_trades(up, awake, trade);
    let mid = limit_trades(up, awake, trade);
    lemma_cancelled(mid.desk, order.id, trade.ts);
    lemma_cancelled(desk, order.id, trade.ts);
    let a = stop_limit_wakes(r, order, trade);
    assert forall|k: u64|
        #![trigger a.desk.orders[k]]
        r.desk.orders.contains_key(k) && k != order.id.0 && (r.desk.orders[k].oco_group is None
            || r.desk.orders[k].oco_group != order.oco_group) implies a.desk.orders[k]
        == r.desk.orders[k] by {
        assert(desk.orders[k] == r.desk.orders[k]);
        assert(mid.desk.orders[k] == desk.orders[k]);
        assert(mid.desk.orders.contains_key(k));
    }
}

proof fn lemma_react_all_one(
    r: Reaction,
    ids: Seq<OrderId>,
    trade: Trade,
    book: BookView,
    k: u64,
)
    requires
        r.desk.sound(),
        book.wf(),
        ids.no_duplicates(),
        forall|i: int| 0 <= i < ids.len() ==> r.desk.orders.contains_key((#[trigger] ids[i]).0),
        r.desk.orders.contains_key(k),
        r.desk.orders[k].oco_group is None,
        r.desk.config.allow_book_walk || !(r.desk.orders[k].kind is Stop),
    ensures
        ({
            let a = react_all(r, ids, trade, book);
            &&& a.desk.orders.contains_key(k)
            &&& ids.contains(OrderId(k)) && at_work(r.desk.orders[k]) ==> is_after(
                r.desk.orders[k],
                a.desk.orders[k],
                trade,
                book,
            )
            &&& !ids.contains(OrderId(k)) || !at_work(r.desk.orders[k]) ==> a.desk.orders[k]
                == r.desk.orders[k]
        }),
    decreases ids.len(),
{
    if ids.len() > 0 {
        let next = react(r, ids[0], trade, book);
        let rest = ids.drop_first();
        law_an_order_meets_a_trade(r, ids[0], trade, book);
        lemma_react(r, ids[0], trade, book);
        lemma_react_domain(r, ids[0], trade, book);
        assert(rest.no_duplicates()) by {
            assert forall|a: int, b: int|
                0 <= a < rest.len() && 0 <= b < rest.len() && a != b implies rest[a]
                != rest[b] by {
                assert(ids[a + 1] != ids[b + 1]);
            }
        }
        assert forall|i: int| 0 <= i < rest.len() implies next.desk.orders.contains_key(
            (#[trigger] rest[i]).0,
        ) by {
            assert(rest[i] == ids[i + 1]);
        }
        assert(next.desk.orders.contains_key(k));
        if ids[0].0 == k {
            assert(!rest.contains(OrderId(k))) by {
                if rest.contains(OrderId(k)) {
                    let j = rest.index_of(OrderId(k));
                    assert(ids[j + 1] != ids[0]);
                }
            }
            assert(ids[0] == OrderId(k));
            assert(ids.contains(OrderId(k)));
            lemma_kept_group(r.desk.orders[k], next.desk.orders[k], trade, book);
            lemma_react_all_one(next, rest, trade, book, k);
        } else {
            assert(next.desk.orders[k] == r.desk.orders[k]);
            lemma_react_all_one(next, rest, trade, book, k);
            if ids.contains(OrderId(k)) {
                let j = ids.index_of(OrderId(k));
                assert(rest[j - 1] == OrderId(k));
            }
            if rest.contains(OrderId(k)) {
                let j = rest.index_of(OrderId(k));
                assert(ids[j + 1] == OrderId(k));
            }
        }
    }
}

proof fn lemma_kept_group(order: Order, after: Order, trade: Trade, book: BookView)
    ensures
        is_after(order, after, trade, book) ==> after.oco_group == order.oco_group,
{
}

proof fn lemma_react_domain(r: Reaction, id: OrderId, trade: Trade, book: BookView)
    requires
        r.desk.sound(),
        book.wf(),
    ensures
        react(r, id, trade, book).desk.orders.dom() == r.desk.orders.dom(),
{
    if is_live(r.desk.orders, id) {
        let order = r.desk.orders[id.0];
        assert(order_ok(id.0, order));
        assert(order.id == id);
        assert(r.desk.working.contains(OrderId(id.0)));
        if order.status is Pending {
            if crate::trading::desk::triggers(order, trade) {
                if order.kind is Stop {
                    let start = Filling { desk: r.desk, order, made: r.made, ok: r.ok };
                    let plan = stop_plan(r.desk, order, book);
                    lemma_stop_plan(r.desk, order, book);
                    lemma_fill_all_keeps(start, plan, trade.ts);
                    let f = fill_all(start, plan, trade.ts);
                    let g = Filling { order: closed_out(f.order, trade.ts), ..f };
                    assert(g.desk.sound());
                    crate::trading::desk::lemma_put_back(g, r.made.len(), trade.ts);
                } else {
                    let awake = Order { status: OrderStatus::Working, ..order };
                    let desk = EngineView { orders: r.desk.orders.insert(id.0, awake), ..r.desk };
                    let up = Reaction { desk, ..r };
                    assert(desk.sound());
                    assert(desk.orders.dom() =~= r.desk.orders.dom());
                    lemma_limit_trades(up, awake, trade);
                    lemma_cancelled(desk, id, trade.ts);
                    lemma_cancelled(limit_trades(up, awake, trade).desk, id, trade.ts);
                }
            }
        } else {
            lemma_limit_trades(r, order, trade);
        }
    }
}

/// A trade on the tape reaches every order at work. Each that stands alone, in no
/// group, comes out of it as [`is_after`] says; orders that were done before stay
/// as they were. The clock and the last price follow the trade, the latter unless
/// something filled.
pub proof fn law_every_order_meets_the_tape(
    before: EngineView,
    trade: Trade,
    book: BookView,
    k: u64,
)
    requires
        before.wf(),
        book.wf(),
        before.orders.contains_key(k),
        before.orders[k].oco_group is None,
        before.config.allow_book_walk || !(before.orders[k].kind is Stop),
    ensures
        ({
            let a = traded(before, trade, book).desk;
            &&& a.orders.contains_key(k)
            &&& at_work(before.orders[k]) ==> is_after(
                before.orders[k],
                a.orders[k],
                trade,
                book,
            )
            &&& !at_work(before.orders[k]) ==> a.orders[k] == before.orders[k]
            &&& a.working.contains(OrderId(k)) <==> at_work(a.orders[k])
        }),
{
    let desk = EngineView { now: trade.ts, last_price: Some(trade.price), ..before };
    let start = Reaction { desk, made: Seq::<Fill>::empty(), ok: true };
    assert(desk.sound());
    assert forall|i: int| 0 <= i < before.working.len() implies desk.orders.contains_key(
        (#[trigger] before.working[i]).0,
    ) by {
        assert(is_live(before.orders, before.working[i]));
    }
    lemma_react_all_one(start, before.working, trade, book, k);
    lemma_react_all(start, before.working, trade, book);
    let mid = react_all(start, before.working, trade, book).desk;
    lemma_pruned_wf(mid);
    let a = traded(before, trade, book).desk;
    if at_work(before.orders[k]) {
        assert(before.working.contains(OrderId(k)));
    }
    if at_work(a.orders[k]) {
        assert(a.working.contains(OrderId(k)));
    }
    if a.working.contains(OrderId(k)) {
        let j = a.working.index_of(OrderId(k));
        assert(is_live(a.orders, a.working[j]));
    }
}

/// What a resting order fills with: its own price, the smaller of what is left of
/// it and the trade's size, on its own side, at the time of the trade. The
/// position changes by that much.
pub proof fn law_a_resting_order_fills_at_its_limit(r: Reaction, order: Order, trade: Trade)
    requires
        r.desk.sound(),
        r.desk.orders.contains_key(order.id.0),
        order_ok(order.id.0, order),
        order.status is Working || order.status is PartiallyFilled,
        r.desk.working.contains(order.id),
        trade.qty.0 > 0,
        limit_trades(r, order, trade).ok,
    ensures
        ({
            let a = limit_trades(r, order, trade);
            let size = smaller(order.qty.0 - order.filled.0, trade.qty.0 as int);
            &&& !is_beyond(order, trade) ==> a == r
            &&& is_beyond(order, trade) ==> {
                let fill = a.made.last();
                &&& a.made.drop_last() == r.made
                &&& fill.price == limit_in(order.kind)->0
                &&& fill.qty.0 == size
                &&& fill.side == order.side
                &&& fill.ts == trade.ts
                &&& fill.order_id == order.id
                &&& fill.commission == commission_of(r.desk.config, fill.price, fill.qty)
                &&& a.desk.last_price == limit_in(order.kind)
                &&& a.desk.fills == r.desk.fills.push(fill)
                &&& a.desk.position.qty.0 - r.desk.position.qty.0 == match order.side {
                    Side::Buy => size,
                    Side::Sell => -size,
                }
            }
        }),
{
    assert(order.kind.limit_of() == limit_in(order.kind));
    if is_beyond(order, trade) {
        let limit = limit_in(order.kind)->0;
        let left = order.qty.0 - order.filled.0;
        let take = smaller(left, trade.qty.0 as int);
        let start = Filling { desk: r.desk, order, made: r.made, ok: r.ok };
        let f = fill_one(start, limit, Qty(take as i64), trade.ts);
        assert(f.desk.sound());
        let g = Filling {
            order: if f.order.filled.0 >= f.order.qty.0 {
                ended(f.order, OrderStatus::Filled, trade.ts)
            } else {
                Order { status: OrderStatus::PartiallyFilled, ..f.order }
            },
            ..f
        };
        assert(limit_trades(r, order, trade) == put_back(g, r.made.len(), trade.ts));
        lemma_put_back_keeps(g, r.made.len(), trade.ts);
        crate::trading::matching::lemma_signed(take, order.side);
        assert(f.made.drop_last() =~= r.made);
    }
}

/// Once an order of a group filled, complete or not, every other order of that
/// group is done, and no order outside it was touched.
pub proof fn law_a_group_ends_with_its_first_fill(
    r: Reaction,
    id: OrderId,
    group: u64,
    trade: Trade,
    book: BookView,
    k: u64,
)
    requires
        r.desk.sound(),
        book.wf(),
        r.desk.orders.contains_key(id.0),
        r.desk.orders[id.0].oco_group == Some(group),
        react(r, id, trade, book).made.len() > r.made.len(),
        react(r, id, trade, book).desk.orders.contains_key(k),
        k != id.0,
    ensures
        react(r, id, trade, book).desk.orders[k].oco_group == Some(group) ==> !at_work(
            react(r, id, trade, book).desk.orders[k],
        ),
        r.desk.orders.contains_key(k) && r.desk.orders[k].oco_group != Some(group) ==> react(
            r,
            id,
            trade,
            book,
        ).desk.orders[k] == r.desk.orders[k],
{
    crate::trading::laws::law_a_fill_clears_the_group(r, id, group, trade, book);
    law_an_order_meets_a_trade(r, id, trade, book);
    let after = react(r, id, trade, book).desk.orders;
    assert(!is_sibling(after, OrderId(k), group, id));
}

/// The same of a request that fills as it comes in.
pub proof fn law_a_group_ends_with_a_request_that_fills(
    before: EngineView,
    request: crate::trading::order::OrderRequest,
    group: u64,
    book: BookView,
    now: Ts,
    k: u64,
)
    requires
        before.wf(),
        book.wf(),
        request.oco_group == Some(group),
        submission(before, request, book, now).ok,
        submission(before, request, book, now).result is Ok,
        before.orders.contains_key(k),
    ensures
        ({
            let s = submission(before, request, book, now);
            let was = before.orders[k];
            let is = s.desk.orders[k];
            let filled = s.result->Ok_0.1.len() > 0;
            &&& s.desk.orders.contains_key(k)
            &&& filled && was.oco_group == Some(group) ==> !at_work(is)
            &&& !filled || was.oco_group != Some(group) || !at_work(was) ==> is == was
        }),
{
    let desk = EngineView { now, ..before };
    let numbered = EngineView { next_id: (desk.next_id + 1) as u64, ..desk };
    let order = crate::trading::desk::order_for(request, OrderId(desk.next_id), now);
    let plan = crate::trading::desk::opening_plan(desk, request, book)->Ok_0;
    let start = Filling { desk: numbered, order, made: Seq::<Fill>::empty(), ok: true };
    lemma_plan(desk.config, request.side, request.qty.0 as int, book);
    lemma_fill_all_keeps(start, plan, now);
    let f = crate::trading::desk::placed(numbered, order, plan, now);
    let bare = crate::trading::desk::recorded(Filling { made: Seq::<Fill>::empty(), ..f }, now);
    crate::trading::desk::lemma_recorded(Filling { made: Seq::<Fill>::empty(), ..f }, now);
    assert(bare.orders[k] == before.orders[k]);
    assert(bare.orders.contains_key(k));
    if f.made.len() > 0 {
        let ids = crate::trading::desk::siblings(bare.working, bare.orders, group, f.order.id);
        lemma_cancel_each(bare, ids, now);
        law_one_cancels_the_others(bare, f.order.id, group, now);
        let after = without_siblings(bare, f.order.id, Some(group), now);
        assert(after.orders.contains_key(k));
        assert(!is_sibling(after.orders, OrderId(k), group, f.order.id));
        if before.orders[k].oco_group != Some(group) || !at_work(before.orders[k]) {
            assert(!is_sibling(bare.orders, OrderId(k), group, f.order.id));
            assert(after.orders[k] == bare.orders[k]);
        } else {
            lemma_cancel_group(bare, ids, now, k);
        }
    }
}

proof fn lemma_cancel_group(desk: EngineView, ids: Seq<OrderId>, now: Ts, k: u64)
    requires
        desk.orders.contains_key(k),
    ensures
        cancel_each(desk, ids, now).orders.contains_key(k),
        cancel_each(desk, ids, now).orders[k].oco_group == desk.orders[k].oco_group,
    decreases ids.len(),
{
    if ids.len() > 0 {
        lemma_cancel_group(cancelled(desk, ids[0], now), ids.drop_first(), now, k);
    }
}

/// Cancelling ends an order at work and leaves what it filled; an order that is
/// done or unknown stays as it is, and so does every other order, the position,
/// the fills and the last price.
pub proof fn law_cancelling_ends_one_order(desk: EngineView, id: OrderId, now: Ts, k: u64)
    requires
        desk.wf(),
        desk.orders.contains_key(k),
    ensures
        ({
            let after = cancelled(desk, id, now);
            let was = desk.orders[k];
            &&& after.orders.contains_key(k)
            &&& after.orders[k] == if k == id.0 && at_work(was) {
                Order { status: OrderStatus::Cancelled, closed: Some(now), ..was }
            } else {
                was
            }
            &&& after.working.contains(OrderId(k)) <==> at_work(after.orders[k])
            &&& after.position == desk.position
            &&& after.fills == desk.fills
            &&& after.last_price == desk.last_price
            &&& after.next_id == desk.next_id
        }),
{
    lemma_cancelled(desk, id, now);
    let after = cancelled(desk, id, now);
    if at_work(after.orders[k]) {
        assert(after.orders.contains_key(k));
        assert(after.working.contains(OrderId(k)));
    }
    if after.working.contains(OrderId(k)) {
        let j = after.working.index_of(OrderId(k));
        assert(is_live(after.orders, after.working[j]));
    }
}

/// An order can still trade exactly where it is pending, working or partly
/// filled.
pub proof fn law_live_orders_are_at_work(order: Order)
    ensures
        order.status.live() <==> at_work(order),
        order.kind.limit_of() == limit_in(order.kind),
        order.kind.trigger_of() == trigger_in(order.kind),
{
}

/// Flattening leaves no order at work. Where the book holds the size, the
/// position is closed as well, by fills on the other side that add up to it;
/// where the position was flat already, nothing trades.
pub proof fn law_flattening_closes_the_position(before: EngineView, book: BookView, now: Ts)
    requires
        before.wf(),
        book.wf(),
        before.config.allow_book_walk,
        before.position.qty.0 != i64::MIN,
        flattened(before, book, now).ok,
        flattened(before, book, now).fills is Ok,
    ensures
        ({
            let a = flattened(before, book, now);
            let fills = a.fills->Ok_0;
            let held = before.position.qty.0;
            let size = if held < 0 {
                -held
            } else {
                held as int
            };
            let exit = if held > 0 {
                Side::Sell
            } else {
                Side::Buy
            };
            &&& forall|i: int|
                0 <= i < fills.len() ==> (#[trigger] fills[i]).side == exit && fills[i].ts == now
            &&& held == 0 ==> fills.len() == 0 && a.desk.position == before.position
            &&& size_of(against(book, exit)) >= size ==> a.desk.position.qty.0 == 0
            &&& a.desk.working.len() == 0
        }),
{
    let desk = cancel_each(before, before.working, now);
    crate::trading::laws::law_cancel_all_leaves_nothing_working(before, now);
    lemma_cancel_each(before, before.working, now);
    if before.position.qty.0 != 0 {
        let request = crate::trading::engine::exit_request(desk.position);
        assert(desk.wf());
        law_an_order_takes_the_best_that_it_can_reach(desk, request, book, now);
        law_a_submitted_order_is_on_record(desk, request, book, now);
        crate::trading::desk::lemma_submission_wf(desk, request, book, now);
        let a = submission(desk, request, book, now);
        let (order, fills) = a.result->Ok_0;
        lemma_working_only_grows(desk, request, book, now);
    }
}

proof fn lemma_working_only_grows(
    before: EngineView,
    request: crate::trading::order::OrderRequest,
    book: BookView,
    now: Ts,
)
    requires
        before.wf(),
        book.wf(),
        before.working.len() == 0,
        request.oco_group is None,
        submission(before, request, book, now).ok,
        submission(before, request, book, now).result is Ok,
        !at_work(submission(before, request, book, now).result->Ok_0.0),
    ensures
        submission(before, request, book, now).desk.working.len() == 0,
{
    let desk = EngineView { now, ..before };
    let numbered = EngineView { next_id: (desk.next_id + 1) as u64, ..desk };
    let order = crate::trading::desk::order_for(request, OrderId(desk.next_id), now);
    let plan = crate::trading::desk::opening_plan(desk, request, book)->Ok_0;
    let start = Filling { desk: numbered, order, made: Seq::<Fill>::empty(), ok: true };
    lemma_plan(desk.config, request.side, request.qty.0 as int, book);
    lemma_fill_all_keeps(start, plan, now);
}

/// What a stop fills with once it is set off: the best levels of the book first, at
/// their prices, each whole before the next is touched. The position changes by
/// what was filled.
pub proof fn law_a_fired_stop_takes_the_best_levels(
    r: Reaction,
    order: Order,
    trade: Trade,
    book: BookView,
    i: int,
)
    requires
        r.desk.sound(),
        book.wf(),
        r.desk.config.allow_book_walk,
        r.desk.orders.contains_key(order.id.0),
        order_ok(order.id.0, order),
        order.status is Pending,
        order.kind is Stop,
        r.desk.working.contains(order.id),
        stop_fires(r, order, trade, book).ok,
    ensures
        ({
            let a = stop_fires(r, order, trade, book);
            let levels = best_first(book, order.side);
            let n = a.made.len() - r.made.len();
            let left = order.qty.0 - order.filled.0;
            let held = size_of(against(book, order.side));
            let whole = if left <= held {
                left
            } else if order.tif is Fok {
                0
            } else {
                held
            };
            &&& 0 <= n <= levels.len()
            &&& 0 <= i < n ==> {
                let fill = a.made[r.made.len() + i];
                &&& fill.price == levels[i].price
                &&& 0 < fill.qty.0 <= levels[i].qty.0
                &&& i < n - 1 ==> fill.qty == levels[i].qty
                &&& fill.side == order.side
                &&& fill.ts == trade.ts
                &&& fill.order_id == order.id
            }
            &&& a.desk.position.qty.0 - r.desk.position.qty.0 == match order.side {
                Side::Buy => whole,
                Side::Sell => -whole,
            }
            &&& n > 0 ==> a.desk.last_price == Some(levels[n - 1].price)
            &&& n == 0 ==> a.desk.last_price == r.desk.last_price
        }),
{
    let left = order.qty.0 - order.filled.0;
    let levels = best_first(book, order.side);
    let plan = stop_plan(r.desk, order, book);
    let start = Filling { desk: r.desk, order, made: r.made, ok: r.ok };
    lemma_stop_plan(r.desk, order, book);
    lemma_plan(r.desk.config, order.side, left, book);
    lemma_fill_all_keeps(start, plan, trade.ts);
    lemma_fills_of_plan(start, plan, trade.ts);
    lemma_facing(book, order.side);
    lemma_best_first(book, order.side);
    lemma_reach(book, order.side, Price(0));
    law_a_plan_takes_what_is_there(levels, left);
    lemma_taken_whole(levels, left);
    let f = fill_all(start, plan, trade.ts);
    let g = Filling { order: closed_out(f.order, trade.ts), ..f };
    assert(g.desk.sound());
    lemma_put_back_keeps(g, r.made.len(), trade.ts);
    if plan.len() == 0 {
        assert(planned(plan) == 0);
    }
}

/// What an order is filled with adds up, and its average price is that of all its
/// fills by size, without its fraction.
pub proof fn law_an_order_averages_its_fills(order: Order, price: Price, qty: Qty)
    requires
        order.filled.0 >= 0,
        qty.0 > 0,
        order.filled.0 + qty.0 <= i64::MAX,
        order.avg_fill_price is None ==> order.filled.0 == 0,
    ensures
        order_filled(order, price, qty).filled.0 == order.filled.0 + qty.0,
        order.avg_fill_price is None ==> order_filled(order, price, qty).avg_fill_price == Some(
            price,
        ),
        order.avg_fill_price matches Some(previous) ==> order.filled.0 > 0 ==> is_whole_part(
            (order_filled(order, price, qty).avg_fill_price->0).0 as int,
            previous.0 * order.filled.0 + price.0 * qty.0,
            order.filled.0 + qty.0,
        ),
        order_filled(order, price, qty).qty == order.qty,
        order_filled(order, price, qty).status == order.status,
{
    if let Some(previous) = order.avg_fill_price {
        if order.filled.0 > 0 {
            lemma_average(
                previous.0 as int,
                order.filled.0 as int,
                price.0 as int,
                qty.0 as int,
            );
        }
    }
}

/// Cancelling everything cancels as many orders as were at work.
pub proof fn law_cancelling_all_counts_the_orders_at_work(desk: EngineView, now: Ts)
    requires
        desk.wf(),
    ensures
        cancel_count(desk, desk.working, now) == desk.working.len(),
{
    lemma_cancel_count(desk, desk.working, now);
}

proof fn lemma_cancel_count(desk: EngineView, ids: Seq<OrderId>, now: Ts)
    requires
        ids.no_duplicates(),
        forall|i: int| 0 <= i < ids.len() ==> is_live(desk.orders, #[trigger] ids[i]),
    ensures
        cancel_count(desk, ids, now) == ids.len(),
    decreases ids.len(),
{
    if ids.len() > 0 {
        let next = cancelled(desk, ids[0], now);
        let rest = ids.drop_first();
        assert forall|a: int, b: int| 0 <= a < rest.len() && 0 <= b < rest.len() && a != b implies
            rest[a] != rest[b] by {
            assert(ids[a + 1] != ids[b + 1]);
        }
        assert forall|i: int| 0 <= i < rest.len() implies is_live(
            next.orders,
            #[trigger] rest[i],
        ) by {
            assert(rest[i] == ids[i + 1]);
            assert(ids[i + 1] != ids[0]);
        }
        lemma_cancel_count(next, rest, now);
    }
}

/// Where walking the book is not allowed, a stop that is set off fills whole at the
/// best price if the best level holds all that is left of it, and else not at all.
/// Either way it is done.
pub proof fn law_a_fired_stop_without_walking_takes_one_level(
    r: Reaction,
    order: Order,
    trade: Trade,
    book: BookView,
)
    requires
        r.desk.sound(),
        book.wf(),
        !r.desk.config.allow_book_walk,
        r.desk.orders.contains_key(order.id.0),
        order_ok(order.id.0, order),
        order.status is Pending,
        order.kind is Stop,
        r.desk.working.contains(order.id),
        stop_fires(r, order, trade, book).ok,
    ensures
        ({
            let a = stop_fires(r, order, trade, book);
            let levels = best_first(book, order.side);
            let left = order.qty.0 - order.filled.0;
            let after = a.desk.orders[order.id.0];
            let enough = levels.len() > 0 && levels[0].qty.0 >= left;
            &&& enough ==> after.status is Filled && after.filled == order.qty && a.made.len()
                == r.made.len() + 1 && a.made.last().price == levels[0].price
                && a.made.last().qty.0 == left && a.desk.last_price == Some(levels[0].price)
            &&& !enough ==> after.status is Cancelled && after.filled == order.filled && a.made
                == r.made && a.desk.position == r.desk.position
        }),
{
    let left = order.qty.0 - order.filled.0;
    let levels = best_first(book, order.side);
    let plan = stop_plan(r.desk, order, book);
    let start = Filling { desk: r.desk, order, made: r.made, ok: r.ok };
    lemma_stop_plan(r.desk, order, book);
    lemma_plan(r.desk.config, order.side, left, book);
    lemma_fill_all_keeps(start, plan, trade.ts);
    lemma_fills_of_plan(start, plan, trade.ts);
    lemma_facing(book, order.side);
    lemma_best_first(book, order.side);
    let f = fill_all(start, plan, trade.ts);
    let g = Filling { order: closed_out(f.order, trade.ts), ..f };
    assert(g.desk.sound());
    lemma_put_back_keeps(g, r.made.len(), trade.ts);
    if levels.len() > 0 && levels[0].qty.0 >= left {
        let one = levels.take(1);
        reveal_with_fuel(taken_from, 3);
        reveal_with_fuel(planned, 3);
        assert(one[0] == levels[0]);
        assert(one.drop_first() =~= Seq::empty());
        let raw = taken_from(one, left);
        assert(raw =~= seq![(levels[0].price, Qty(left as i64))]);
        assert(raw.drop_first() =~= Seq::empty());
        assert(planned(raw) == left);
        assert(plan == raw);
    } else {
        assert(plan =~= Seq::empty());
        assert(f.made =~= r.made);
    }
}

} // verus!
