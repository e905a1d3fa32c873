//! What holds of the matching engine as a whole.

use crate::primitives::book::BookLevel;
use crate::primitives::fixed::{Price, Qty};
use crate::primitives::market::{Side, Trade};
use crate::primitives::time::Ts;

use crate::trading::order::{Fill, Order, OrderId, OrderRequest, OrderStatus, RejectReason};
use vstd::prelude::*;

verus! {

use crate::primitives::book::{total_size, BookView};
use crate::primitives::fixed::magnitude_of;
use crate::trading::desk::{
    cancel_each, closed_out, crosses, crossing, ended, facing, fill_all, fill_one, goes_through,
    is_live, is_sibling, lemma_cancel_each, lemma_cancelled, lemma_crossing, lemma_facing,
    lemma_fill_all_keeps, lemma_limit_trades, lemma_plan, lemma_stop_plan, limit_plan,
    limit_trades, opening_plan, order_for, order_ok, placed, planned, put_back, react, recorded,
    request_refusal, siblings, stop_plan, submission, taken_from, triggers, without_siblings,
    EngineView, Filling, Reaction,
};

/// A refused request leaves everything but the clock as it was; one that cannot
/// be priced also uses up an order number.
pub proof fn law_refusal_changes_nothing(
    before: EngineView,
    request: OrderRequest,
    book: BookView,
    now: Ts,
)
    requires
        submission(before, request, book, now).result is Err,
    ensures
        submission(before, request, book, now).desk == (EngineView {
            now,
            next_id: submission(before, request, book, now).desk.next_id,
            ..before
        }),
        request_refusal(before, request) is Some ==> submission(
            before,
            request,
            book,
            now,
        ).desk.next_id == before.next_id,
{
    assert(request_refusal(EngineView { now, ..before }, request) == request_refusal(
        before,
        request,
    ));
}

/// An order that does not enlarge the position is never refused for its size.
pub proof fn law_reducing_orders_pass_the_limit(desk: EngineView, request: OrderRequest)
    requires
        magnitude_of(desk.position.qty.0 + request.qty.0 * request.side.sign()) <= magnitude_of(
            desk.position.qty.0 as int,
        ),
    ensures
        !(request_refusal(desk, request) matches Some(RejectReason::PositionLimit { .. })),
{
}

/// A fill-or-kill order fills completely at once, or is cancelled with nothing
/// filled, nothing traded and the position untouched.
pub proof fn law_fill_or_kill_is_all_or_nothing(
    before: EngineView,
    request: OrderRequest,
    book: BookView,
    now: Ts,
)
    requires
        before.wf(),
        book.wf(),
        request.tif is Fok,
        request.kind is Market || request.kind is Limit,
        submission(before, request, book, now).ok,
        submission(before, request, book, now).result is Ok,
    ensures
        ({
            let s = submission(before, request, book, now);
            let (order, fills) = s.result->Ok_0;
            ||| order.status is Filled && order.filled == order.qty && fills.len() > 0
            ||| order.status is Cancelled && order.filled.0 == 0 && fills.len() == 0
                && s.desk.position == before.position && s.desk.fills == before.fills
        }),
{
    let desk = EngineView { now, ..before };
    let numbered = EngineView { next_id: (desk.next_id + 1) as u64, ..desk };
    let order = order_for(request, OrderId(desk.next_id), now);
    let plan = opening_plan(desk, request, book)->Ok_0;
    lemma_plan(desk.config, request.side, request.qty.0 as int, book);
    let start = Filling { desk: numbered, order, made: Seq::<Fill>::empty(), ok: true };
    lemma_fill_all_keeps(start, plan, now);
    if plan.len() == 0 {
        assert(planned(plan) == 0);
    }
}

/// Taking from levels takes all that is wanted, or all that is there.
pub proof fn law_a_plan_takes_what_is_there(levels: Seq<BookLevel>, want: int)
    requires
        forall|i: int| 0 <= i < levels.len() ==> (#[trigger] levels[i]).qty.0 > 0,
        0 <= want <= i64::MAX,
    ensures
        planned(taken_from(levels, want)) == if want < total_size(levels) {
            want
        } else {
            total_size(levels)
        },
    decreases levels.len(),
{
    lemma_total_first(levels);
    if levels.len() > 0 && want > 0 {
        let take = if levels[0].qty.0 < want {
            levels[0].qty
        } else {
            Qty(want as i64)
        };
        let rest = levels.drop_first();
        assert forall|i: int| 0 <= i < rest.len() implies (#[trigger] rest[i]).qty.0 > 0 by {
            assert(rest[i] == levels[i + 1]);
        }
        law_a_plan_takes_what_is_there(rest, want - take.0);
        assert(taken_from(levels, want).drop_first() =~= taken_from(rest, want - take.0));
        lemma_total_natural(rest);
    } else {
        lemma_total_natural(levels);
    }
}

/// A market order never rests. It fills as much as its side of the book holds,
/// and counts as filled only where that was all it asked for.
pub proof fn law_market_orders_end_at_once(
    before: EngineView,
    request: OrderRequest,
    book: BookView,
    now: Ts,
)
    requires
        before.wf(),
        book.wf(),
        before.config.allow_book_walk,
        request.kind is Market,
        !(request.tif is Fok),
        submission(before, request, book, now).ok,
        submission(before, request, book, now).result is Ok,
    ensures
        ({
            let order = submission(before, request, book, now).result->Ok_0.0;
            let held = total_size(facing(book, request.side));
            &&& !order.status.live()
            &&& order.closed == Some(now)
            &&& order.filled.0 == if request.qty.0 < held {
                request.qty.0 as int
            } else {
                held
            }
            &&& order.status is Filled <==> order.filled == order.qty
        }),
{
    let desk = EngineView { now, ..before };
    let numbered = EngineView { next_id: (desk.next_id + 1) as u64, ..desk };
    let order = order_for(request, OrderId(desk.next_id), now);
    let plan = opening_plan(desk, request, book)->Ok_0;
    let start = Filling { desk: numbered, order, made: Seq::<Fill>::empty(), ok: true };
    lemma_plan(desk.config, request.side, request.qty.0 as int, book);
    lemma_fill_all_keeps(start, plan, now);
    lemma_facing(book, request.side);
    law_a_plan_takes_what_is_there(facing(book, request.side), request.qty.0 as int);
}

pub proof fn lemma_total_first(levels: Seq<BookLevel>)
    ensures
        levels.len() > 0 ==> total_size(levels) == levels[0].qty.0 + total_size(
            levels.drop_first(),
        ),
    decreases levels.len(),
{
    if levels.len() == 1 {
        assert(levels.drop_last() =~= levels.drop_first());
    } else if levels.len() > 1 {
        lemma_total_first(levels.drop_last());
        assert(levels.drop_first().drop_last() =~= levels.drop_last().drop_first());
    }
}

proof fn lemma_total_natural(levels: Seq<BookLevel>)
    requires
        forall|i: int| 0 <= i < levels.len() ==> (#[trigger] levels[i]).qty.0 > 0,
    ensures
        total_size(levels) >= 0,
    decreases levels.len(),
{
    if levels.len() > 0 {
        lemma_total_natural(levels.drop_last());
    }
}

proof fn lemma_taken_prices(levels: Seq<BookLevel>, want: int)
    ensures
        taken_from(levels, want).len() <= levels.len(),
        forall|i: int|
            0 <= i < taken_from(levels, want).len() ==> (#[trigger] taken_from(levels, want)[i]).0
                == levels[i].price,
    decreases levels.len(),
{
    if levels.len() > 0 && want > 0 {
        let take = if levels[0].qty.0 < want {
            levels[0].qty
        } else {
            Qty(want as i64)
        };
        let rest = taken_from(levels.drop_first(), want - take.0);
        lemma_taken_prices(levels.drop_first(), want - take.0);
        let all = taken_from(levels, want);
        assert forall|i: int| 0 <= i < all.len() implies (#[trigger] all[i]).0
            == levels[i].price by {
            if i > 0 {
                assert(all[i] == rest[i - 1]);
                assert(levels.drop_first()[i - 1] == levels[i]);
            }
        }
    }
}

/// A marketable limit order never fills at a price worse than its limit.
pub proof fn law_limits_are_respected(
    side: Side,
    want: int,
    limit: Price,
    book: BookView,
    k: int,
)
    requires
        0 <= k < limit_plan(side, want, limit, book).len(),
    ensures
        match side {
            Side::Buy => limit_plan(side, want, limit, book)[k].0.0 <= limit.0,
            Side::Sell => limit_plan(side, want, limit, book)[k].0.0 >= limit.0,
        },
{
    let levels = facing(book, side);
    lemma_crossing(levels, side, limit);
    let front = crossing(levels, side, limit);
    lemma_taken_prices(front, want);
    assert(front[k] == levels[k]);
    assert(crosses(levels[k], side, limit));
}

/// A resting limit fills at its own price and only once the market traded
/// strictly through it; a trade at the limit changes nothing.
pub proof fn law_resting_limits_fill_only_through(r: Reaction, order: Order, trade: Trade)
    ensures
        !goes_through(order, trade) ==> limit_trades(r, order, trade) == r,
        goes_through(order, trade) ==> limit_trades(r, order, trade).made == r.made || (
        limit_trades(r, order, trade).made.len() == r.made.len() + 1 && limit_trades(
            r,
            order,
            trade,
        ).made.last().price == order.kind.limit_of()->0 && limit_trades(
            r,
            order,
            trade,
        ).made.last().order_id == order.id && limit_trades(r, order, trade).made.last().qty.0
            <= trade.qty.0),
        order.kind.limit_of() matches Some(limit) && trade.price == limit ==> !goes_through(
            order,
            trade,
        ),
{
}

proof fn lemma_siblings_listed(
    ids: Seq<OrderId>,
    orders: Map<u64, Order>,
    group: u64,
    except: OrderId,
)
    ensures
        forall|i: int|
            0 <= i < ids.len() && is_sibling(orders, #[trigger] ids[i], group, except)
                ==> siblings(ids, orders, group, except).contains(ids[i]),
        forall|i: int|
            0 <= i < siblings(ids, orders, group, except).len() ==> is_sibling(
                orders,
                #[trigger] siblings(ids, orders, group, except)[i],
                group,
                except,
            ),
    decreases ids.len(),
{
    if ids.len() > 0 {
        let before = ids.drop_last();
        lemma_siblings_listed(before, orders, group, except);
        let kept = siblings(before, orders, group, except);
        let all = siblings(ids, orders, group, except);
        assert forall|i: int|
            0 <= i < ids.len() && is_sibling(
                orders,
                #[trigger] ids[i],
                group,
                except,
            ) implies all.contains(ids[i]) by {
            if i < before.len() {
                assert(before[i] == ids[i]);
                assert(kept.contains(ids[i]));
                let k = kept.index_of(ids[i]);
                assert(all[k] == ids[i]);
            } else {
                assert(all[all.len() - 1] == ids[i]);
            }
        }
        assert forall|i: int| 0 <= i < all.len() implies is_sibling(
            orders,
            #[trigger] all[i],
            group,
            except,
        ) by {
            if i < kept.len() {
                assert(all[i] == kept[i]);
            }
        }
    }
}

/// Once an order's group is cleared, no other member of it can trade, and no
/// order outside it was touched.
pub proof fn law_one_cancels_the_others(desk: EngineView, filled: OrderId, group: u64, now: Ts)
    requires
        desk.sound(),
    ensures
        forall|id: u64|
            #![trigger without_siblings(desk, filled, Some(group), now).orders.contains_key(id)]
            !is_sibling(
                without_siblings(desk, filled, Some(group), now).orders,
                OrderId(id),
                group,
                filled,
            ),
        forall|id: u64|
            #![trigger without_siblings(desk, filled, Some(group), now).orders[id]]
            desk.orders.contains_key(id) && !is_sibling(desk.orders, OrderId(id), group, filled)
                ==> without_siblings(desk, filled, Some(group), now).orders[id] == desk.orders[id],
{
    let ids = siblings(desk.working, desk.orders, group, filled);
    let after = without_siblings(desk, filled, Some(group), now);
    lemma_cancel_each(desk, ids, now);
    lemma_siblings_listed(desk.working, desk.orders, group, filled);
    assert forall|id: u64|
        #![trigger after.orders.contains_key(id)]
        !is_sibling(after.orders, OrderId(id), group, filled) by {
        if is_sibling(after.orders, OrderId(id), group, filled) {
            assert(desk.orders.contains_key(id));
            if !ids.contains(OrderId(id)) {
                assert(after.orders[id] == desk.orders[id]);
                assert(desk.working.contains(OrderId(id)));
                let j = desk.working.index_of(OrderId(id));
                assert(is_sibling(desk.orders, desk.working[j], group, filled));
                assert(ids.contains(desk.working[j]));
            } else {
                let k = ids.index_of(OrderId(id));
                assert(ids[k] == OrderId(id));
            }
        }
    }
    assert forall|id: u64|
        #![trigger after.orders[id]]
        desk.orders.contains_key(id) && !is_sibling(
            desk.orders,
            OrderId(id),
            group,
            filled,
        ) implies after.orders[id] == desk.orders[id] by {
        if ids.contains(OrderId(id)) {
            let k = ids.index_of(OrderId(id));
            assert(is_sibling(desk.orders, ids[k], group, filled));
        }
    }
}

/// A fill clears the group of the order that it went to, whether or not it
/// completed the order: whatever a trade made an order fill, no other member of
/// its group can trade any more.
pub proof fn law_a_fill_clears_the_group(
    r: Reaction,
    id: OrderId,
    group: u64,
    trade: Trade,
    book: BookView,
)
    requires
        r.desk.sound(),
        book.wf(),
        react(r, id, trade, book).made.len() > r.made.len(),
        r.desk.orders[id.0].oco_group == Some(group),
    ensures
        forall|k: u64|
            #![trigger react(r, id, trade, book).desk.orders.contains_key(k)]
            !is_sibling(react(r, id, trade, book).desk.orders, OrderId(k), group, id),
{
    let order = r.desk.orders[id.0];
    assert(order_ok(id.0, order));
    assert(order.id == id);
    assert(r.desk.working.contains(OrderId(id.0)));
    let after = react(r, id, trade, book);
    if order.status is Pending && order.kind is Stop {
        let plan = stop_plan(r.desk, order, book);
        let start = Filling { desk: r.desk, order, made: r.made, ok: r.ok };
        lemma_stop_plan(r.desk, order, book);
        lemma_fill_all_keeps(start, plan, trade.ts);
        let f = fill_all(start, plan, trade.ts);
        lemma_group_cleared(
            Filling { order: closed_out(f.order, trade.ts), ..f },
            r.made.len(),
            group,
            trade.ts,
        );
    } else if order.status is Pending {
        let awake = Order { status: OrderStatus::Working, ..order };
        let desk = EngineView { orders: r.desk.orders.insert(id.0, awake), ..r.desk };
        let up = Reaction { desk, ..r };
        assert(desk.sound());
        lemma_limit_clears(up, awake, group, trade);
        lemma_limit_trades(up, awake, trade);
        let mid = limit_trades(up, awake, trade).desk;
        lemma_cancelled(mid, id, trade.ts);
        assert forall|k: u64|
            #![trigger after.desk.orders.contains_key(k)]
            !is_sibling(after.desk.orders, OrderId(k), group, id) by {
            assert(!is_sibling(mid.orders, OrderId(k), group, id)) by {
                let known = mid.orders.contains_key(k);
            }
            if k != id.0 && mid.orders.contains_key(k) {
                assert(after.desk.orders[k] == mid.orders[k]);
            }
        }
    } else {
        lemma_limit_clears(r, order, group, trade);
    }
}

proof fn lemma_group_cleared(f: Filling, had: nat, group: u64, now: Ts)
    requires
        f.desk.sound(),
        f.desk.orders.contains_key(f.order.id.0),
        order_ok(f.order.id.0, f.order),
        f.desk.working.contains(f.order.id),
        f.order.oco_group == Some(group),
        f.made.len() > had,
    ensures
        forall|k: u64|
            #![trigger put_back(f, had, now).desk.orders.contains_key(k)]
            !is_sibling(put_back(f, had, now).desk.orders, OrderId(k), group, f.order.id),
{
    let desk = EngineView { orders: f.desk.orders.insert(f.order.id.0, f.order), ..f.desk };
    assert(desk.sound());
    law_one_cancels_the_others(desk, f.order.id, group, now);
}

proof fn lemma_limit_clears(r: Reaction, order: Order, group: u64, trade: Trade)
    requires
        r.desk.sound(),
        r.desk.orders.contains_key(order.id.0),
        order_ok(order.id.0, order),
        order.status.live(),
        !(order.status is Pending),
        r.desk.working.contains(order.id),
        order.oco_group == Some(group),
    ensures
        limit_trades(r, order, trade).made.len() > r.made.len() ==> forall|k: u64|
            #![trigger limit_trades(r, order, trade).desk.orders.contains_key(k)]
            !is_sibling(
                limit_trades(r, order, trade).desk.orders,
                OrderId(k),
                group,
                order.id,
            ),
{
    if limit_trades(r, order, trade).made.len() > r.made.len() {
        let limit = order.kind.limit_of()->0;
        let left = order.qty.0 - order.filled.0;
        let take = if trade.qty.0 < left {
            trade.qty.0 as int
        } else {
            left
        };
        let start = Filling { desk: r.desk, order, made: r.made, ok: r.ok };
        let f = fill_one(start, limit, Qty(take as i64), trade.ts);
        let g = Filling {
            order: if f.order.filled.0 >= f.order.qty.0 {
                ended(f.order, OrderStatus::Filled, trade.ts)
            } else {
                Order { status: OrderStatus::PartiallyFilled, ..f.order }
            },
            ..f
        };
        assert(g.desk.sound());
        assert(limit_trades(r, order, trade) == put_back(g, r.made.len(), trade.ts));
        lemma_group_cleared(g, r.made.len(), group, trade.ts);
    }
}

/// A stop that was set off does not rest. It fills as a market order would: all
/// that the book holds for it, or nothing for a fill-or-kill order that this
/// would not complete. It counts as filled only where it is complete.
pub proof fn law_a_fired_stop_ends_at_once(
    r: Reaction,
    id: OrderId,
    trade: Trade,
    book: BookView,
)
    requires
        r.desk.sound(),
        book.wf(),
        r.desk.config.allow_book_walk,
        is_live(r.desk.orders, id),
        r.desk.orders[id.0].status is Pending,
        r.desk.orders[id.0].kind is Stop,
        triggers(r.desk.orders[id.0], trade),
    ensures
        ({
            let was = r.desk.orders[id.0];
            let order = react(r, id, trade, book).desk.orders[id.0];
            let held = total_size(facing(book, was.side));
            let left = was.qty.0 - was.filled.0;
            &&& react(r, id, trade, book).desk.orders.contains_key(id.0)
            &&& !order.status.live()
            &&& order.closed == Some(trade.ts)
            &&& order.filled.0 - was.filled.0 == if left <= held {
                left
            } else if was.tif is Fok {
                0
            } else {
                held
            }
            &&& order.status is Filled <==> order.filled == order.qty
        }),
{
    let order = r.desk.orders[id.0];
    assert(order_ok(id.0, order));
    assert(r.desk.working.contains(OrderId(id.0)));
    let plan = stop_plan(r.desk, order, book);
    let start = Filling { desk: r.desk, order, made: r.made, ok: r.ok };
    lemma_stop_plan(r.desk, order, book);
    lemma_fill_all_keeps(start, plan, trade.ts);
    lemma_facing(book, order.side);
    law_a_plan_takes_what_is_there(facing(book, order.side), order.qty.0 - order.filled.0);
    let f = fill_all(start, plan, trade.ts);
    let g = Filling { order: closed_out(f.order, trade.ts), ..f };
    let desk = EngineView { orders: g.desk.orders.insert(id.0, g.order), ..g.desk };
    assert(desk.sound());
    if let Some(group) = order.oco_group {
        let ids = siblings(desk.working, desk.orders, group, id);
        lemma_cancel_each(desk, ids, trade.ts);
        assert(!desk.orders[id.0].status.live());
    }
}

/// A stop-limit that may not rest is done with the trade that sets it off, and
/// a fill-or-kill one fills whole or not at all.
pub proof fn law_a_stop_limit_that_may_not_rest_ends(
    r: Reaction,
    id: OrderId,
    trade: Trade,
    book: BookView,
)
    requires
        r.desk.sound(),
        book.wf(),
        is_live(r.desk.orders, id),
        r.desk.orders[id.0].status is Pending,
        r.desk.orders[id.0].kind is StopLimit,
        triggers(r.desk.orders[id.0], trade),
        !(r.desk.orders[id.0].tif is Gtc),
    ensures
        !is_live(react(r, id, trade, book).desk.orders, id),
        r.desk.orders[id.0].tif is Fok ==> react(r, id, trade, book).made == r.made || (react(
            r,
            id,
            trade,
            book,
        ).made.len() == r.made.len() + 1 && react(r, id, trade, book).made.last().qty.0
            == r.desk.orders[id.0].qty.0 - r.desk.orders[id.0].filled.0),
{
    let order = r.desk.orders[id.0];
    assert(order_ok(id.0, order));
    assert(r.desk.working.contains(OrderId(id.0)));
    let awake = Order { status: OrderStatus::Working, ..order };
    let desk = EngineView { orders: r.desk.orders.insert(id.0, awake), ..r.desk };
    let up = Reaction { desk, ..r };
    assert(desk.sound());
    lemma_cancelled(desk, id, trade.ts);
    lemma_limit_trades(up, awake, trade);
    lemma_cancelled(limit_trades(up, awake, trade).desk, id, trade.ts);
}

/// Cancelling everything leaves no order that can trade, and neither the
/// position nor the fills change.
pub proof fn law_cancel_all_leaves_nothing_working(desk: EngineView, now: Ts)
    requires
        desk.wf(),
    ensures
        cancel_each(desk, desk.working, now).working.len() == 0,
        cancel_each(desk, desk.working, now).position == desk.position,
        cancel_each(desk, desk.working, now).fills == desk.fills,
{
    let after = cancel_each(desk, desk.working, now);
    lemma_cancel_each(desk, desk.working, now);
    if after.working.len() > 0 {
        let id = after.working[0];
        assert(is_live(after.orders, id));
        assert(desk.orders.contains_key(id.0));
        if desk.orders[id.0].status.live() {
            assert(desk.working.contains(OrderId(id.0)));
            let j = desk.working.index_of(OrderId(id.0));
            assert(desk.working[j] == id);
        } else {
            assert(after.orders[id.0] == desk.orders[id.0]);
        }
    }
}

proof fn lemma_fill_all_appends(f: Filling, plan: Seq<(Price, Qty)>, now: Ts)
    requires
        f.made.len() <= f.desk.fills.len(),
        f.desk.fills.skip(f.desk.fills.len() - f.made.len()) == f.made,
    ensures
        ({
            let g = fill_all(f, plan, now);
            &&& g.made.len() - f.made.len() == g.desk.fills.len() - f.desk.fills.len()
            &&& g.made.len() >= f.made.len()
            &&& g.desk.fills.take(f.desk.fills.len() as int) == f.desk.fills
            &&& g.desk.fills.skip(g.desk.fills.len() - g.made.len()) == g.made
        }),
    decreases plan.len(),
{
    if plan.len() == 0 {
        assert(f.desk.fills.take(f.desk.fills.len() as int) =~= f.desk.fills);
    } else {
        let h = fill_one(f, plan[0].0, plan[0].1, now);
        assert(h.desk.fills.skip(h.desk.fills.len() - h.made.len()) =~= h.made);
        lemma_fill_all_appends(h, plan.drop_first(), now);
        let g = fill_all(f, plan, now);
        assert(g.desk.fills.take(f.desk.fills.len() as int) =~= g.desk.fills.take(
            h.desk.fills.len() as int,
        ).take(f.desk.fills.len() as int));
        assert(h.desk.fills.take(f.desk.fills.len() as int) =~= f.desk.fills);
    }
}

/// What a submission reports as its fills is what the history gains, and
/// nothing in the history is rewritten.
pub proof fn law_fills_are_appended(
    before: EngineView,
    request: OrderRequest,
    book: BookView,
    now: Ts,
)
    requires
        before.wf(),
        book.wf(),
        submission(before, request, book, now).ok,
    ensures
        match submission(before, request, book, now).result {
            Ok((_, fills)) => submission(before, request, book, now).desk.fills == before.fills
                + fills,
            Err(_) => submission(before, request, book, now).desk.fills == before.fills,
        },
{
    let desk = EngineView { now, ..before };
    if submission(before, request, book, now).result is Ok {
        let numbered = EngineView { next_id: (desk.next_id + 1) as u64, ..desk };
        let order = order_for(request, OrderId(desk.next_id), now);
        let plan = opening_plan(desk, request, book)->Ok_0;
        lemma_plan(desk.config, request.side, request.qty.0 as int, book);
        let start = Filling { desk: numbered, order, made: Seq::<Fill>::empty(), ok: true };
        assert(start.desk.fills.skip(start.desk.fills.len() as int) =~= start.made);
        lemma_fill_all_appends(start, plan, now);
        lemma_fill_all_keeps(start, plan, now);
        let f = placed(numbered, order, plan, now);
        assert(f.desk.fills =~= before.fills + f.made) by {
            let g = fill_all(start, plan, now);
            assert(g.desk.fills =~= g.desk.fills.take(before.fills.len() as int)
                + g.desk.fills.skip(before.fills.len() as int));
        }
        crate::trading::desk::lemma_recorded(Filling { made: Seq::<Fill>::empty(), ..f }, now);
        let rec = recorded(Filling { made: Seq::<Fill>::empty(), ..f }, now);
        if f.made.len() > 0 {
            if let Some(g) = f.order.oco_group {
                lemma_cancel_each(rec, siblings(rec.working, rec.orders, g, f.order.id), now);
            }
        }
    }
}

} // verus!
