//! What matching comes to: which sizes fill, at which prices and in which order,
//! in terms of the request, the book and the tape.

use crate::primitives::book::BookLevel;
use crate::primitives::fixed::{Price, Qty};
use crate::primitives::market::Side;
use crate::primitives::time::Ts;
use crate::trading::order::{Fill, OrderId, OrderRequest, OrderType, RejectReason};
use vstd::prelude::*;

verus! {

use crate::primitives::book::{total_size, BookView};
use crate::trading::desk::{
    crosses, crossing, facing, fill_all, fill_one, lemma_facing, lemma_fill_all_keeps,
    lemma_fill_all_ok, lemma_plan, lemma_recorded, opening_plan, order_for, placed, planned,
    recorded, submission, taken_from, EngineView, Filling,
};
use crate::trading::laws::law_a_plan_takes_what_is_there;
use crate::trading::order::{limit_request, market_request};

/// The levels that an order on this side can trade against, best first: asks from
/// the lowest up for a buyer, bids from the highest down for a seller.
pub open spec fn best_first(book: BookView, side: Side) -> Seq<BookLevel> {
    match side {
        Side::Buy => book.asks,
        Side::Sell => Seq::new(
            book.bids.len(),
            |i: int| book.bids[book.bids.len() - 1 - i],
        ),
    }
}

/// Whether a price is at an order's limit or better.
pub open spec fn is_within(side: Side, price: Price, limit: Price) -> bool {
    match side {
        Side::Buy => price.0 <= limit.0,
        Side::Sell => price.0 >= limit.0,
    }
}

/// The size that rests at a limit or better among some levels.
pub open spec fn size_within(levels: Seq<BookLevel>, side: Side, limit: Price) -> int
    decreases levels.len(),
{
    if levels.len() == 0 {
        0
    } else {
        size_within(levels.drop_last(), side, limit) + if is_within(
            side,
            levels.last().price,
            limit,
        ) {
            levels.last().qty.0 as int
        } else {
            0
        }
    }
}

/// The size that rests at some levels.
pub open spec fn size_of(levels: Seq<BookLevel>) -> int
    decreases levels.len(),
{
    if levels.len() == 0 {
        0
    } else {
        size_of(levels.drop_last()) + levels.last().qty.0
    }
}

/// The smaller of two sizes.
pub open spec fn smaller(a: int, b: int) -> int {
    if a < b {
        a
    } else {
        b
    }
}

proof fn lemma_size_of(levels: Seq<BookLevel>)
    ensures
        size_of(levels) == total_size(levels),
    decreases levels.len(),
{
    if levels.len() > 0 {
        lemma_size_of(levels.drop_last());
    }
}

pub proof fn lemma_best_first(book: BookView, side: Side)
    ensures
        facing(book, side) == best_first(book, side),
{
    assert(facing(book, side) =~= best_first(book, side));
}

/// The first level behind those that a limit reaches is not reached.
proof fn lemma_crossing_ends(levels: Seq<BookLevel>, side: Side, limit: Price)
    ensures
        ({
            let k = crossing(levels, side, limit).len();
            &&& k <= levels.len()
            &&& k < levels.len() ==> !is_within(side, levels[k as int].price, limit)
            &&& crossing(levels, side, limit) == levels.take(k as int)
            &&& forall|i: int|
                0 <= i < k ==> is_within(side, (#[trigger] levels[i]).price, limit)
        }),
    decreases levels.len(),
{
    if levels.len() > 0 && crosses(levels[0], side, limit) {
        let tail = levels.drop_first();
        lemma_crossing_ends(tail, side, limit);
        let all = crossing(levels, side, limit);
        assert(all =~= levels.take(all.len() as int));
        assert forall|i: int| 0 <= i < all.len() implies is_within(
            side,
            (#[trigger] levels[i]).price,
            limit,
        ) by {
            if i > 0 {
                assert(tail[i - 1] == levels[i]);
            }
        }
        if all.len() < levels.len() {
            assert(tail[all.len() - 1] == levels[all.len() as int]);
        }
    } else {
        assert(crossing(levels, side, limit) =~= levels.take(0));
    }
}

proof fn lemma_within_prefix(levels: Seq<BookLevel>, side: Side, limit: Price, k: int)
    requires
        0 <= k <= levels.len(),
        forall|i: int|
            0 <= i < levels.len() ==> (is_within(side, (#[trigger] levels[i]).price, limit)
                <==> i < k),
    ensures
        size_within(levels, side, limit) == total_size(levels.take(k)),
    decreases levels.len(),
{
    if levels.len() == 0 {
        assert(levels.take(k) =~= levels);
    } else {
        let less = levels.drop_last();
        assert forall|i: int| 0 <= i < less.len() implies (is_within(
            side,
            (#[trigger] less[i]).price,
            limit,
        ) <==> i < k) by {
            assert(less[i] == levels[i]);
        }
        let n = levels.len() as int;
        assert(levels[n - 1] == levels.last());
        if k == n {
            lemma_within_prefix(less, side, limit, n - 1);
            assert(less.take(n - 1) =~= less);
            assert(levels.take(n) =~= levels);
        } else {
            lemma_within_prefix(less, side, limit, k);
            assert(less.take(k) =~= levels.take(k));
        }
    }
}

proof fn lemma_within_first(levels: Seq<BookLevel>, side: Side, limit: Price)
    requires
        levels.len() > 0,
    ensures
        size_within(levels, side, limit) == size_within(levels.drop_first(), side, limit)
            + if is_within(side, levels[0].price, limit) {
            levels[0].qty.0 as int
        } else {
            0
        },
    decreases levels.len(),
{
    if levels.len() == 1 {
        assert(levels.drop_last() =~= Seq::<BookLevel>::empty());
        assert(levels.drop_first() =~= Seq::<BookLevel>::empty());
        assert(size_within(levels.drop_last(), side, limit) == 0);
    } else {
        lemma_within_first(levels.drop_last(), side, limit);
        assert(levels.drop_first().drop_last() =~= levels.drop_last().drop_first());
        assert(levels.drop_first().last() == levels.last());
    }
}

/// Which order levels are listed in does not change how much is within a limit.
proof fn lemma_within_either_way(levels: Seq<BookLevel>, side: Side, limit: Price)
    ensures
        size_within(
            Seq::new(levels.len(), |i: int| levels[levels.len() - 1 - i]),
            side,
            limit,
        ) == size_within(levels, side, limit),
    decreases levels.len(),
{
    let back = Seq::new(levels.len(), |i: int| levels[levels.len() - 1 - i]);
    if levels.len() > 0 {
        let less = levels.drop_last();
        lemma_within_either_way(less, side, limit);
        lemma_within_first(back, side, limit);
        assert(back.drop_first() =~= Seq::new(less.len(), |i: int| less[less.len() - 1 - i]));
    }
}

proof fn lemma_size_first(levels: Seq<BookLevel>)
    requires
        levels.len() > 0,
    ensures
        size_of(levels) == size_of(levels.drop_first()) + levels[0].qty.0,
    decreases levels.len(),
{
    if levels.len() == 1 {
        assert(levels.drop_last() =~= Seq::<BookLevel>::empty());
        assert(levels.drop_first() =~= Seq::<BookLevel>::empty());
        assert(size_of(levels.drop_last()) == 0);
    } else {
        lemma_size_first(levels.drop_last());
        assert(levels.drop_first().drop_last() =~= levels.drop_last().drop_first());
        assert(levels.drop_first().last() == levels.last());
    }
}

proof fn lemma_size_either_way(levels: Seq<BookLevel>)
    ensures
        size_of(Seq::new(levels.len(), |i: int| levels[levels.len() - 1 - i])) == size_of(levels),
    decreases levels.len(),
{
    let back = Seq::new(levels.len(), |i: int| levels[levels.len() - 1 - i]);
    if levels.len() > 0 {
        let less = levels.drop_last();
        lemma_size_either_way(less);
        lemma_size_first(back);
        assert(back.drop_first() =~= Seq::new(less.len(), |i: int| less[less.len() - 1 - i]));
    }
}

/// The side of the book that an order trades against.
pub open spec fn against(book: BookView, side: Side) -> Seq<BookLevel> {
    match side {
        Side::Buy => book.asks,
        Side::Sell => book.bids,
    }
}

/// What rests against an order and it can reach: everything for a market order,
/// the levels at its limit or better for a limit order.
pub open spec fn reachable(book: BookView, request: OrderRequest) -> int {
    match request.kind {
        OrderType::Market => size_of(against(book, request.side)),
        OrderType::Limit { price } => size_within(
            against(book, request.side),
            request.side,
            price,
        ),
        _ => 0,
    }
}

pub proof fn lemma_reach(book: BookView, side: Side, limit: Price)
    requires
        book.wf(),
    ensures
        total_size(facing(book, side)) == size_of(against(book, side)),
        total_size(crossing(facing(book, side), side, limit)) == size_within(
            against(book, side),
            side,
            limit,
        ),
{
    let levels = best_first(book, side);
    lemma_best_first(book, side);
    lemma_size_of(levels);
    lemma_size_either_way(book.bids);
    lemma_crossing_ends(levels, side, limit);
    let k = crossing(levels, side, limit).len() as int;
    assert forall|i: int| 0 <= i < levels.len() implies (is_within(
        side,
        (#[trigger] levels[i]).price,
        limit,
    ) <==> i < k) by {
        if i > k {
            match side {
                Side::Buy => {
                    assert(book.asks[k].price.0 < book.asks[i].price.0);
                },
                Side::Sell => {
                    let n = book.bids.len();
                    assert(book.bids[n - 1 - i].price.0 < book.bids[n - 1 - k].price.0);
                    assert(levels[i] == book.bids[n - 1 - i]);
                    assert(levels[k] == book.bids[n - 1 - k]);
                },
            }
        }
    }
    lemma_within_prefix(levels, side, limit, k);
    lemma_within_either_way(book.bids, side, limit);
}

/// Taking from levels takes each whole until the rest fits into one.
pub proof fn lemma_taken_whole(levels: Seq<BookLevel>, want: int)
    requires
        forall|i: int| 0 <= i < levels.len() ==> (#[trigger] levels[i]).qty.0 > 0,
        want <= i64::MAX,
    ensures
        ({
            let plan = taken_from(levels, want);
            &&& plan.len() <= levels.len()
            &&& forall|i: int|
                0 <= i < plan.len() ==> (#[trigger] plan[i]).0 == levels[i].price && 0
                    < plan[i].1.0 <= levels[i].qty.0
            &&& forall|i: int| 0 <= i < plan.len() - 1 ==> (#[trigger] plan[i]).1 == levels[i].qty
        }),
    decreases levels.len(),
{
    if levels.len() > 0 && want > 0 {
        let take = if levels[0].qty.0 < want {
            levels[0].qty
        } else {
            Qty(want as i64)
        };
        let tail = levels.drop_first();
        assert forall|i: int| 0 <= i < tail.len() implies (#[trigger] tail[i]).qty.0 > 0 by {
            assert(tail[i] == levels[i + 1]);
        }
        lemma_taken_whole(tail, want - take.0);
        let rest = taken_from(tail, want - take.0);
        let plan = taken_from(levels, want);
        assert forall|i: int| 0 <= i < plan.len() implies (#[trigger] plan[i]).0 == levels[i].price
            && 0 < plan[i].1.0 <= levels[i].qty.0 by {
            if i > 0 {
                assert(plan[i] == rest[i - 1]);
                assert(tail[i - 1] == levels[i]);
            }
        }
        assert forall|i: int| 0 <= i < plan.len() - 1 implies (#[trigger] plan[i]).1
            == levels[i].qty by {
            if i > 0 {
                assert(plan[i] == rest[i - 1]);
                assert(tail[i - 1] == levels[i]);
            }
        }
    }
}

pub proof fn lemma_signed(qty: int, side: Side)
    ensures
        qty * side.sign() == match side {
            Side::Buy => qty,
            Side::Sell => -qty,
        },
{
    assert(qty * -1 == -qty);
}

/// What filling a plan reports and does to the position.
pub proof fn lemma_fills_of_plan(f: Filling, plan: Seq<(Price, Qty)>, now: Ts)
    requires
        fill_all(f, plan, now).ok,
    ensures
        ({
            let g = fill_all(f, plan, now);
            &&& g.made.len() == f.made.len() + plan.len()
            &&& forall|i: int| 0 <= i < f.made.len() ==> g.made[i] == #[trigger] f.made[i]
            &&& forall|i: int|
                f.made.len() <= i < g.made.len() ==> {
                    let fill = #[trigger] g.made[i];
                    &&& fill.price == plan[i - f.made.len()].0
                    &&& fill.qty == plan[i - f.made.len()].1
                    &&& fill.side == f.order.side
                    &&& fill.ts == now
                    &&& fill.order_id == f.order.id
                }
            &&& g.desk.position.qty.0 - f.desk.position.qty.0 == match f.order.side {
                Side::Buy => planned(plan),
                Side::Sell => -planned(plan),
            }
            &&& plan.len() > 0 ==> g.desk.last_price == Some(plan.last().0)
            &&& plan.len() == 0 ==> g.desk.last_price == f.desk.last_price
            &&& g.order.avg_fill_price is None ==> plan.len() == 0
            &&& g.desk.now == f.desk.now
            &&& g.order.created == f.order.created
            &&& g.order.closed == f.order.closed
            &&& g.order.reject_reason == f.order.reject_reason
        }),
    decreases plan.len(),
{
    if plan.len() > 0 {
        let h = fill_one(f, plan[0].0, plan[0].1, now);
        let rest = plan.drop_first();
        lemma_fill_all_ok(h, rest, now);
        lemma_fills_of_plan(h, rest, now);
        let g = fill_all(f, plan, now);
        assert(g == fill_all(h, rest, now));
        lemma_signed(plan[0].1.0 as int, f.order.side);
        assert(h.desk.position.qty.0 - f.desk.position.qty.0 == match f.order.side {
            Side::Buy => plan[0].1.0 as int,
            Side::Sell => -plan[0].1.0,
        });
        assert forall|i: int| 0 <= i < f.made.len() implies g.made[i] == #[trigger] f.made[i] by {
            assert(h.made[i] == f.made[i]);
        }
        assert forall|i: int| f.made.len() <= i < g.made.len() implies {
            let fill = #[trigger] g.made[i];
            &&& fill.price == plan[i - f.made.len()].0
            &&& fill.qty == plan[i - f.made.len()].1
            &&& fill.side == f.order.side
            &&& fill.ts == now
            &&& fill.order_id == f.order.id
        } by {
            if i == f.made.len() {
                assert(g.made[i] == h.made[i]);
            } else {
                assert(rest[i - h.made.len()] == plan[i - f.made.len()]);
            }
        }
        if rest.len() > 0 {
            assert(rest.last() == plan.last());
        } else {
            assert(plan.last() == plan[0]);
        }
    }
}

/// What a request comes to at once. A market order takes from everything that
/// rests against it, a limit order from every level at its limit or better, both
/// bounds included: it fills the smaller of what it asks and what is there. The
/// fills are of the best levels, one fill to a level, each level whole before
/// the next is touched. A fill-or-kill order fills nothing where that falls
/// short of all of it. The position changes by what filled, on the order's side.
pub proof fn law_an_order_takes_the_best_that_it_can_reach(
    before: EngineView,
    request: OrderRequest,
    book: BookView,
    now: Ts,
)
    requires
        before.wf(),
        book.wf(),
        before.config.allow_book_walk || request.kind is Limit,
        request.kind is Market || request.kind is Limit,
        submission(before, request, book, now).ok,
        submission(before, request, book, now).result is Ok,
    ensures
        ({
            let s = submission(before, request, book, now);
            let (order, fills) = s.result->Ok_0;
            let there = reachable(book, request);
            let levels = best_first(book, request.side);
            let killed = request.tif is Fok && there < request.qty.0;
            &&& order.filled.0 == if killed {
                0
            } else {
                smaller(request.qty.0 as int, there)
            }
            &&& fills.len() <= levels.len()
            &&& killed ==> fills.len() == 0
            &&& order.filled.0 > 0 <==> fills.len() > 0
            &&& forall|i: int|
                0 <= i < fills.len() ==> {
                    let fill = #[trigger] fills[i];
                    &&& fill.price == levels[i].price
                    &&& 0 < fill.qty.0 <= levels[i].qty.0
                    &&& i < fills.len() - 1 ==> fill.qty == levels[i].qty
                    &&& fill.side == request.side
                    &&& fill.ts == now
                    &&& fill.order_id.0 == before.next_id
                    &&& request.kind is Limit ==> is_within(
                        request.side,
                        fill.price,
                        request.kind->Limit_price,
                    )
                }
            &&& s.desk.position.qty.0 - before.position.qty.0 == match request.side {
                Side::Buy => order.filled.0 as int,
                Side::Sell => -order.filled.0,
            }
            &&& s.desk.last_price == if fills.len() > 0 {
                Some(fills.last().price)
            } else {
                before.last_price
            }
        }),
{
    let desk = EngineView { now, ..before };
    let numbered = EngineView { next_id: (desk.next_id + 1) as u64, ..desk };
    let order = order_for(request, OrderId(desk.next_id), now);
    let plan = opening_plan(desk, request, book)->Ok_0;
    let start = Filling { desk: numbered, order, made: Seq::<Fill>::empty(), ok: true };
    let want = request.qty.0 as int;
    let limit = match request.kind {
        OrderType::Limit { price } => price,
        _ => Price(0),
    };
    lemma_plan(desk.config, request.side, want, book);
    lemma_fill_all_keeps(start, plan, now);
    lemma_facing(book, request.side);
    lemma_best_first(book, request.side);
    lemma_reach(book, request.side, limit);
    let levels = facing(book, request.side);
    lemma_crossing_ends(levels, request.side, limit);
    let from = if request.kind is Market {
        levels
    } else {
        crossing(levels, request.side, limit)
    };
    assert forall|i: int| 0 <= i < from.len() implies #[trigger] from[i] == levels[i]
        && from[i].qty.0 > 0 by {
        assert(levels[i].qty.0 > 0);
    }
    law_a_plan_takes_what_is_there(from, want);
    lemma_taken_whole(from, want);
    let f = placed(numbered, order, plan, now);
    if request.tif is Fok && planned(plan) < want {
    } else {
        lemma_fills_of_plan(start, plan, now);
        let g = fill_all(start, plan, now);
        assert forall|i: int| 0 <= i < g.made.len() implies {
            let fill = #[trigger] g.made[i];
            &&& fill.price == levels[i].price
            &&& 0 < fill.qty.0 <= levels[i].qty.0
            &&& i < g.made.len() - 1 ==> fill.qty == levels[i].qty
            &&& fill.side == request.side
            &&& fill.ts == now
            &&& fill.order_id.0 == before.next_id
            &&& request.kind is Limit ==> is_within(request.side, fill.price, limit)
        } by {
            assert(plan[i].0 == from[i].price);
        }
        if plan.len() > 0 {
            assert(plan[plan.len() - 1].1.0 > 0);
            lemma_planned_positive(plan);
            assert(g.made[plan.len() - 1] == g.made.last());
        } else {
            assert(planned(plan) == 0);
        }
    }
    lemma_recorded_keeps(f, now);
}

proof fn lemma_planned_positive(plan: Seq<(Price, Qty)>)
    requires
        plan.len() > 0,
        forall|i: int| 0 <= i < plan.len() ==> (#[trigger] plan[i]).1.0 > 0,
    ensures
        planned(plan) > 0,
    decreases plan.len(),
{
    if plan.len() > 1 {
        let rest = plan.drop_first();
        assert forall|i: int| 0 <= i < rest.len() implies (#[trigger] rest[i]).1.0 > 0 by {
            assert(rest[i] == plan[i + 1]);
        }
        lemma_planned_positive(rest);
    } else {
        assert(plan.drop_first() =~= Seq::<(Price, Qty)>::empty());
        assert(planned(plan.drop_first()) == 0);
    }
}

/// Recording an order leaves the position, the fills and the last price alone.
proof fn lemma_recorded_keeps(f: Filling, now: Ts)
    requires
        f.desk.wf(),
        !f.desk.orders.contains_key(f.order.id.0),
        f.order.id.0 < f.desk.next_id,
        crate::trading::desk::order_ok(f.order.id.0, f.order),
    ensures
        recorded(f, now).position == f.desk.position,
        recorded(f, now).fills == f.desk.fills,
        recorded(f, now).last_price == f.desk.last_price,
        recorded(f, now).next_id == f.desk.next_id,
        recorded(f, now).config == f.desk.config,
        recorded(f, now).orders.contains_key(f.order.id.0),
        recorded(f, now).orders[f.order.id.0] == f.order,
{
    let bare = recorded(Filling { made: Seq::<Fill>::empty(), ..f }, now);
    lemma_recorded(Filling { made: Seq::<Fill>::empty(), ..f }, now);
    if f.made.len() > 0 {
        if let Some(g) = f.order.oco_group {
            let ids = crate::trading::desk::siblings(bare.working, bare.orders, g, f.order.id);
            crate::trading::desk::lemma_cancel_each(bare, ids, now);
            lemma_cancel_keeps_price(bare, ids, now);
            crate::trading::laws::law_one_cancels_the_others(bare, f.order.id, g, now);
            assert(!crate::trading::desk::is_sibling(bare.orders, f.order.id, g, f.order.id));
            assert(crate::trading::desk::without_siblings(
                bare,
                f.order.id,
                Some(g),
                now,
            ).orders[f.order.id.0] == f.order);
        }
    }
}

pub proof fn lemma_cancel_keeps_price(desk: EngineView, ids: Seq<OrderId>, now: Ts)
    ensures
        crate::trading::desk::cancel_each(desk, ids, now).last_price == desk.last_price,
        crate::trading::desk::cancel_each(desk, ids, now).now == desk.now,
        crate::trading::desk::cancel_each(desk, ids, now).instrument == desk.instrument,
    decreases ids.len(),
{
    if ids.len() > 0 {
        lemma_cancel_keeps_price(
            crate::trading::desk::cancelled(desk, ids[0], now),
            ids.drop_first(),
            now,
        );
    }
}

/// What a request leaves on record. The order carries the request and the next
/// number, and is filled exactly where all of it filled. What did not fill rests
/// only for a good-till-cancelled limit order, as partly filled where something
/// did; stops wait for their trigger untouched; everything else that fell short
/// is cancelled. Only orders that ended are closed, at the time of the request.
pub proof fn law_a_submitted_order_is_on_record(
    before: EngineView,
    request: OrderRequest,
    book: BookView,
    now: Ts,
)
    requires
        before.wf(),
        book.wf(),
        submission(before, request, book, now).ok,
        submission(before, request, book, now).result is Ok,
    ensures
        ({
            let s = submission(before, request, book, now);
            let (order, fills) = s.result->Ok_0;
            let rests = request.kind is Limit && request.tif is Gtc;
            let waits = request.kind is Stop || request.kind is StopLimit;
            &&& order.id.0 == before.next_id
            &&& s.desk.next_id == before.next_id + 1
            &&& s.desk.now == now
            &&& s.desk.config == before.config
            &&& s.desk.orders.contains_key(before.next_id)
            &&& s.desk.orders[before.next_id] == order
            &&& order.side == request.side
            &&& order.kind == request.kind
            &&& order.qty == request.qty
            &&& order.tif == request.tif
            &&& order.oco_group == request.oco_group
            &&& order.created == now
            &&& order.reject_reason is None
            &&& order.status is Filled <==> order.filled == order.qty
            &&& order.status is Pending <==> waits
            &&& waits ==> order.filled.0 == 0 && fills.len() == 0
            &&& order.status is Working <==> rests && order.filled.0 == 0
            &&& order.status is PartiallyFilled <==> rests && 0 < order.filled.0
                < order.qty.0
            &&& order.status is Cancelled <==> !rests && !waits && order.filled.0 < order.qty.0
            &&& order.closed == if order.status is Filled || order.status is Cancelled {
                Some(now)
            } else {
                None
            }
            &&& s.desk.working.contains(order.id) <==> order.status is Pending || order.status
                is Working || order.status is PartiallyFilled
            &&& order.avg_fill_price is None ==> fills.len() == 0
            &&& fills.len() == 0 ==> order.avg_fill_price is None
        }),
{
    let desk = EngineView { now, ..before };
    let numbered = EngineView { next_id: (desk.next_id + 1) as u64, ..desk };
    let order = order_for(request, OrderId(desk.next_id), now);
    let plan = opening_plan(desk, request, book)->Ok_0;
    let start = Filling { desk: numbered, order, made: Seq::<Fill>::empty(), ok: true };
    lemma_plan(desk.config, request.side, request.qty.0 as int, book);
    lemma_fill_all_keeps(start, plan, now);
    let f = placed(numbered, order, plan, now);
    if (request.kind is Market || request.kind is Limit) && !(request.tif is Fok && planned(plan)
        < request.qty.0) {
        lemma_fills_of_plan(start, plan, now);
        if plan.len() == 0 {
            assert(planned(plan) == 0);
        }
    }
    lemma_recorded_keeps(f, now);
    crate::trading::desk::lemma_submission_wf(before, request, book, now);
    let after = submission(before, request, book, now).desk;
    assert(after.wf());
    if after.working.contains(f.order.id) {
        let j = after.working.index_of(f.order.id);
        assert(crate::trading::desk::is_live(after.orders, after.working[j]));
    }
    if f.order.status.live() {
        assert(after.orders.contains_key(f.order.id.0));
        assert(after.working.contains(OrderId(f.order.id.0)));
    }
    lemma_recorded_clock(f, now);
}

proof fn lemma_recorded_clock(f: Filling, now: Ts)
    ensures
        recorded(f, now).now == f.desk.now,
        recorded(f, now).instrument == f.desk.instrument,
{
    let desk = EngineView {
        orders: f.desk.orders.insert(f.order.id.0, f.order),
        working: if f.order.status.live() {
            f.desk.working.push(f.order.id)
        } else {
            f.desk.working
        },
        ..f.desk
    };
    if let Some(g) = f.order.oco_group {
        lemma_cancel_keeps_price(
            desk,
            crate::trading::desk::siblings(desk.working, desk.orders, g, f.order.id),
            now,
        );
    }
}

/// Why a request is refused, in this order: a size that is not positive; a limit
/// or trigger price that is not positive; as many working orders as are allowed;
/// a position beyond the limit that the order would make larger still; and no
/// size to trade against. A market order finds none where nothing rests against
/// it, and none where it may only take the best level and that is too small.
/// Anything else is accepted.
pub proof fn law_requests_are_refused_for_a_reason(
    before: EngineView,
    request: OrderRequest,
    book: BookView,
    now: Ts,
)
    ensures
        ({
            let result = submission(before, request, book, now).result;
            let after = match request.side {
                Side::Buy => before.position.qty.0 + request.qty.0,
                Side::Sell => before.position.qty.0 - request.qty.0,
            };
            let held = if before.position.qty.0 < 0 {
                -before.position.qty.0
            } else {
                before.position.qty.0 as int
            };
            let larger = if after < 0 {
                -after
            } else {
                after
            };
            let price_ok = match request.kind {
                OrderType::Market => true,
                OrderType::Limit { price } => price.0 > 0,
                OrderType::Stop { trigger } => trigger.0 > 0,
                OrderType::StopLimit { trigger, limit } => trigger.0 > 0 && limit.0 > 0,
            };
            let levels = best_first(book, request.side);
            result == if request.qty.0 <= 0 {
                Err(RejectReason::NonPositiveQty)
            } else if !price_ok {
                Err(RejectReason::NonPositivePrice)
            } else if before.working.len() >= before.config.max_working_orders {
                Err(RejectReason::TooManyOrders { limit: before.config.max_working_orders })
            } else if before.config.max_position is Some && larger
                > (before.config.max_position->0).0 && larger > held {
                Err(RejectReason::PositionLimit { limit: before.config.max_position->0 })
            } else if request.kind is Market && (levels.len() == 0 || (
            !before.config.allow_book_walk && levels[0].qty.0 < request.qty.0)) {
                Err(RejectReason::NoMarket)
            } else {
                Ok(result->Ok_0)
            }
        }),
{
    lemma_signed(request.qty.0 as int, request.side);
    lemma_best_first(book, request.side);
}

/// Where orders may not walk the book, a market order that is accepted takes all
/// it asks from the best level, in one fill.
pub proof fn law_without_walking_one_level_fills_all(
    before: EngineView,
    request: OrderRequest,
    book: BookView,
    now: Ts,
)
    requires
        before.wf(),
        book.wf(),
        !before.config.allow_book_walk,
        request.kind is Market,
        submission(before, request, book, now).ok,
        submission(before, request, book, now).result is Ok,
    ensures
        ({
            let (order, fills) = submission(before, request, book, now).result->Ok_0;
            &&& order.filled == request.qty
            &&& order.status is Filled
            &&& fills.len() == 1
            &&& fills[0].qty == request.qty
            &&& fills[0].price == best_first(book, request.side)[0].price
        }),
{
    let desk = EngineView { now, ..before };
    let numbered = EngineView { next_id: (desk.next_id + 1) as u64, ..desk };
    let order = order_for(request, OrderId(desk.next_id), now);
    let plan = opening_plan(desk, request, book)->Ok_0;
    let start = Filling { desk: numbered, order, made: Seq::<Fill>::empty(), ok: true };
    let want = request.qty.0 as int;
    lemma_plan(desk.config, request.side, want, book);
    lemma_fill_all_keeps(start, plan, now);
    lemma_best_first(book, request.side);
    let levels = facing(book, request.side);
    lemma_facing(book, request.side);
    let one = levels.take(1);
    assert(one[0] == levels[0]);
    lemma_taken_whole(one, want);
    law_a_plan_takes_what_is_there(one, want);
    assert(one.drop_last() =~= Seq::<BookLevel>::empty());
    assert(total_size(one.drop_last()) == 0);
    assert(total_size(one) == one[0].qty.0);
    lemma_fills_of_plan(start, plan, now);
    if plan.len() == 0 {
        assert(planned(plan) == 0);
    }
    assert(plan.drop_first() =~= Seq::<(Price, Qty)>::empty());
    assert(planned(plan.drop_first()) == 0);
    assert(fill_all(start, plan, now).made[0].qty == plan[0].1);
}

/// A fill that would be made costs a commission: the notional times the rate,
/// cut off toward zero, as long as 64 bits hold both.
pub proof fn law_a_commission_is_a_share_of_the_notional(
    config: crate::trading::engine::TradingConfig,
    price: Price,
    qty: Qty,
)
    requires
        config.commission_rate.wf(),
        price.0 >= 0,
        qty.0 >= 0,
        price.0 * qty.0 < 100_000_000 * i64::MAX,
        crate::trading::desk::commission_of(config, price, qty).0 < i64::MAX,
    ensures
        ({
            let c = crate::trading::desk::commission_of(config, price, qty).0 as int;
            let notional = price.0 * qty.0 / 100_000_000;
            c * config.commission_rate.den <= notional * config.commission_rate.num < (c + 1)
                * config.commission_rate.den
        }),
{
    let p = price.0 * qty.0;
    assert(p >= 0) by (nonlinear_arith)
        requires
            p == price.0 * qty.0,
            price.0 >= 0,
            qty.0 >= 0,
    ;
    let notional = crate::primitives::fixed::notional_of(price.0 as int, qty.0 as int);
    assert(notional == p / 100_000_000);
    let rate = config.commission_rate;
    let raw = crate::primitives::fixed::truncated_div(notional * rate.num, rate.den as int);
    assert(notional * rate.num >= 0) by (nonlinear_arith)
        requires
            notional >= 0,
            rate.num >= 0,
    ;
    crate::primitives::fixed::law_division_cuts_off_toward_zero(
        notional * rate.num,
        rate.den as int,
    );
    assert(raw >= 0) by (nonlinear_arith)
        requires
            raw * rate.den >= 0,
            rate.den > 0,
    ;
    crate::primitives::ratio::law_a_part_is_cut_off_toward_zero(notional, rate);
}

/// A request for a market order names its side and size; one for a limit order its
/// limit as well. Both stay until they are filled or cancelled, and join no group.
pub proof fn law_requests_are_as_they_were_made(side: Side, qty: Qty, price: Price)
    ensures
        market_request(side, qty).kind is Market,
        market_request(side, qty).side == side,
        market_request(side, qty).qty == qty,
        market_request(side, qty).tif is Gtc,
        market_request(side, qty).oco_group is None,
        limit_request(side, qty, price).kind == (OrderType::Limit { price }),
        limit_request(side, qty, price).side == side,
        limit_request(side, qty, price).qty == qty,
        limit_request(side, qty, price).tif is Gtc,
        limit_request(side, qty, price).oco_group is None,
{
}

} // verus!
