//! What a depth handshake does with each update and each snapshot, how long
//! retries wait, and what a generated feed emits.

use crate::feed::error::FeedError;
use crate::feed::json::{Json, JsonKind};
use crate::feed::live::LinkStep;
use crate::primitives::market::MarketEvent;
use vstd::prelude::*;

verus! {

use crate::feed::backoff::{law_delays_stay_within_bounds, xorshift, BackoffView};
use crate::feed::sync::{
    beyond, fresh_sync, in_sequence, law_released_updates_leave_no_gap, lemma_in_sequence, opens_hole,
    payloads, pending_after, placed_update, reached, SyncView,
};
use crate::feed::binance::{page_in, payload_of, trade_in, trades_in};
use crate::feed::live::{released, routed, LinkView};
use crate::feed::replay::ReplayView;
use crate::feed::synthetic::{drawn_size, lemma_levels, SyntheticView};
use crate::feed::wire::{holds, holds_text, law_fields_are_found_by_name};
use crate::primitives::market::{EventView, Trade};

/// What becomes of an update once the book is live. One that ends no later than
/// the book is dropped. Of the others, one that starts later than right behind the
/// book leaves a gap, and any other is applied and moves the book to its end.
/// Nothing is buffered any more.
pub proof fn law_a_live_book_takes_what_joins_on<T>(
    sync: SyncView<T>,
    first_id: u64,
    final_id: u64,
    payload: T,
)
    requires
        sync.state is Live,
        sync.resyncs < u64::MAX,
    ensures
        ({
            let action = sync.action(first_id, final_id);
            let after = sync.offered(first_id, final_id, payload);
            let known = final_id <= sync.last_applied;
            let skips = !known && first_id - sync.last_applied > 1;
            &&& known ==> action is Discard && after == sync
            &&& skips ==> action is Resync && after.state is Gapped && after.resyncs == sync.resyncs
                + 1 && after.last_applied == sync.last_applied
            &&& !known && !skips ==> action is Apply && after.state is Live && after.last_applied
                == final_id && after.resyncs == sync.resyncs
            &&& after.buffer == sync.buffer
        }),
{
}

/// While a snapshot is awaited, an update waits in the buffer, behind the earlier
/// ones, as long as there is room.
pub proof fn law_updates_wait_for_the_snapshot<T>(
    sync: SyncView<T>,
    first_id: u64,
    final_id: u64,
    payload: T,
)
    requires
        sync.state is AwaitingSnapshot,
        sync.buffer.len() < sync.buffer_limit,
    ensures
        sync.action(first_id, final_id) is Buffer,
        sync.offered(first_id, final_id, payload).state is AwaitingSnapshot,
        sync.offered(first_id, final_id, payload).buffer.drop_last() == sync.buffer,
        sync.offered(first_id, final_id, payload).buffer.last() == (first_id, final_id, payload),
{
    assert(sync.offered(first_id, final_id, payload).buffer.drop_last() =~= sync.buffer);
}

proof fn lemma_beyond<T>(buffer: Seq<(u64, u64, T)>, snapshot: u64, update: (u64, u64, T))
    ensures
        beyond(buffer, snapshot).contains(update) <==> buffer.contains(update) && update.1
            > snapshot,
        beyond(buffer, snapshot).to_multiset().count(update) == if update.1 > snapshot {
            buffer.to_multiset().count(update)
        } else {
            0
        },
    decreases buffer.len(),
{
    broadcast use vstd::seq_lib::group_to_multiset_ensures;

    if buffer.len() > 0 {
        let less = buffer.drop_last();
        lemma_beyond(less, snapshot, update);
        assert(buffer =~= less.push(buffer.last()));
    }
    assert(beyond(buffer, snapshot).to_multiset().count(update) > 0 <==> beyond(
        buffer,
        snapshot,
    ).contains(update));
    assert(buffer.to_multiset().count(update) > 0 <==> buffer.contains(update));
}

/// A snapshot is followed by the buffered updates that end beyond it, each as
/// often as it was buffered, and by no other, in the order in which they start.
pub proof fn law_a_snapshot_is_followed_by_what_it_lacks<T>(
    buffer: Seq<(u64, u64, T)>,
    snapshot: u64,
    update: (u64, u64, T),
)
    ensures
        pending_after(buffer, snapshot).to_multiset().count(update) == if update.1 > snapshot {
            buffer.to_multiset().count(update)
        } else {
            0
        },
        forall|i: int, j: int|
            0 <= i <= j < pending_after(buffer, snapshot).len() ==> (#[trigger] pending_after(
                buffer,
                snapshot,
            )[i]).0 <= (#[trigger] pending_after(buffer, snapshot)[j]).0,
        payloads(pending_after(buffer, snapshot)).len() == pending_after(buffer, snapshot).len(),
        forall|i: int|
            0 <= i < pending_after(buffer, snapshot).len() ==> #[trigger] payloads(
                pending_after(buffer, snapshot),
            )[i] == pending_after(buffer, snapshot)[i].2,
{
    lemma_beyond(buffer, snapshot, update);
    lemma_in_sequence(beyond(buffer, snapshot));
}

/// Whether an update of a buffer carries an id.
pub open spec fn is_carried<T>(buffer: Seq<(u64, u64, T)>, id: int) -> bool {
    exists|i: int| 0 <= i < buffer.len() && (#[trigger] buffer[i]).0 <= id <= buffer[i].1
}

/// Whether no update of a buffer ends beyond an id.
pub open spec fn is_last_id<T>(buffer: Seq<(u64, u64, T)>, snapshot: u64, last: u64) -> bool {
    &&& last >= snapshot
    &&& forall|i: int| 0 <= i < buffer.len() ==> (#[trigger] buffer[i]).1 <= last
    &&& last == snapshot || exists|i: int| 0 <= i < buffer.len() && (#[trigger] buffer[i]).1 == last
}

proof fn lemma_reached<T>(updates: Seq<(u64, u64, T)>, snapshot: u64)
    ensures
        is_last_id(updates, snapshot, reached(snapshot, updates)),
    decreases updates.len(),
{
    if updates.len() > 0 {
        let less = updates.drop_last();
        let n = less.len() as int;
        lemma_reached(less, snapshot);
        let before = reached(snapshot, less);
        let last = reached(snapshot, updates);
        assert forall|i: int| 0 <= i < updates.len() implies (#[trigger] updates[i]).1 <= last by {
            if i < n {
                assert(less[i] == updates[i]);
            }
        }
        if last == before && last != snapshot {
            let i = choose|i: int| 0 <= i < less.len() && (#[trigger] less[i]).1 == before;
            assert(updates[i].1 == last);
        } else if last != snapshot {
            assert(updates[n].1 == last);
        }
    }
}

proof fn lemma_pending_member<T>(buffer: Seq<(u64, u64, T)>, snapshot: u64, update: (u64, u64, T))
    ensures
        pending_after(buffer, snapshot).contains(update) <==> buffer.contains(update) && update.1
            > snapshot,
{
    broadcast use vstd::seq_lib::group_to_multiset_ensures;

    law_a_snapshot_is_followed_by_what_it_lacks(buffer, snapshot, update);
    let pending = pending_after(buffer, snapshot);
    assert(pending.to_multiset().count(update) > 0 <==> pending.contains(update));
    assert(buffer.to_multiset().count(update) > 0 <==> buffer.contains(update));
}

proof fn lemma_carried<T>(buffer: Seq<(u64, u64, T)>, snapshot: u64, id: int)
    requires
        id > snapshot,
    ensures
        is_carried(pending_after(buffer, snapshot), id) <==> is_carried(buffer, id),
{
    let pending = pending_after(buffer, snapshot);
    if is_carried(pending, id) {
        let i = choose|i: int|
            0 <= i < pending.len() && (#[trigger] pending[i]).0 <= id <= pending[i].1;
        lemma_pending_member(buffer, snapshot, pending[i]);
        assert(pending.contains(pending[i]));
        let j = buffer.index_of(pending[i]);
        assert(buffer[j].0 <= id <= buffer[j].1);
    }
    if is_carried(buffer, id) {
        let i = choose|i: int|
            0 <= i < buffer.len() && (#[trigger] buffer[i]).0 <= id <= buffer[i].1;
        assert(buffer.contains(buffer[i]));
        lemma_pending_member(buffer, snapshot, buffer[i]);
        let j = pending.index_of(buffer[i]);
        assert(pending[j].0 <= id <= pending[j].1);
    }
}

/// A snapshot makes the book live exactly where the buffer carries every id from
/// right behind the snapshot up to the last one buffered; the book is then at that
/// last one. Otherwise the handshake begins again. Either way nothing stays
/// buffered.
pub proof fn law_a_snapshot_needs_every_later_id<T>(sync: SyncView<T>, snapshot: u64, last: u64)
    requires
        forall|i: int|
            0 <= i < sync.buffer.len() ==> (#[trigger] sync.buffer[i]).0 <= sync.buffer[i].1,
        is_last_id(sync.buffer, snapshot, last),
        sync.resyncs < u64::MAX,
    ensures
        ({
            let after = sync.snapped(snapshot);
            let whole = forall|id: int| snapshot < id <= last ==> #[trigger] is_carried(
                sync.buffer,
                id,
            );
            &&& whole ==> after.state is Live && after.last_applied == last && after.resyncs
                == sync.resyncs
            &&& !whole ==> after.state is AwaitingSnapshot && after.resyncs == sync.resyncs + 1
            &&& after.buffer.len() == 0
            &&& sync.has_hole(snapshot) <==> !whole
        }),
{
    let pending = pending_after(sync.buffer, snapshot);
    law_released_updates_leave_no_gap(sync, snapshot);
    lemma_reached(pending, snapshot);
    let end = reached(snapshot, pending);
    assert(end == last) by {
        if last > snapshot {
            let i = choose|i: int|
                0 <= i < sync.buffer.len() && (#[trigger] sync.buffer[i]).1 == last;
            assert(sync.buffer.contains(sync.buffer[i]));
            lemma_pending_member(sync.buffer, snapshot, sync.buffer[i]);
            let j = pending.index_of(sync.buffer[i]);
            assert(pending[j].1 == last);
        }
        if end > snapshot {
            let i = choose|i: int| 0 <= i < pending.len() && (#[trigger] pending[i]).1 == end;
            assert(pending.contains(pending[i]));
            lemma_pending_member(sync.buffer, snapshot, pending[i]);
            let j = sync.buffer.index_of(pending[i]);
            assert(sync.buffer[j].1 == end);
        }
    }
    if sync.has_hole(snapshot) {
        let i = choose|i: int|
            0 <= i < pending.len() && #[trigger] opens_hole(pending, snapshot, i);
        let before = pending.take(i);
        lemma_reached(before, snapshot);
        let id = reached(snapshot, before) + 1;
        assert(pending.contains(pending[i]));
        lemma_pending_member(sync.buffer, snapshot, pending[i]);
        let k = sync.buffer.index_of(pending[i]);
        assert(sync.buffer[k].0 <= sync.buffer[k].1);
        assert(!is_carried(pending, id)) by {
            if is_carried(pending, id) {
                let j = choose|j: int|
                    0 <= j < pending.len() && (#[trigger] pending[j]).0 <= id <= pending[j].1;
                if j < i {
                    assert(before[j] == pending[j]);
                } else {
                    law_a_snapshot_is_followed_by_what_it_lacks(
                        sync.buffer,
                        snapshot,
                        pending[i],
                    );
                    assert(pending[i].0 <= pending[j].0);
                }
            }
        }
        lemma_carried(sync.buffer, snapshot, id);
        assert(!is_carried(sync.buffer, id));
    } else {
        assert forall|id: int| snapshot < id <= last implies #[trigger] is_carried(
            sync.buffer,
            id,
        ) by {
            assert(crate::feed::sync::is_covered(pending, id));
            let i = choose|i: int|
                0 <= i < pending.len() && #[trigger] crate::feed::sync::covers(pending[i], id);
            assert(pending[i].0 <= id <= pending[i].1);
            lemma_carried(sync.buffer, snapshot, id);
        }
    }
}

/// A handshake that begins again forgets what it applied and what it buffered.
pub proof fn law_a_restart_forgets<T>(sync: SyncView<T>)
    ensures
        sync.begun_again().state is AwaitingSnapshot,
        sync.begun_again().last_applied == 0,
        sync.begun_again().buffer.len() == 0,
        sync.begun_again().resyncs == sync.resyncs,
{
}

/// The first wait is drawn from nothing up to the base delay. Every wait is the
/// remainder of the jitter's next state on division by one more than its ceiling,
/// so none is ruled out. A failure counts as long as the count can go up.
pub proof fn law_a_wait_is_drawn_below_its_ceiling(b: BackoffView)
    requires
        b.wf(),
    ensures
        b.attempt == 0 ==> b.ceiling() == b.base,
        0 <= b.delay() <= b.ceiling(),
        (xorshift(b.state) - b.delay()) % (b.ceiling() + 1) == 0,
        b.advanced().state == xorshift(b.state),
        b.attempt < u32::MAX ==> b.advanced().attempt == b.attempt + 1,
        b.advanced().base == b.base,
        b.advanced().max == b.max,
{
    law_delays_stay_within_bounds(b);
    vstd::arithmetic::power2::lemma2_to64();
    assert(b.base * 1 == b.base);
    let (x, m) = (xorshift(b.state) as int, b.ceiling() + 1);
    vstd::arithmetic::div_mod::lemma_fundamental_div_mod(x, m);
    vstd::arithmetic::div_mod::lemma_mod_multiples_basic(x / m, m);
    assert(m * (x / m) == (x / m) * m) by (nonlinear_arith);
}

/// What a link does with a depth update. One that the live book can take is sent
/// on; one that it knows already is not. While a snapshot is awaited the update
/// waits, and the first one to wait has the snapshot fetched. A gap begins the
/// handshake again.
pub proof fn law_a_link_sends_what_joins_on(
    v: LinkView,
    first: u64,
    last: u64,
    event: MarketEvent,
)
    requires
        v.sync.resyncs < u64::MAX,
    ensures
        ({
            let step = v.step(first, last, event);
            let after = v.updated(first, last, event);
            &&& v.sync.state is Live && last <= v.sync.last_applied ==> step is Nothing && after
                == v
            &&& v.sync.state is Live && last > v.sync.last_applied && first <= v.sync.last_applied
                + 1 ==> step == LinkStep::Send(event) && after.sync.last_applied == last
                && after.sync.state is Live && after.snapshot_pending == v.snapshot_pending
            &&& v.sync.state is Live && last > v.sync.last_applied && first > v.sync.last_applied
                + 1 ==> step is Resynchronise && after.snapshot_pending && after.sync.state
                is AwaitingSnapshot
            &&& v.sync.state is AwaitingSnapshot && v.sync.buffer.len() < v.sync.buffer_limit ==> {
                &&& step is FetchSnapshot <==> v.snapshot_pending
                &&& step is Nothing <==> !v.snapshot_pending
                &&& !after.snapshot_pending
                &&& after.sync.buffer.len() == v.sync.buffer.len() + 1
            }
        }),
{
}

/// A window of a replay starts where the last one ended and ends no later than the
/// replay does: a span later, or at the end of the replay where that comes first.
/// An empty window doubles the span of the next, as far as it can go up.
pub proof fn law_replay_windows_follow_each_other(v: ReplayView, trades: Seq<Trade>)
    requires
        v.wf(),
        v.hungry(),
    ensures
        v.window().0 == v.cursor,
        v.cursor.0 + v.span <= v.end.0 ==> v.window().1.0 == v.cursor.0 + v.span,
        v.cursor.0 + v.span >= v.end.0 ==> v.window().1 == v.end,
        v.filled(trades).cursor == v.window().1,
        v.filled(trades).buffer == v.buffer + trades,
        trades.len() == 0 && 2 * v.span <= i64::MAX ==> v.filled(trades).span == 2 * v.span,
        trades.len() > 0 ==> v.filled(trades).span == v.span,
        v.filled(trades).end == v.end,
        v.filled(trades).emitted == v.emitted,
{
}

/// A generated feed ends with its limit. Among its events every so many is a book:
/// the one that completes the count.
pub proof fn law_every_so_many_events_are_a_book(v: SyntheticView, k: int)
    requires
        v.book_every > 0,
        v.emitted + 1 == k * v.book_every,
    ensures
        v.book_next(),
        v.done() <==> v.limit is Some && v.limit->0 <= v.emitted,
{
    let (e, b) = (v.emitted as int, v.book_every as int);
    assert(e == (k - 1) * b + (b - 1)) by (nonlinear_arith)
        requires
            e + 1 == k * b,
    ;
    vstd::arithmetic::div_mod::lemma_fundamental_div_mod_converse(e, b, k - 1, b - 1);
}

/// No other event of a generated feed is a book, and none where books are off.
pub proof fn law_books_come_only_in_turn(v: SyntheticView) -> (k: int)
    requires
        v.book_next(),
    ensures
        v.book_every > 0,
        v.emitted + 1 == k * v.book_every,
{
    let (e, b) = (v.emitted as int, v.book_every as int);
    vstd::arithmetic::div_mod::lemma_fundamental_div_mod(e, b);
    let k = e / b + 1;
    assert(e + 1 == k * b) by (nonlinear_arith)
        requires
            e == b * (e / b) + (b - 1),
            k == e / b + 1,
    ;
    k
}

/// A generated book stands around the price of the walk: its levels are one tick,
/// two ticks and so on below and above it. It carries the time of the feed and the
/// number of the event.
pub proof fn law_a_generated_book_stands_around_the_price(v: SyntheticView, i: int)
    requires
        v.wf(),
        v.tick.0 > 0,
        !v.done(),
        v.book_next(),
        v.can_step(),
        0 <= i < v.depth,
    ensures
        v.next_book() matches EventView::BookSnapshot { ts, bids, asks, sequence } && {
            &&& ts == v.ts
            &&& sequence == v.emitted + 1
            &&& bids.len() == v.depth
            &&& asks.len() == v.depth
            &&& bids[i].0.0 == (v.price_index - 1 - i) * v.tick.0
            &&& asks[i].0.0 == (v.price_index + 1 + i) * v.tick.0
        },
{
    lemma_levels(v, v.depth, i);
    let (p, t) = (v.price_index, v.tick.0 as int);
    let d = v.depth as int;
    assert((p - d) * t <= (p - 1 - i) * t <= (p - 1) * t) by (nonlinear_arith)
        requires
            0 <= i < d,
            t > 0,
    ;
    assert((p + 1) * t <= (p + 1 + i) * t <= (p + d) * t) by (nonlinear_arith)
        requires
            0 <= i < d,
            t > 0,
    ;
}

/// A step of the walk is at most two ticks either way, and one tick toward the
/// anchor for each 64 that it is away.
pub proof fn law_the_walk_is_pulled_back(v: SyntheticView, pull: int)
    requires
        v.wf(),
        crate::trading::pnl::is_whole_part(pull, v.anchor_index - v.price_index, 64),
    ensures
        -2 <= v.walked() - v.price_index - pull <= 2,
{
    crate::indicators::averages::lemma_only_whole_part(pull, v.anchor_index - v.price_index, 64);
}

/// A generated trade is at the price of the walk and of the size given, at the time
/// of the feed; the time then moves on by one step.
pub proof fn law_a_generated_trade_is_at_the_price(v: SyntheticView, draw: u64, size: i64)
    requires
        v.can_trade(size),
    ensures
        v.trade(draw, size).price.0 == v.price_index * v.tick.0,
        v.trade(draw, size).qty.0 == size * 100_000_000,
        v.trade(draw, size).ts == v.ts,
        v.trade(draw, size).id == v.emitted,
        v.traded().ts.0 == v.ts.0 + v.step_nanos,
        v.traded().emitted == v.emitted + 1,
        v.traded().price_index == v.price_index,
{
}

/// A drawn size is a whole number of units from one to five hundred, one more than
/// the remainder of the draw.
pub proof fn law_drawn_sizes_are_whole_units(draw: u64, units: int)
    requires
        1 <= units <= 500,
        (draw - units + 1) % 500 == 0,
    ensures
        drawn_size(draw).0 == units * 100_000_000,
{
}

/// The generator folds its state onto itself three times: shifted up by a factor
/// of 8192, down by 128 and up by 131072, whatever leaves 64 bits being lost.
pub proof fn law_the_generator_folds_three_times(state: u64)
    ensures
        ({
            let first = state ^ ((state * 8192) % 0x1_0000_0000_0000_0000) as u64;
            let second = first ^ (first / 128);
            xorshift(state) == second ^ ((second * 131072) % 0x1_0000_0000_0000_0000) as u64
        }),
{
    assert(state << 13 == ((state * 8192) % 0x1_0000_0000_0000_0000) as u64) by (bit_vector);
    let first = state ^ (state << 13);
    assert(first >> 7 == first / 128) by (bit_vector);
    let second = first ^ (first >> 7);
    assert(second << 17 == ((second * 131072) % 0x1_0000_0000_0000_0000) as u64) by (bit_vector);
}

/// A step of a generated feed makes a book in its turn and walks the price
/// otherwise; at its end it stays as it is. The time moves only with a trade.
pub proof fn law_a_generated_step_is_a_book_or_a_walk(v: SyntheticView)
    requires
        v.can_step(),
    ensures
        v.done() ==> v.stepped() == v,
        !v.done() && v.book_next() ==> v.stepped().emitted == v.emitted + 1
            && v.stepped().price_index == v.price_index,
        !v.done() && !v.book_next() ==> v.stepped().price_index == v.walked()
            && v.stepped().emitted == v.emitted && v.stepped().state == v.draw(),
        v.stepped().ts == v.ts,
        v.stepped().anchor_index == v.anchor_index,
        v.draw() == xorshift(xorshift(v.state)),
{
}

/// A link sends trades on as they come and leaves the handshake alone. A message
/// that it does not know leads to nothing and changes nothing.
pub proof fn law_a_link_routes_by_kind(
    before: LinkView,
    value: Json,
    after: LinkView,
    r: Result<LinkStep, FeedError>,
    kind: Seq<char>,
)
    requires
        routed(before, value, after, r),
        holds_text(payload_of(value), "e"@, kind),
    ensures
        kind == "aggTrade"@ || kind == "trade"@ ==> after == before && match trade_in(
            payload_of(value),
        ) {
            Ok(trade) => r == Ok::<LinkStep, FeedError>(LinkStep::Send(MarketEvent::Trade(trade))),
            Err(_) => r is Err,
        },
        kind != "aggTrade"@ && kind != "trade"@ && kind != "depthUpdate"@ ==> after == before
            && r == Ok::<LinkStep, FeedError>(LinkStep::Nothing),
{
    let payload = payload_of(value);
    let held = choose|held: Json| #[trigger]
        holds(payload, "e"@, held) && (held.kind matches JsonKind::Text(t) && t@ == kind);
    law_fields_are_found_by_name(payload, "e"@, held);
}

/// A snapshot that the buffer joins on to is released first, and then the buffered
/// updates in their order. One that it does not is held back.
pub proof fn law_a_snapshot_is_released_before_its_updates(
    before: LinkView,
    snapshot: EventView,
    after: LinkView,
    events: Seq<MarketEvent>,
    i: int,
)
    requires
        released(before, snapshot, after, events),
        snapshot is BookSnapshot,
    ensures
        ({
            let pending = pending_after(
                before.sync.buffer,
                snapshot->BookSnapshot_sequence,
            );
            &&& after.sync.state is AwaitingSnapshot ==> events.len() == 0
                && after.snapshot_pending
            &&& after.sync.state is Live ==> {
                &&& events.len() == pending.len() + 1
                &&& events[0]@ == snapshot
                &&& 0 <= i < pending.len() ==> events[i + 1] == pending[i].2
            }
        }),
{
    let sequence = snapshot->BookSnapshot_sequence;
    law_released_updates_leave_no_gap(before.sync, sequence);
    if !before.sync.has_hole(sequence) {
        let pending = pending_after(before.sync.buffer, sequence);
        let tail = events.drop_first();
        assert(tail.len() == events.len() - 1);
        assert(payloads(pending).len() == pending.len());
        if 0 <= i < pending.len() {
            assert(tail[i] == events[i + 1]);
            assert(payloads(pending)[i] == pending[i].2);
        }
    }
}

/// A page of trades is a list; anything else is refused.
pub proof fn law_a_page_is_a_list(value: Json)
    ensures
        value.kind matches JsonKind::Array(items) ==> page_in(value) == trades_in(items@),
        !(value.kind is Array) ==> page_in(value) is Err,
{
}

/// A handshake starts without a book, with room to wait.
pub proof fn law_a_handshake_starts_waiting<T>()
    ensures
        fresh_sync::<T>().state is AwaitingSnapshot,
        fresh_sync::<T>().buffer.len() == 0,
        fresh_sync::<T>().resyncs == 0,
        fresh_sync::<T>().buffer_limit > 0,
{
}

proof fn lemma_placed_keeps<T>(updates: Seq<(u64, u64, T)>, update: (u64, u64, T), id: u64)
    ensures
        placed_update(updates, update).filter(|u: (u64, u64, T)| u.0 == id) == updates.push(
            update,
        ).filter(|u: (u64, u64, T)| u.0 == id),
    decreases updates.len(),
{
    reveal_with_fuel(Seq::filter, 3);
    assert(updates.push(update).drop_last() =~= updates);
    if updates.len() > 0 && updates.last().0 > update.0 {
        let less = updates.drop_last();
        lemma_placed_keeps(less, update, id);
        let part = placed_update(less, update);
        assert(part.push(updates.last()).drop_last() =~= part);
        assert(less.push(update).drop_last() =~= less);
    }
}

/// Buffered updates that start at the same id follow a snapshot in the order in
/// which they came.
pub proof fn law_updates_that_start_together_keep_their_order<T>(
    updates: Seq<(u64, u64, T)>,
    id: u64,
)
    ensures
        in_sequence(updates).filter(|u: (u64, u64, T)| u.0 == id) == updates.filter(
            |u: (u64, u64, T)| u.0 == id,
        ),
    decreases updates.len(),
{
    if updates.len() > 0 {
        reveal(Seq::filter);
        let less = updates.drop_last();
        law_updates_that_start_together_keep_their_order(less, id);
        lemma_placed_keeps(in_sequence(less), updates.last(), id);
        assert(in_sequence(less).push(updates.last()).drop_last() =~= in_sequence(less));
    }
}

/// The updates that a snapshot lacks are those that end beyond it, in the order in
/// which they came.
pub proof fn law_what_ends_beyond_a_snapshot_is_kept<T>(
    buffer: Seq<(u64, u64, T)>,
    snapshot: u64,
)
    ensures
        beyond(buffer, snapshot) == buffer.filter(|u: (u64, u64, T)| u.1 > snapshot),
    decreases buffer.len(),
{
    reveal(Seq::filter);
    if buffer.len() > 0 {
        law_what_ends_beyond_a_snapshot_is_kept(buffer.drop_last(), snapshot);
    } else {
        assert(buffer.filter(|u: (u64, u64, T)| u.1 > snapshot) =~= buffer);
    }
}

} // verus!
