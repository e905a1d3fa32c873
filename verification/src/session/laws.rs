//! What a session makes of each event, and what the screen shows of it.

use crate::engine::aggregator::BarSpec;
use crate::engine::bar::BarView;
use crate::feed::error::FeedError;
use crate::primitives::fixed::{Price, Qty};
use crate::primitives::instrument::Instrument;
use crate::primitives::market::{Side, Trade};
use crate::primitives::ratio::Ratio;
use crate::session::commands::{BarSpecRequest, ChoiceWarning};
use crate::session::config::SessionConfig;
use crate::trading::order::{Order, OrderType};
use crate::trading::position::Position;
use vstd::prelude::*;

verus! {

use crate::engine::ladder::{ladder_refusal, LadderSpec, LadderSpecError};
use crate::primitives::book::{BookSide, BookView};
use crate::primitives::fixed::{parsed, ParseFixedError};
use crate::primitives::market::EventView;
use crate::session::commands::{chosen, ChoiceView};
use crate::session::dto::{
    shown_bar, shown_book, spread_fits, FillDto, OrderDto, PositionDto, TapeRowDto,
};
use crate::session::driver::{events_in, failures_in, fault_after, played, Reading, RunStep};
use crate::session::events::AppEventView;
use crate::session::model::{
    bars_closed, event_taken, fill_events, frame, matched, printed, readings, recharted, restarted,
    session_traded, SessionView, Step,
};
use crate::session::state::fresh_session;
use crate::text::{same_folded, trimmed, uppercase};
use crate::trading::desk::traded;

/// The list once one more item is behind it, of at most so many: the oldest goes
/// where it is full, and nothing is kept of a list that may hold none.
pub open spec fn is_kept<T>(before: Seq<T>, item: T, capacity: int, after: Seq<T>) -> bool {
    if capacity == 0 {
        after == before
    } else {
        &&& after.len() > 0
        &&& after.last() == item
        &&& before.len() == capacity ==> after.drop_last() == before.drop_first()
        &&& before.len() != capacity ==> after.drop_last() == before
    }
}

proof fn lemma_kept<T>(before: Seq<T>, item: T, capacity: nat)
    ensures
        is_kept(
            before,
            item,
            capacity as int,
            crate::indicators::scanners::kept(before, item, capacity),
        ),
{
    let after = crate::indicators::scanners::kept(before, item, capacity);
    if capacity > 0 {
        if before.len() == capacity {
            assert(after.drop_last() =~= before.drop_first());
        } else {
            assert(after.drop_last() =~= before);
        }
    }
}

/// The name of a side.
pub open spec fn side_name(side: Side) -> &'static str {
    if side is Buy {
        "buy"
    } else {
        "sell"
    }
}

proof fn lemma_bars_closed(s: Step, bars: Seq<BarView>)
    ensures
        ({
            let v = s.session;
            let after = bars_closed(s, bars).session;
            &&& after.aggregator == v.aggregator
            &&& after.book == v.book
            &&& after.tape == v.tape
            &&& after.big_trades == v.big_trades
            &&& after.speed == v.speed
            &&& after.engine == v.engine
            &&& after.config == v.config
            &&& after.instrument == v.instrument
            &&& after.last_ts == v.last_ts
            &&& after.connected == v.connected
            &&& after.detail == v.detail
            &&& bars_closed(s, bars).events.len() >= s.events.len() + bars.len()
            &&& forall|i: int|
                0 <= i < s.events.len() ==> #[trigger] bars_closed(s, bars).events[i]
                    == s.events[i]
        }),
    decreases bars.len(),
{
    if bars.len() > 0 {
        lemma_bars_closed(s, bars.drop_last());
    }
}

/// A trade reaches every part of a session. It goes on the tape, to the studies of
/// single prints, to the orders at work with the book as it was, and into the bar
/// that is forming. The book does not change.
pub proof fn law_a_trade_reaches_every_part(v: SessionView, trade: Trade)
    ensures
        ({
            let after = session_traded(v, trade).session;
            &&& is_kept(v.tape, trade, v.config.tape_length as int, after.tape)
            &&& after.speed == v.speed.taken(trade)
            &&& after.big_trades == v.big_trades.taken(trade)
            &&& after.engine == traded(v.engine, trade, v.book).desk
            &&& after.aggregator == v.aggregator.taken(trade)
            &&& after.book == v.book
            &&& after.config == v.config
            &&& after.instrument == v.instrument
            &&& after.last_ts == trade.ts
            &&& after.connected == v.connected
            &&& after.detail == v.detail
        }),
{
    let second = matched(printed(v, trade), trade);
    let w = second.session;
    let start = Step {
        session: SessionView { aggregator: w.aggregator.taken(trade), ..w },
        ok: second.ok && w.aggregator.can_take(trade),
        ..second
    };
    lemma_kept(v.tape, trade, v.config.tape_length as nat);
    lemma_bars_closed(start, w.aggregator.closed_by(trade));
}

/// A bar that closes goes to every study of bars and into the history of the
/// chart. A trade that closes none leaves them all alone.
pub proof fn law_a_closed_bar_reaches_every_study(v: SessionView, trade: Trade)
    ensures
        ({
            let after = session_traded(v, trade).session;
            let closed = v.aggregator.closed_by(trade);
            &&& closed.len() == 0 ==> after.cvd == v.cvd && after.vwap == v.vwap && after.profile
                == v.profile && after.scanner == v.scanner && after.bars == v.bars
            &&& closed.len() == 1 ==> after.cvd == v.cvd.taken(closed[0]) && after.vwap
                == v.vwap.taken(closed[0]) && after.profile == v.profile.taken(closed[0])
                && after.scanner == v.scanner.taken(closed[0]) && is_kept(
                v.bars,
                closed[0],
                v.config.bar_history as int,
                after.bars,
            )
            &&& closed.len() == 1 ==> session_traded(v, trade).events.contains(
                AppEventView::BarClosed(
                    shown_bar(
                        closed[0],
                        v.config.imbalance_ratio,
                        v.config.imbalance_min_volume,
                    ),
                ),
            )
        }),
{
    let closed = v.aggregator.closed_by(trade);
    let second = matched(printed(v, trade), trade);
    let w = second.session;
    let start = Step {
        session: SessionView { aggregator: w.aggregator.taken(trade), ..w },
        ok: second.ok && w.aggregator.can_take(trade),
        ..second
    };
    if closed.len() == 1 {
        lemma_kept(v.bars, closed[0], v.config.bar_history as nat);
        reveal_with_fuel(bars_closed, 2);
        assert(closed.drop_last() =~= Seq::<BarView>::empty());
        let third = bars_closed(start, closed);
        let told = AppEventView::BarClosed(w.shown(closed[0]));
        assert(third.events.last() == told);
        let all = session_traded(v, trade).events;
        let at = third.events.len() - 1;
        assert(all[at] == third.events[at]);
        assert(all[at] == told);
    }
}

/// The screen is told of a trade in this order: the print; that it was large,
/// where it was as large as the threshold; each fill that it led to, and after the
/// last of them the position; then whatever bars it closed, and at the end the bar
/// that is forming, if one is.
pub proof fn law_a_trade_is_told_in_order(v: SessionView, trade: Trade, i: int)
    ensures
        ({
            let told = session_traded(v, trade).events;
            let fills = traded(v.engine, trade, v.book).made;
            let large = trade.qty.0 >= v.big_trades.threshold.0;
            let head = if large {
                2int
            } else {
                1
            };
            let n = fills.len() as int;
            &&& told.len() >= head + n
            &&& told[0] == AppEventView::TapeRow(
                TapeRowDto {
                    ts: trade.ts.0,
                    price: trade.price.0,
                    qty: trade.qty.0,
                    side: side_name(trade.aggressor),
                },
            )
            &&& large ==> told[1] == (AppEventView::BigTrade {
                ts: trade.ts.0,
                price: trade.price.0,
                qty: trade.qty.0,
                side: side_name(trade.aggressor),
            })
            &&& 0 <= i < n ==> told[head + i] == AppEventView::Filled(
                FillDto {
                    order_id: fills[i].order_id.0,
                    ts: fills[i].ts.0,
                    price: fills[i].price.0,
                    qty: fills[i].qty.0,
                    side: side_name(fills[i].side),
                },
            )
            &&& n > 0 ==> told.len() > head + n && told[head + n] is PositionChanged
                && told[head + n]->PositionChanged_0.qty == traded(
                v.engine,
                trade,
                v.book,
            ).desk.position.qty.0
            &&& v.aggregator.taken(trade).current matches Some(bar) ==> told.last()
                == AppEventView::BarUpdated(
                shown_bar(bar, v.config.imbalance_ratio, v.config.imbalance_min_volume),
            )
        }),
{
    law_a_trade_reaches_every_part(v, trade);
    let first = printed(v, trade);
    let second = matched(first, trade);
    let w = second.session;
    let start = Step {
        session: SessionView { aggregator: w.aggregator.taken(trade), ..w },
        ok: second.ok && w.aggregator.can_take(trade),
        ..second
    };
    lemma_bars_closed(start, w.aggregator.closed_by(trade));
    let third = bars_closed(start, w.aggregator.closed_by(trade));
    let told = session_traded(v, trade).events;
    let fills = traded(v.engine, trade, v.book).made;
    let head = first.events.len() as int;
    assert forall|k: int| 0 <= k < third.events.len() implies told[k] == third.events[k] by {}
    assert forall|k: int| 0 <= k < second.events.len() implies told[k]
        == #[trigger] second.events[k] by {
        assert(third.events[k] == second.events[k]);
    }
    assert forall|k: int| 0 <= k < first.events.len() implies told[k]
        == #[trigger] first.events[k] by {
        assert(second.events[k] == first.events[k]);
    }
    assert(told[0] == first.events[0]);
    if first.events.len() > 1 {
        assert(told[1] == first.events[1]);
    }
    if 0 <= i < fills.len() {
        assert(second.events[head + i] == fill_events(fills)[i]);
        assert(told[head + i] == second.events[head + i]);
    }
    if fills.len() > 0 {
        assert(told[head + fills.len()] == second.events[head + fills.len()]);
    }
}

/// A snapshot, and a delta that the book takes, change the book and nothing else
/// but the time, and the screen is shown the book. A delta that the book refuses
/// only moves the time. A change of the connection is noted and told; a lost one
/// empties the book until another snapshot.
pub proof fn law_book_events_change_the_book_alone(
    before: SessionView,
    event: EventView,
    after: SessionView,
    told: Seq<AppEventView>,
)
    requires
        event_taken(before, event, after, told),
        !(event is Trade),
    ensures
        after.engine == before.engine,
        after.aggregator == before.aggregator,
        after.tape == before.tape,
        after.bars == before.bars,
        after.cvd == before.cvd,
        after.vwap == before.vwap,
        after.profile == before.profile,
        after.scanner == before.scanner,
        after.speed == before.speed,
        after.big_trades == before.big_trades,
        match event {
            EventView::BookSnapshot { ts, .. } => {
                &&& after.last_ts == ts
                &&& after.book.initialised
                &&& told == seq![
                    AppEventView::BookUpdated(
                        shown_book(after.book, before.config.book_depth as nat),
                    ),
                ]
            },
            EventView::BookDelta { ts, sequence, .. } => {
                &&& after.last_ts == ts
                &&& !before.book.initialised || (sequence != 0 && sequence <= before.book.sequence)
                    ==> after.book == before.book && told.len() == 0
                &&& before.book.initialised && (sequence == 0 || sequence > before.book.sequence)
                    ==> told == seq![
                    AppEventView::BookUpdated(
                        shown_book(after.book, before.config.book_depth as nat),
                    ),
                ]
            },
            EventView::Status { ts, connected, detail } => {
                &&& after.last_ts == ts
                &&& after.connected == connected
                &&& after.detail == detail
                &&& told == seq![AppEventView::ConnectionChanged { connected, detail }]
                &&& connected ==> after.book == before.book
                &&& !connected ==> !after.book.initialised && after.book.bids.len() == 0
                    && after.book.asks.len() == 0 && after.book.sequence == 0
            },
            _ => true,
        },
{
}

/// A bar is shown as it traded: its times, prices, volume and count, how much more
/// was bought than sold, its point of control, every level of its ladder and every
/// imbalance.
pub proof fn law_a_bar_is_shown_as_it_traded(bar: BarView, ratio: Ratio, min: Qty, i: int)
    requires
        i64::MIN <= bar.ladder.total_ask - bar.ladder.total_bid <= i64::MAX,
    ensures
        ({
            let shown = shown_bar(bar, ratio, min);
            let rows = bar.ladder.row_list();
            let marks = bar.ladder.all_imbalances(ratio, min);
            &&& shown.open_ts == bar.open_ts.0
            &&& shown.close_ts == bar.close_ts.0
            &&& shown.open == bar.open.0
            &&& shown.high == bar.high.0
            &&& shown.low == bar.low.0
            &&& shown.close == bar.close.0
            &&& shown.volume == bar.volume.0
            &&& shown.delta == bar.ladder.total_ask - bar.ladder.total_bid
            &&& shown.trades == bar.trades
            &&& shown.closed == bar.closed
            &&& shown.poc is Some <==> bar.ladder.poc_price() is Some
            &&& shown.poc matches Some(minor) ==> bar.ladder.poc_price() == Some(Price(minor))
            &&& shown.clusters.len() == rows.len()
            &&& 0 <= i < rows.len() ==> shown.clusters[i].price == rows[i].price.0
                && shown.clusters[i].bid == rows[i].cluster.bid.0 && shown.clusters[i].ask
                == rows[i].cluster.ask.0 && shown.clusters[i].trades == rows[i].cluster.trades
            &&& shown.imbalances.len() == marks.len()
            &&& 0 <= i < marks.len() ==> shown.imbalances[i].price == marks[i].price.0
                && shown.imbalances[i].side == side_name(marks[i].side)
                && shown.imbalances[i].dominant == marks[i].dominant.0
                && shown.imbalances[i].opposing == marks[i].opposing.0
        }),
{
}

/// A book is shown with its best levels, best first. It is crossed exactly where
/// some bid is as high as some ask, and its spread is how far the lowest ask is
/// above the highest bid.
pub proof fn law_a_book_is_shown_from_the_top(book: BookView, depth: nat, i: int)
    requires
        book.wf(),
        spread_fits(book),
    ensures
        ({
            let shown = shown_book(book, depth);
            let bids = book.best(BookSide::Bid, depth);
            let asks = book.best(BookSide::Ask, depth);
            &&& shown.bids.len() == bids.len()
            &&& shown.asks.len() == asks.len()
            &&& 0 <= i < bids.len() ==> shown.bids[i].price == bids[i].price.0 && shown.bids[i].qty
                == bids[i].qty.0
            &&& 0 <= i < asks.len() ==> shown.asks[i].price == asks[i].price.0 && shown.asks[i].qty
                == asks[i].qty.0
            &&& shown.crossed <==> exists|b: int, a: int|
                #![trigger book.bids[b], book.asks[a]]
                0 <= b < book.bids.len() && 0 <= a < book.asks.len() && book.bids[b].price.0
                    >= book.asks[a].price.0
            &&& shown.spread is Some <==> book.bids.len() > 0 && book.asks.len() > 0
            &&& shown.spread matches Some(spread) ==> {
                &&& forall|b: int, a: int|
                    #![trigger book.bids[b], book.asks[a]]
                    0 <= b < book.bids.len() && 0 <= a < book.asks.len() ==> book.asks[a].price.0
                        - book.bids[b].price.0 >= spread
                &&& exists|b: int, a: int|
                    #![trigger book.bids[b], book.asks[a]]
                    0 <= b < book.bids.len() && 0 <= a < book.asks.len() && book.asks[a].price.0
                        - book.bids[b].price.0 == spread
            }
        }),
{
    if book.bids.len() > 0 && book.asks.len() > 0 {
        let b = book.bids.len() - 1;
        assert(book.bids[b].price.0 <= book.bids[b].price.0 && book.asks[0].price.0
            <= book.asks[0].price.0);
        assert(book.asks[0].price.0 - book.bids[b].price.0 == book.top_ask()->0.price.0
            - book.top_bid()->0.price.0);
    }
}

/// A position is shown with its size, entry, banked and open profit, commission
/// and side. The open profit is none without a price to mark it at.
pub proof fn law_a_position_is_shown_marked(pos: Position, mark: Option<Price>)
    requires
        mark is Some ==> i64::MIN <= pos.open_pnl(mark->0) <= i64::MAX,
    ensures
        ({
            let shown = PositionDto::of(pos, mark);
            &&& shown.qty == pos.qty.0
            &&& shown.avg_price == pos.avg_price.0
            &&& shown.realised == pos.realised.0
            &&& shown.commission == pos.commission.0
            &&& mark is None ==> shown.unrealised == 0
            &&& mark is Some ==> shown.unrealised == pos.open_pnl(mark->0)
            &&& shown.side == if pos.qty.0 > 0 {
                Some("buy")
            } else if pos.qty.0 < 0 {
                Some("sell")
            } else {
                None
            }
        }),
{
}

/// An order is shown with its id, side, kind, size, how much of it is filled, its
/// prices and its status.
pub proof fn law_an_order_is_shown_as_it_stands(o: Order)
    ensures
        ({
            let shown = OrderDto::of(o);
            &&& shown.id == o.id.0
            &&& shown.side == side_name(o.side)
            &&& shown.qty == o.qty.0
            &&& shown.filled == o.filled.0
            &&& match o.kind {
                OrderType::Market => shown.kind == "market" && shown.limit_price is None
                    && shown.trigger_price is None,
                OrderType::Limit { price } => shown.kind == "limit" && shown.limit_price == Some(
                    price.0,
                ) && shown.trigger_price is None,
                OrderType::Stop { trigger } => shown.kind == "stop" && shown.limit_price is None
                    && shown.trigger_price == Some(trigger.0),
                OrderType::StopLimit { trigger, limit } => shown.kind == "stop_limit"
                    && shown.limit_price == Some(limit.0) && shown.trigger_price == Some(trigger.0),
            }
            &&& o.status is Pending ==> shown.status == "pending"
            &&& o.status is Working ==> shown.status == "working"
            &&& o.status is PartiallyFilled ==> shown.status == "partially_filled"
            &&& o.status is Filled ==> shown.status == "filled"
            &&& o.status is Cancelled ==> shown.status == "cancelled"
            &&& o.status is Rejected ==> shown.status == "rejected"
        }),
{
}

/// A full frame shows the bars of the chart with the one that is forming last, the
/// tape, the orders at work in their order, and when and at what price the last
/// trade was.
pub proof fn law_a_frame_shows_the_session(v: SessionView, i: int)
    ensures
        ({
            let f = frame(v);
            let n = v.bars.len() as int;
            let forming = v.aggregator.current;
            &&& f.bars.len() == n + if forming is Some {
                1int
            } else {
                0
            }
            &&& 0 <= i < n ==> f.bars[i] == shown_bar(
                v.bars[i],
                v.config.imbalance_ratio,
                v.config.imbalance_min_volume,
            )
            &&& forming matches Some(bar) ==> f.bars[n] == shown_bar(
                bar,
                v.config.imbalance_ratio,
                v.config.imbalance_min_volume,
            )
            &&& f.tape.len() == v.tape.len()
            &&& 0 <= i < v.tape.len() ==> f.tape[i].ts == v.tape[i].ts.0 && f.tape[i].price
                == v.tape[i].price.0 && f.tape[i].qty == v.tape[i].qty.0 && f.tape[i].side
                == side_name(v.tape[i].aggressor)
            &&& f.orders.len() == v.engine.working.len()
            &&& 0 <= i < f.orders.len() ==> f.orders[i] == OrderDto::of(
                v.engine.orders[v.engine.working[i].0],
            )
            &&& f.position == PositionDto::of(v.engine.position, v.engine.last_price)
            &&& f.last_price is Some <==> v.engine.last_price is Some
            &&& f.last_price matches Some(minor) ==> v.engine.last_price == Some(Price(minor))
            &&& f.last_ts == v.last_ts.0
            &&& f.connected == v.connected
            &&& f.connection_detail == v.detail
            &&& f.tick_size == v.instrument.tick_size.0
            &&& f.row_size == v.aggregator.ladder.row().0
            &&& f.ticks_per_row == v.aggregator.ladder.per_row()
            &&& f.book == shown_book(v.book, v.config.book_depth as nat)
        }),
{
}

/// The readings are those of the studies: the running delta and its divergence,
/// the average price, the session's point of control and value area of seven
/// tenths, and the trades in the window.
pub proof fn law_readings_are_those_of_the_studies(v: SessionView)
    requires
        i64::MIN <= v.cvd.total <= i64::MAX,
    ensures
        ({
            let shown = readings(v);
            let area = v.profile.ladder.value_area_of(Ratio { num: 7, den: 10 });
            &&& shown.cvd == v.cvd.total
            &&& shown.divergence == Some("bearish") || !(v.cvd.divergence is Some
                && v.cvd.divergence->0 is Bearish)
            &&& shown.divergence == Some("bullish") || !(v.cvd.divergence is Some
                && v.cvd.divergence->0 is Bullish)
            &&& v.cvd.divergence is None ==> shown.divergence is None
            &&& shown.vwap is Some <==> v.vwap.point() is Some
            &&& v.vwap.point() matches Some(point) ==> shown.vwap == Some(point.vwap.0)
                && shown.vwap_variance == Some(point.variance)
            &&& v.profile.ladder.poc_price() matches Some(price) ==> shown.session_poc == Some(
                price.0,
            )
            &&& v.profile.ladder.poc_price() is None ==> shown.session_poc is None
            &&& area matches Some(area) ==> shown.value_area_high == Some(area.high.0)
                && shown.value_area_low == Some(area.low.0)
            &&& area is None ==> shown.value_area_high is None && shown.value_area_low is None
            &&& v.speed.last matches Some(speed) ==> shown.tape_trades == speed.trades
            &&& v.speed.last is None ==> shown.tape_trades == 0
            &&& shown.tape_window_nanos == v.speed.window_nanos
        }),
{
}

/// A chart under another rule or row height starts over with everything that is
/// made of bars, and keeps the tape, the book and the trading.
pub proof fn law_another_chart_starts_over(v: SessionView, ladder: LadderSpec, spec: BarSpec)
    ensures
        ({
            let after = recharted(v, ladder, spec);
            &&& after.aggregator.spec == spec
            &&& after.aggregator.ladder == ladder
            &&& after.aggregator.current is None
            &&& after.aggregator.cum_delta == 0
            &&& after.config.bar_spec == spec
            &&& after.config.ticks_per_row == ladder.per_row()
            &&& after.bars.len() == 0
            &&& after.cvd.total == 0 && after.cvd.bars == 0
            &&& after.vwap.volume == 0 && after.vwap.weighted == 0
            &&& after.profile.bars == 0 && after.profile.ladder.rows.len() == 0
            &&& after.profile.ladder.tick == ladder.row()
            &&& after.tape == v.tape
            &&& after.book == v.book
            &&& after.engine == v.engine
            &&& after.big_trades == v.big_trades
            &&& after.scanner == v.scanner
        }),
{
}

/// A new session starts over with everything that was drawn from the tape, under
/// the same rule and thresholds, and keeps the book and the trading.
pub proof fn law_a_new_session_starts_over(v: SessionView)
    ensures
        ({
            let after = restarted(v);
            &&& after.aggregator.spec == v.aggregator.spec
            &&& after.aggregator.ladder == v.aggregator.ladder
            &&& after.aggregator.current is None
            &&& after.aggregator.cum_delta == 0
            &&& after.config == v.config
            &&& after.bars.len() == 0
            &&& after.tape.len() == 0
            &&& after.cvd.total == 0 && after.cvd.bars == 0
            &&& after.vwap.volume == 0 && after.vwap.weighted == 0
            &&& after.profile.bars == 0 && after.profile.ladder.rows.len() == 0
            &&& after.profile.ladder.tick == v.profile.ladder.tick
            &&& after.big_trades.seen == 0 && after.big_trades.recent.len() == 0
            &&& after.big_trades.threshold == v.big_trades.threshold
            &&& after.speed.times.len() == 0 && after.speed.last is None
            &&& after.speed.window_nanos == v.speed.window_nanos
            &&& after.scanner.scanned == 0 && after.scanner.hits.len() == 0
            &&& after.scanner.criteria == v.scanner.criteria
            &&& after.book == v.book
            &&& after.engine == v.engine
        }),
{
}

/// A request for a rule is that rule: seconds in nanoseconds, counts as they are,
/// and sizes as their decimals read.
pub proof fn law_a_request_is_its_rule(request: BarSpecRequest, minor: i64)
    requires
        request.length_fits(),
    ensures
        match request {
            BarSpecRequest::Time { seconds } => request.rule() is Ok && request.rule()->Ok_0 is Time
                && request.rule()->Ok_0->interval_nanos == seconds * 1_000_000_000,
            BarSpecRequest::Tick { count } => request.rule() == Ok::<BarSpec, ParseFixedError>(
                BarSpec::Tick { count },
            ),
            BarSpecRequest::Volume { threshold } => parsed(threshold@) == Ok::<
                i64,
                ParseFixedError,
            >(minor) ==> request.rule() == Ok::<BarSpec, ParseFixedError>(
                BarSpec::Volume { threshold: Qty(minor) },
            ),
            BarSpecRequest::Range { ticks } => request.rule() == Ok::<BarSpec, ParseFixedError>(
                BarSpec::Range { ticks },
            ),
            BarSpecRequest::Delta { threshold } => parsed(threshold@) == Ok::<i64, ParseFixedError>(
                minor,
            ) ==> request.rule() == Ok::<BarSpec, ParseFixedError>(
                BarSpec::Delta { threshold: Qty(minor) },
            ),
        },
{
}

/// Rows can be grouped exactly where the tick is positive, at least one tick goes
/// into a row and the height fits in 64 bits.
pub proof fn law_rows_need_a_height(tick: Price, per_row: u32)
    ensures
        ladder_refusal(tick, per_row) is None <==> tick.0 > 0 && per_row > 0 && tick.0 * per_row
            <= i64::MAX,
        tick.0 <= 0 <==> ladder_refusal(tick, per_row) == Some(LadderSpecError::NonPositiveTick),
        tick.0 > 0 && per_row == 0 <==> ladder_refusal(tick, per_row) == Some(
            LadderSpecError::EmptyRow,
        ),
{
    let (t, n) = (tick.0 as int, per_row as int);
    if t > 0 {
        assert(t * n >= 0) by (nonlinear_arith)
            requires
                t > 0,
                n >= 0,
        ;
    }
}

/// A row is as high as its ticks together.
pub proof fn law_a_row_is_its_ticks(ladder: LadderSpec)
    requires
        ladder.wf(),
    ensures
        ladder.row().0 == ladder.tick().0 * ladder.per_row(),
        ladder.row().0 > 0,
{
    let (t, n) = (ladder.tick().0 as int, ladder.per_row() as int);
    assert(t * n > 0) by (nonlinear_arith)
        requires
            t > 0,
            n > 0,
    ;
}

/// A setting that is unset, or that names the simulator in any case of letters, is
/// the simulator. One that starts with the venue and a colon names the symbol
/// behind it, in capitals; without a symbol it is the simulator, with a warning,
/// and so is one that names neither.
pub proof fn law_a_setting_names_its_source(raw: Seq<char>, rest: Seq<char>)
    ensures
        chosen(None) == (ChoiceView::Synthetic, None::<ChoiceWarning>),
        same_folded(trimmed(raw), "sim"@) || same_folded(trimmed(raw), "synthetic"@) ==> chosen(
            Some(raw),
        ) == (ChoiceView::Synthetic, None::<ChoiceWarning>),
        trimmed(raw) == "binance:"@ + rest && trimmed(rest).len() > 0 ==> chosen(Some(raw)) == (
            ChoiceView::Binance(uppercase(trimmed(rest))),
            None::<ChoiceWarning>,
        ),
        trimmed(raw) == "binance:"@ + rest && trimmed(rest).len() == 0 ==> chosen(Some(raw)) == (
            ChoiceView::Synthetic,
            Some(ChoiceWarning::NoSymbol),
        ),
        !same_folded(trimmed(raw), "sim"@) && !same_folded(trimmed(raw), "synthetic"@)
            && !same_folded(trimmed(raw), "binance"@) && !crate::feed::wire::begins(
            trimmed(raw),
            "binance:"@,
        ) ==> chosen(Some(raw)) == (ChoiceView::Synthetic, Some(ChoiceWarning::Unrecognised)),
{
    let value = trimmed(raw);
    let word = "binance:"@;
    reveal_strlit("binance:");
    reveal_strlit("sim");
    reveal_strlit("synthetic");
    crate::feed::wire::lemma_begins(value, word);
    if value == word + rest {
        assert(value[0] == 'b');
        assert(value.skip(word.len() as int) =~= rest);
        assert(value.take(word.len() as int) =~= word);
        assert(crate::text::folded(value[0]) == crate::text::folded('b'));
        assert("sim"@[0] == 's' && "synthetic"@[0] == 's');
        if same_folded(value, "sim"@) {
            assert(crate::text::folded(value[0]) == crate::text::folded("sim"@[0]));
        }
        if same_folded(value, "synthetic"@) {
            assert(crate::text::folded(value[0]) == crate::text::folded("synthetic"@[0]));
        }
    }
}

/// A session starts with nothing seen and nothing held, under the rule and the
/// thresholds that it was configured with.
pub proof fn law_a_session_starts_empty(
    instrument: Instrument,
    config: SessionConfig,
    ladder: LadderSpec,
)
    ensures
        ({
            let v = fresh_session(instrument, config, ladder);
            &&& v.instrument == instrument
            &&& v.config == config
            &&& v.aggregator.spec == config.bar_spec
            &&& v.aggregator.ladder == ladder
            &&& v.aggregator.current is None && v.aggregator.cum_delta == 0
            &&& v.aggregator.dropped == 0
            &&& !v.book.initialised && v.book.bids.len() == 0 && v.book.asks.len() == 0
            &&& v.bars.len() == 0 && v.tape.len() == 0
            &&& v.cvd.total == 0 && v.cvd.bars == 0 && v.cvd.divergence is None
            &&& v.vwap.volume == 0 && v.profile.bars == 0
            &&& v.profile.ladder.tick == ladder.row()
            &&& v.big_trades.threshold == config.big_trade_threshold
            &&& v.big_trades.seen == 0 && v.big_trades.recent.len() == 0
            &&& v.speed.window_nanos == config.speed_window_nanos && v.speed.times.len() == 0
            &&& v.scanner.criteria == config.scanner && v.scanner.hits.len() == 0
            &&& v.engine.config == config.trading
            &&& v.engine.position.qty.0 == 0 && v.engine.position.realised.0 == 0
            &&& v.engine.position.commission.0 == 0 && v.engine.position.kind == instrument.kind
            &&& v.engine.working.len() == 0 && v.engine.fills.len() == 0
            &&& v.engine.last_price is None
            &&& !v.connected
        }),
{
}

/// One more reading counts once: as an event, as a failure, or as neither where
/// the feed had nothing. The error that stands is that of the last failure.
pub proof fn law_every_reading_counts_once(
    before: Option<FeedError>,
    past: Seq<Reading>,
    reading: Reading,
)
    ensures
        ({
            let all = past.push(reading);
            &&& events_in(all) - events_in(past) == if reading is Event {
                1int
            } else {
                0
            }
            &&& failures_in(all) - failures_in(past) == if reading is Failed {
                1int
            } else {
                0
            }
            &&& reading matches Reading::Failed(e) ==> fault_after(before, all) == Some(e)
            &&& !(reading is Failed) ==> fault_after(before, all) == fault_after(before, past)
        }),
        events_in(Seq::<Reading>::empty()) == 0,
        failures_in(Seq::<Reading>::empty()) == 0,
        fault_after(before, Seq::<Reading>::empty()) == before,
{
    assert(past.push(reading).drop_last() =~= past);
}

/// A run goes reading by reading, each from where the last one ended. An event does
/// to the session what the session makes of it, and what it led to is published
/// behind everything before it; a reading without an event changes nothing.
pub proof fn law_a_run_publishes_in_order(
    before: SessionView,
    published_before: Seq<AppEventView>,
    steps: Seq<RunStep>,
    after: SessionView,
    published_after: Seq<AppEventView>,
    k: int,
)
    requires
        played(before, published_before, steps, after, published_after),
    ensures
        published_after.len() >= published_before.len(),
        published_after.take(published_before.len() as int) == published_before,
        0 <= k < steps.len() ==> {
            let step = steps[k];
            let had = step.published_before.len() as int;
            &&& step.before == if k == 0 {
                before
            } else {
                steps[k - 1].after
            }
            &&& k == steps.len() - 1 ==> step.after == after
            &&& match step.reading {
                Reading::Event(event) => event_taken(
                    step.before,
                    event,
                    step.after,
                    step.published_after.skip(had),
                ) && step.published_after.take(had) == step.published_before,
                _ => step.after == step.before && step.published_after == step.published_before,
            }
        },
    decreases steps.len(),
{
    reveal(RunStep::holds);
    if steps.len() > 0 {
        let less = steps.drop_last();
        let n = less.len() as int;
        let last = steps[n];
        assert(last.holds());
        assert(last.published_after.len() >= last.published_before.len());
        assert(last.published_after.take(last.published_before.len() as int)
            =~= last.published_before);
        if n > 0 {
            assert(steps[n - 1].leads_to(steps[n]));
            assert forall|i: int| 0 <= i < less.len() implies (#[trigger] less[i]).holds() by {
                assert(steps[i].holds());
            }
            assert forall|i: int, j: int| 0 <= i && j == i + 1 && j < less.len() implies (
            #[trigger] less[i]).leads_to(#[trigger] less[j]) by {
                assert(steps[i].leads_to(steps[j]));
            }
            assert(less[0] == steps[0]);
            law_a_run_publishes_in_order(
                before,
                published_before,
                less,
                last.before,
                last.published_before,
                0,
            );
            let p = published_before.len() as int;
            let q = last.published_before.len() as int;
            assert(published_after.take(q).take(p) =~= published_after.take(p));
        }
        if 0 <= k < steps.len() {
            assert(steps[k].holds());
            if k > 0 {
                assert(steps[k - 1].leads_to(steps[k]));
            }
        }
    } else {
        assert(published_after.take(published_before.len() as int) =~= published_before);
    }
}

} // verus!
