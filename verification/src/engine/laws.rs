//! What bars and the rules that close them come to, in terms of the trades that
//! went in and the bars that came out.

use crate::engine::aggregator::BarSpec;
use crate::primitives::market::{Side, Trade};
use vstd::prelude::*;

verus! {

use crate::engine::aggregator::{lemma_row_positive, lemma_taken_wf, spec_refusal, AggregatorView};
use crate::engine::bar::{lemma_applied_wf, lemma_opened_wf, BarView};
use crate::primitives::time::law_interval_start;

/// The bars that a trade left behind: those that it closed, then the one that is
/// forming.
pub open spec fn bars_out(before: AggregatorView, trade: Trade) -> Seq<BarView> {
    match before.taken(trade).current {
        Some(bar) => before.closed_by(trade).push(bar),
        None => before.closed_by(trade),
    }
}

/// Under a volume rule, what is still forming after a trade holds less than the
/// threshold, and a bar that the trade closed holds at least the threshold,
/// bought and sold volume together.
pub proof fn law_volume_bars_close_at_their_volume(v: AggregatorView, trade: Trade)
    requires
        v.wf(),
        v.can_take(trade),
        v.spec is Volume,
        trade.ts.0 >= v.last_ts.0,
    ensures
        v.taken(trade).current matches Some(bar) ==> bar.volume.0 < v.spec->Volume_threshold.0,
        forall|k: int|
            0 <= k < v.closed_by(trade).len() ==> (#[trigger] v.closed_by(trade)[k]).volume.0
                >= v.spec->Volume_threshold.0,
        forall|k: int|
            0 <= k < bars_out(v, trade).len() ==> (#[trigger] bars_out(v, trade)[k]).volume.0
                == bars_out(v, trade)[k].ladder.total_bid + bars_out(v, trade)[k].ladder.total_ask,
        bars_out(v, trade).len() == 1,
{
    lemma_taken_wf(v, trade);
    lemma_touched_wf(v, trade);
}

/// Under a tick rule, what is still forming after a trade holds fewer trades
/// than the count, and a bar that the trade closed holds exactly the count,
/// where the bar before it had room for one more.
pub proof fn law_tick_bars_close_at_their_count(v: AggregatorView, trade: Trade)
    requires
        v.wf(),
        v.can_take(trade),
        v.spec is Tick,
        trade.ts.0 >= v.last_ts.0,
        v.current matches Some(bar) ==> bar.trades < v.spec->count,
    ensures
        v.taken(trade).current matches Some(bar) ==> bar.trades < v.spec->count,
        forall|k: int|
            0 <= k < v.closed_by(trade).len() ==> (#[trigger] v.closed_by(trade)[k]).trades
                == v.spec->count,
        bars_out(v, trade).len() == 1,
{
    lemma_taken_wf(v, trade);
    lemma_touched_wf(v, trade);
}

/// Under a range rule, what is still forming after a trade spans less than the
/// ticks asked for, and a bar that the trade closed spans at least that. A span
/// that no 64 bits hold counts as the largest they do.
pub proof fn law_range_bars_close_at_their_span(v: AggregatorView, trade: Trade)
    requires
        v.wf(),
        v.can_take(trade),
        v.spec is Range,
        trade.ts.0 >= v.last_ts.0,
    ensures
        v.taken(trade).current matches Some(bar) ==> bar.high.0 - bar.low.0 < v.ladder.tick().0
            * v.spec->ticks,
        forall|k: int|
            0 <= k < v.closed_by(trade).len() ==> ({
                let bar = #[trigger] v.closed_by(trade)[k];
                let span = v.ladder.tick().0 * v.spec->ticks;
                bar.high.0 - bar.low.0 >= span || (span > i64::MAX && bar.high.0 - bar.low.0
                    == i64::MAX)
            }),
        bars_out(v, trade).len() == 1,
{
    lemma_taken_wf(v, trade);
    lemma_touched_wf(v, trade);
    let (t, n) = (v.ladder.tick().0 as int, v.spec->ticks as int);
    assert(t * n > 0) by (nonlinear_arith)
        requires
            t > 0,
            n > 0,
    ;
}

/// Under a delta rule, bought minus sold volume of what is still forming after a
/// trade stays inside the threshold on either side, and that of a bar which the
/// trade closed has reached it on one.
pub proof fn law_delta_bars_close_at_their_delta(v: AggregatorView, trade: Trade)
    requires
        v.wf(),
        v.can_take(trade),
        v.spec is Delta,
        trade.ts.0 >= v.last_ts.0,
    ensures
        v.taken(trade).current matches Some(bar) ==> -v.spec->Delta_threshold.0
            < bar.ladder.total_ask - bar.ladder.total_bid < v.spec->Delta_threshold.0,
        forall|k: int|
            0 <= k < v.closed_by(trade).len() ==> ({
                let bar = #[trigger] v.closed_by(trade)[k];
                let net = bar.ladder.total_ask - bar.ladder.total_bid;
                net >= v.spec->Delta_threshold.0 || net <= -v.spec->Delta_threshold.0
            }),
        bars_out(v, trade).len() == 1,
{
    lemma_taken_wf(v, trade);
    lemma_touched_wf(v, trade);
}

/// Under a time rule every bar opens at a multiple of the interval. A trade lands
/// in the forming bar of the interval that it falls in, and closes the one before
/// it exactly where that is of another interval.
pub proof fn law_time_bars_keep_to_their_interval(v: AggregatorView, trade: Trade)
    requires
        v.wf(),
        v.can_take(trade),
        v.spec is Time,
        trade.ts.0 >= v.last_ts.0,
        v.current matches Some(bar) ==> bar.open_ts.0 as int % v.spec->interval_nanos as int == 0,
    ensures
        v.taken(trade).current is Some,
        v.taken(trade).current->0.open_ts.0 as int % v.spec->interval_nanos as int == 0,
        v.taken(trade).current->0.open_ts.0 <= trade.ts.0
            < v.taken(trade).current->0.open_ts.0 + v.spec->interval_nanos,
        match v.current {
            Some(bar) => if bar.open_ts.0 <= trade.ts.0 < bar.open_ts.0 + v.spec->interval_nanos {
                v.closed_by(trade).len() == 0 && v.taken(trade).current->0.open_ts == bar.open_ts
            } else {
                v.closed_by(trade) == seq![BarView { closed: true, ..bar }]
            },
            None => v.closed_by(trade).len() == 0,
        },
{
    let n = v.spec->interval_nanos as int;
    let t = trade.ts.0 as int;
    law_interval_start(t, n);
    if let Some(bar) = v.current {
        let open = bar.open_ts.0 as int;
        if open <= t < open + n {
            let start = crate::primitives::time::interval_start(t, n);
            vstd::arithmetic::div_mod::lemma_fundamental_div_mod(open, n);
            vstd::arithmetic::div_mod::lemma_fundamental_div_mod(start, n);
            let (p, q) = (open / n, start / n);
            assert(p == q) by (nonlinear_arith)
                requires
                    n > 0,
                    n * p <= t < n * p + n,
                    n * q <= t < n * q + n,
            ;
        }
    }
    lemma_touched_wf(v, trade);
}

/// A trade that came in order is in exactly one bar, the last of those that it
/// left behind. A bar that it opens is that trade alone; one that it goes into
/// keeps its opening, takes the trade as its close and gains the trade's size on
/// the aggressor's side and nowhere else. Any bar before it is what was forming,
/// untouched but for being closed.
pub proof fn law_a_trade_goes_into_one_bar(v: AggregatorView, trade: Trade)
    requires
        v.wf(),
        v.can_take(trade),
        trade.ts.0 >= v.last_ts.0,
    ensures
        ({
            let out = bars_out(v, trade);
            let bar = out.last();
            let bought = if trade.aggressor is Buy {
                trade.qty.0 as int
            } else {
                0
            };
            let sold = if trade.aggressor is Buy {
                0
            } else {
                trade.qty.0 as int
            };
            &&& 1 <= out.len() <= 2
            &&& bar.close == trade.price
            &&& bar.close_ts == trade.ts
            &&& bar.ladder.tick == v.ladder.row()
            &&& out.len() == 2 ==> v.spec is Time && v.current is Some && out[0] == (BarView {
                closed: true,
                ..v.current->0
            })
            &&& match v.current {
                Some(was) if out.len() == 1 => {
                    &&& bar.open == was.open
                    &&& bar.open_ts == was.open_ts
                    &&& bar.high.0 >= trade.price.0 && bar.high.0 >= was.high.0
                    &&& bar.high == trade.price || bar.high == was.high
                    &&& bar.low.0 <= trade.price.0 && bar.low.0 <= was.low.0
                    &&& bar.low == trade.price || bar.low == was.low
                    &&& bar.volume.0 == was.volume.0 + trade.qty.0
                    &&& bar.trades == was.trades + 1
                    &&& bar.ladder.total_ask == was.ladder.total_ask + bought
                    &&& bar.ladder.total_bid == was.ladder.total_bid + sold
                },
                _ => {
                    &&& bar.open == trade.price
                    &&& bar.high == trade.price
                    &&& bar.low == trade.price
                    &&& bar.volume == trade.qty
                    &&& bar.trades == 1
                    &&& bar.ladder.total_ask == bought
                    &&& bar.ladder.total_bid == sold
                    &&& !(v.spec is Time) ==> bar.open_ts == trade.ts
                },
            }
        }),
{
    lemma_taken_wf(v, trade);
    lemma_touched_wf(v, trade);
}

/// A trade from before the last one changes nothing but the count of those that
/// were dropped; one from the same moment is taken. Bought size adds to the
/// session delta and sold size takes from it.
pub proof fn law_only_earlier_trades_are_dropped(v: AggregatorView, trade: Trade)
    requires
        v.wf(),
        v.can_take(trade),
    ensures
        trade.ts.0 < v.last_ts.0 ==> v.taken(trade) == (AggregatorView {
            dropped: v.dropped + 1,
            ..v
        }) && v.closed_by(trade).len() == 0,
        trade.ts.0 >= v.last_ts.0 ==> {
            &&& v.taken(trade).dropped == v.dropped
            &&& v.taken(trade).last_ts == trade.ts
            &&& v.taken(trade).cum_delta - v.cum_delta == match trade.aggressor {
                Side::Buy => trade.qty.0 as int,
                Side::Sell => -trade.qty.0,
            }
        },
        v.taken(trade).spec == v.spec,
        v.taken(trade).ladder == v.ladder,
{
}

/// A rule is refused exactly where what it counts is not positive.
pub proof fn law_rules_need_something_to_count(spec: BarSpec)
    ensures
        spec_refusal(spec) is None <==> match spec {
            BarSpec::Time { interval_nanos } => interval_nanos > 0,
            BarSpec::Tick { count } => count > 0,
            BarSpec::Volume { threshold } => threshold.0 > 0,
            BarSpec::Range { ticks } => ticks > 0,
            BarSpec::Delta { threshold } => threshold.0 > 0,
        },
{
}

proof fn lemma_touched_wf(v: AggregatorView, trade: Trade)
    requires
        v.wf(),
        v.can_take(trade),
        !v.is_late(trade),
    ensures
        v.touched(trade).wf(),
        !v.touched(trade).closed,
{
    lemma_row_positive(v.ladder);
    lemma_opened_wf(v.opening(trade), trade, v.ladder.row());
    if v.current is Some && !v.rolls(trade) {
        lemma_applied_wf(v.current->0, trade);
    }
}

/// A bar is marked as closed when it is handed out, and not before. Marking it
/// changes nothing else.
pub proof fn law_bars_are_marked_as_they_close(v: AggregatorView, trade: Trade, k: int)
    requires
        v.wf(),
        v.can_take(trade),
    ensures
        0 <= k < v.closed_by(trade).len() ==> v.closed_by(trade)[k].closed,
        v.taken(trade).current matches Some(bar) ==> !bar.closed,
        v.current matches Some(bar) ==> bar.finished().closed && bar.finished() == (BarView {
            closed: true,
            ..bar
        }),
        v.taken(trade).spec == v.spec,
        v.taken(trade).ladder == v.ladder,
{
    lemma_taken_wf(v, trade);
}

} // verus!
