//! What the averages come to, in terms of the bars and prints that went in.

use crate::engine::cluster::ClusterRow;
use crate::indicators::classic::AtrStep;
use crate::primitives::fixed::Price;
use vstd::prelude::*;

verus! {

use crate::engine::bar::BarView;
use crate::indicators::classic::{sum_of, true_range_of, AtrView, RsiView, SmaView};
use crate::indicators::vwap::{fresh_vwap, VwapView};
use crate::primitives::fixed::{law_division_cuts_off_toward_zero, truncated_div};
use crate::trading::pnl::is_whole_part;

/// The volume of the first `n` rows, bought and sold.
pub open spec fn volume_in(rows: Seq<ClusterRow>, n: int) -> int
    decreases n,
{
    if n <= 0 {
        0
    } else {
        volume_in(rows, n - 1) + rows[n - 1].cluster.bid.0 + rows[n - 1].cluster.ask.0
    }
}

/// What was paid for the volume of the first `n` rows.
pub open spec fn paid_in(rows: Seq<ClusterRow>, n: int) -> int
    decreases n,
{
    if n <= 0 {
        0
    } else {
        paid_in(rows, n - 1) + rows[n - 1].price.0 * (rows[n - 1].cluster.bid.0
            + rows[n - 1].cluster.ask.0)
    }
}

proof fn lemma_rows_summed(v: VwapView, rows: Seq<ClusterRow>)
    requires
        forall|i: int|
            0 <= i < rows.len() ==> (#[trigger] rows[i]).cluster.bid.0 + rows[i].cluster.ask.0
                >= 0,
    ensures
        v.with_rows(rows).weighted == v.weighted + paid_in(rows, rows.len() as int),
        v.with_rows(rows).volume == v.volume + volume_in(rows, rows.len() as int),
        v.with_rows(rows).bars == v.bars,
    decreases rows.len(),
{
    if rows.len() > 0 {
        let less = rows.drop_last();
        let n = less.len() as int;
        assert forall|i: int| 0 <= i < less.len() implies (#[trigger] less[i]).cluster.bid.0
            + less[i].cluster.ask.0 >= 0 by {
            assert(less[i] == rows[i]);
        }
        lemma_rows_summed(v, less);
        lemma_sums_of_prefix(less, rows, n);
        let row = rows[n];
        assert(row.cluster.size() >= 0);
        if row.cluster.size() == 0 {
            assert(row.price.0 * 0 == 0);
        }
    }
}

proof fn lemma_sums_of_prefix(less: Seq<ClusterRow>, rows: Seq<ClusterRow>, n: int)
    requires
        n <= less.len() <= rows.len(),
        less == rows.take(less.len() as int),
    ensures
        volume_in(less, n) == volume_in(rows, n),
        paid_in(less, n) == paid_in(rows, n),
    decreases n,
{
    if n > 0 {
        lemma_sums_of_prefix(less, rows, n - 1);
    }
}

/// A bar adds the volume of its ladder and what was paid for it, level by level.
pub proof fn law_a_vwap_weighs_every_level(v: VwapView, bar: BarView)
    requires
        bar.ladder.wf(),
        forall|i: int|
            0 <= i < bar.ladder.rows.len() ==> (#[trigger] bar.ladder.rows[i]).bid.0
                + bar.ladder.rows[i].ask.0 >= 0,
        v.bars < u64::MAX,
    ensures
        ({
            let rows = bar.ladder.row_list();
            let after = v.taken(bar);
            &&& rows.len() == bar.ladder.rows.len()
            &&& after.volume - v.volume == volume_in(rows, rows.len() as int)
            &&& after.weighted - v.weighted == paid_in(rows, rows.len() as int)
            &&& after.bars == v.bars + 1
        }),
{
    let rows = bar.ladder.row_list();
    assert forall|i: int| 0 <= i < rows.len() implies (#[trigger] rows[i]).cluster.bid.0
        + rows[i].cluster.ask.0 >= 0 by {
        assert(rows[i].cluster == bar.ladder.rows[i]);
    }
    lemma_rows_summed(v, rows);
}

/// A print adds its size, and its size times its price.
pub proof fn law_a_print_adds_its_size(v: VwapView, price: int, qty: int, square: int)
    requires
        square * 100_000_000 <= price * price < (square + 1) * 100_000_000,
    ensures
        v.added(price, qty).volume == v.volume + qty,
        v.added(price, qty).weighted == v.weighted + price * qty,
        v.added(price, qty).squares == v.squares + square * qty,
        v.added(price, qty).bars == v.bars,
{
}

/// The average is what was paid over the volume, without its fraction; the
/// variance is the mean of the squares less the square of the mean, and never
/// negative. There is neither before there is volume.
pub proof fn law_a_vwap_is_paid_over_volume(v: VwapView, mean: int, square: int)
    requires
        v.wf(),
        v.volume > 0 ==> is_whole_part(mean, v.squares, v.volume),
        v.volume > 0 ==> square * 100_000_000 <= v.average() * v.average() < (square + 1)
            * 100_000_000,
        i128::MIN <= mean - square <= i128::MAX,
    ensures
        v.point() is Some <==> v.volume > 0,
        v.point() matches Some(point) ==> {
            &&& is_whole_part(point.vwap.0 as int, v.weighted, v.volume)
            &&& point.vwap.0 == v.average()
            &&& point.volume.0 == if v.volume < i64::MAX {
                v.volume
            } else {
                i64::MAX as int
            }
            &&& point.variance == if mean > square {
                mean - square
            } else {
                0
            }
        },
        fresh_vwap().volume == 0 && fresh_vwap().weighted == 0 && fresh_vwap().squares == 0,
{
    if v.volume > 0 {
        law_division_cuts_off_toward_zero(v.weighted, v.volume);
        lemma_only_whole_part(mean, v.squares, v.volume);
    }
}

/// There is one whole part.
pub proof fn lemma_only_whole_part(r: int, a: int, b: int)
    requires
        b > 0,
        is_whole_part(r, a, b),
    ensures
        r == truncated_div(a, b),
{
    law_division_cuts_off_toward_zero(a, b);
    let q = truncated_div(a, b);
    if a >= 0 {
        assert(r == q) by (nonlinear_arith)
            requires
                b > 0,
                r * b <= a < (r + 1) * b,
                q * b <= a < (q + 1) * b,
        ;
    } else {
        assert(r == q) by (nonlinear_arith)
            requires
                b > 0,
                (r - 1) * b < a <= r * b,
                (q - 1) * b < a <= q * b,
        ;
    }
}

/// A simple average after some bars.
pub open spec fn sma_after(v: SmaView, bars: Seq<BarView>) -> SmaView
    decreases bars.len(),
{
    if bars.len() == 0 {
        v
    } else {
        sma_after(v, bars.drop_last()).taken(bars.last())
    }
}

/// The sum of the closes from bar `from` up to bar `to`.
pub open spec fn closes_between(bars: Seq<BarView>, from: int, to: int) -> int
    decreases to - from,
{
    if to <= from {
        0
    } else {
        closes_between(bars, from, to - 1) + bars[to - 1].close.0
    }
}

proof fn lemma_sma_window(v: SmaView, bars: Seq<BarView>)
    requires
        v.wf(),
        v.window.len() == 0,
    ensures
        ({
            let after = sma_after(v, bars);
            let n = bars.len() as int;
            let held = if n < v.period {
                n
            } else {
                v.period as int
            };
            &&& after.period == v.period
            &&& after.window.len() == held
            &&& forall|i: int|
                0 <= i < held ==> #[trigger] after.window[i] == bars[n - held + i].close.0
        }),
    decreases bars.len(),
{
    if bars.len() > 0 {
        lemma_sma_window(v, bars.drop_last());
    }
}

proof fn lemma_closes_summed(window: Seq<i64>, bars: Seq<BarView>, from: int)
    requires
        0 <= from,
        from + window.len() <= bars.len(),
        forall|i: int| 0 <= i < window.len() ==> #[trigger] window[i] == bars[from + i].close.0,
    ensures
        sum_of(window) == closes_between(bars, from, from + window.len()),
    decreases window.len(),
{
    if window.len() > 0 {
        let less = window.drop_last();
        assert forall|i: int| 0 <= i < less.len() implies #[trigger] less[i] == bars[from
            + i].close.0 by {
            assert(less[i] == window[i]);
        }
        lemma_closes_summed(less, bars, from);
        assert(window[window.len() - 1] == bars[from + window.len() - 1].close.0);
    }
}

/// A simple average is the mean of the last closes, a period of them, without its
/// fraction. Before a period of bars was seen there is none.
pub proof fn law_a_simple_average_is_the_mean_of_the_last_closes(v: SmaView, bars: Seq<BarView>)
    requires
        v.wf(),
        v.window.len() == 0,
    ensures
        sma_after(v, bars).average() is Some <==> bars.len() >= v.period,
        sma_after(v, bars).average() matches Some(price) ==> is_whole_part(
            price.0 as int,
            closes_between(bars, bars.len() - v.period, bars.len() as int),
            v.period as int,
        ),
{
    lemma_sma_window(v, bars);
    let after = sma_after(v, bars);
    let n = bars.len() as int;
    if n >= v.period {
        lemma_closes_summed(after.window, bars, n - v.period);
        law_division_cuts_off_toward_zero(sum_of(after.window), v.period as int);
        crate::indicators::classic::law_average_lies_within_the_closes(after, i64::MIN, i64::MAX);
        lemma_mean_fits(after);
    }
}

proof fn lemma_mean_fits(v: SmaView)
    requires
        v.wf(),
        v.window.len() == v.period,
    ensures
        i64::MIN <= truncated_div(sum_of(v.window), v.period as int) <= i64::MAX,
{
    crate::indicators::classic::lemma_sum_between(v.window, i64::MIN as int, i64::MAX as int);
    crate::indicators::classic::lemma_mean_between(
        sum_of(v.window),
        v.period as int,
        i64::MIN as int,
        i64::MAX as int,
    );
}

/// A true range is the largest of three distances: from low to high, and from the
/// close before to each of the two. Without a close before it is the first.
pub proof fn law_a_true_range_is_the_largest_distance(previous: Price, bar: BarView)
    requires
        bar.low.0 <= bar.high.0,
    ensures
        ({
            let range = true_range_of(Some(previous), bar);
            &&& range >= bar.high.0 - bar.low.0
            &&& range >= bar.high.0 - previous.0
            &&& range >= previous.0 - bar.low.0
            &&& range == bar.high.0 - bar.low.0 || range == bar.high.0 - previous.0 || range
                == previous.0 - bar.low.0
        }),
        true_range_of(None, bar) == bar.high.0 - bar.low.0,
{
}

/// An average true range after some bars, given by their closes and true ranges.
pub open spec fn atr_after(v: AtrView, bars: Seq<(Price, i64)>) -> AtrView
    decreases bars.len(),
{
    if bars.len() == 0 {
        v
    } else {
        atr_after(v, bars.drop_last()).recorded(bars.last().0, bars.last().1)
    }
}

/// The sum of the first `n` true ranges.
pub open spec fn ranges_in(bars: Seq<(Price, i64)>, n: int) -> int
    decreases n,
{
    if n <= 0 {
        0
    } else {
        ranges_in(bars, n - 1) + bars[n - 1].1
    }
}

proof fn lemma_ranges_of_prefix(less: Seq<(Price, i64)>, bars: Seq<(Price, i64)>, n: int)
    requires
        n <= less.len() <= bars.len(),
        less == bars.take(less.len() as int),
    ensures
        ranges_in(less, n) == ranges_in(bars, n),
    decreases n,
{
    if n > 0 {
        lemma_ranges_of_prefix(less, bars, n - 1);
    }
}

proof fn lemma_atr_warmup(v: AtrView, bars: Seq<(Price, i64)>)
    requires
        v.wf(),
        v.warmup.len() == 0,
    ensures
        ({
            let after = atr_after(v, bars);
            let n = bars.len() as int;
            let held = if n < v.period {
                n
            } else {
                v.period as int
            };
            &&& after.period == v.period
            &&& after.wf()
            &&& after.warmup.len() == held
            &&& sum_of(after.warmup) == ranges_in(bars, held)
            &&& n > 0 ==> after.previous == Some(bars[n - 1].0)
        }),
    decreases bars.len(),
{
    if bars.len() > 0 {
        let less = bars.drop_last();
        let n = less.len() as int;
        lemma_atr_warmup(v, less);
        let before = atr_after(v, less);
        let held = if n < v.period {
            n
        } else {
            v.period as int
        };
        lemma_ranges_of_prefix(less, bars, held);
        let grown = before.warmup.push(bars[n].1);
        assert(grown.drop_last() =~= before.warmup);
    }
}

/// An average true range collects ranges until it has a period of them, starts
/// from their sum with the last of those, and smooths every later one. The close
/// that the next range is measured from is that of the last bar.
pub proof fn law_a_period_of_ranges_seeds_the_average(
    v: AtrView,
    bars: Seq<(Price, i64)>,
    next: (Price, i64),
)
    requires
        v.wf(),
        v.warmup.len() == 0,
        atr_after(v, bars).can_record(next.1),
    ensures
        ({
            let n = bars.len() as int + 1;
            let step = atr_after(v, bars).step(next.1);
            &&& n < v.period ==> step is Collect
            &&& n == v.period ==> step == (AtrStep::Seed {
                sum: ranges_in(bars.push(next), n) as i64,
            })
            &&& n > v.period ==> step is Smooth
            &&& atr_after(v, bars.push(next)).previous == Some(next.0)
            &&& atr_after(v, bars).seeded <==> bars.len() >= v.period
        }),
{
    let all = bars.push(next);
    assert(all.drop_last() =~= bars);
    lemma_atr_warmup(v, bars);
    lemma_atr_warmup(v, all);
    lemma_ranges_of_prefix(bars, all, bars.len() as int);
    let before = atr_after(v, bars);
    let grown = before.warmup.push(next.1);
    assert(grown.drop_last() =~= before.warmup);
}

/// A relative strength index after some closes.
pub open spec fn rsi_after(v: RsiView, closes: Seq<Price>) -> RsiView
    decreases closes.len(),
{
    if closes.len() == 0 {
        v
    } else {
        rsi_after(v, closes.drop_last()).taken(closes.last())
    }
}

/// Whether every close of a list can be taken in turn.
pub open spec fn can_follow(v: RsiView, closes: Seq<Price>) -> bool
    decreases closes.len(),
{
    closes.len() == 0 || (can_follow(v, closes.drop_last()) && rsi_after(
        v,
        closes.drop_last(),
    ).can_take(closes.last()))
}

/// The changes that seed a relative strength index are those from each close to
/// the next, in order, a period of them: one close more than the period.
pub proof fn law_a_period_of_changes_seeds_the_index(v: RsiView, closes: Seq<Price>)
    requires
        v.wf(),
        v.previous is None,
        v.changes.len() == 0,
        can_follow(v, closes),
    ensures
        ({
            let after = rsi_after(v, closes);
            let n = closes.len() as int;
            let held = if n == 0 {
                0
            } else if n - 1 < v.period {
                n - 1
            } else {
                v.period as int
            };
            &&& after.period == v.period
            &&& after.changes.len() == held
            &&& forall|i: int|
                0 <= i < held ==> #[trigger] after.changes[i] == closes[i + 1].0 - closes[i].0
            &&& after.previous == if n == 0 {
                None
            } else {
                Some(closes[n - 1])
            }
            &&& after.seeded <==> n > v.period
            &&& after.wf()
        }),
    decreases closes.len(),
{
    if closes.len() > 0 {
        let less = closes.drop_last();
        law_a_period_of_changes_seeds_the_index(v, less);
        let n = less.len() as int;
        let before = rsi_after(v, less);
        let after = rsi_after(v, closes);
        if n > 0 {
            assert(before.previous == Some(closes[n - 1]));
        }
        assert forall|i: int| 0 <= i < after.changes.len() implies #[trigger] after.changes[i]
            == closes[i + 1].0 - closes[i].0 by {
            if i < before.changes.len() {
                assert(before.changes[i] == less[i + 1].0 - less[i].0);
            }
        }
    }
}

/// The change that is smoothed in is the one from the close before.
pub proof fn law_a_change_is_from_the_close_before(v: RsiView, previous: Price, close: Price)
    requires
        v.previous == Some(previous),
        i64::MIN <= close.0 - previous.0 <= i64::MAX,
    ensures
        v.can_take(close),
        v.change(close) == close.0 - previous.0,
{
}

} // verus!
