//! What the scanners point at, in terms of the trades and bars that they saw.

use crate::engine::cluster::ClusterRow;
use crate::indicators::scanners::{BigTrade, ClusterCriteria};
use crate::primitives::fixed::Qty;
use crate::primitives::market::Trade;
use crate::primitives::ratio::Ratio;
use crate::primitives::time::Ts;
use vstd::prelude::*;

verus! {

use crate::engine::bar::BarView;
use crate::engine::cluster::stacks_of;
use crate::indicators::scanners::{
    aged, heaviest, law_heaviest_level_is_maximal, print_of, sizes_fit, BigTradesView, SearchView,
    SpeedView,
};

/// A print as large as the threshold is flagged and any smaller one is not. A
/// flagged print is reported as it traded and comes last in the history, which
/// keeps the newest ones up to its capacity, in order.
pub proof fn law_large_prints_are_flagged(v: BigTradesView, trade: Trade, i: int)
    requires
        v.wf(),
        v.can_take(trade),
    ensures
        v.flags(trade) <==> trade.qty.0 >= v.threshold.0,
        trade.qty.0 < v.threshold.0 ==> v.taken(trade) == v,
        trade.qty.0 >= v.threshold.0 ==> {
            let after = v.taken(trade);
            let n = v.recent.len() as int;
            let left = if n < v.capacity {
                0int
            } else {
                1
            };
            &&& after.seen == v.seen + 1
            &&& after.recent.len() == n + 1 - left
            &&& after.recent.last() == (BigTrade {
                ts: trade.ts,
                price: trade.price,
                qty: trade.qty,
                aggressor: trade.aggressor,
            })
            &&& 0 <= i < n - left ==> after.recent[i] == v.recent[i + left]
            &&& after.threshold == v.threshold
            &&& after.capacity == v.capacity
        },
        print_of(trade).price == trade.price && print_of(trade).qty == trade.qty && print_of(
            trade,
        ).ts == trade.ts && print_of(trade).aggressor == trade.aggressor,
{
}

/// How many trades at the front came before a moment.
proof fn lemma_aged(times: Seq<Ts>, cutoff: int) -> (k: int)
    ensures
        0 <= k <= times.len(),
        aged(times, cutoff) == times.skip(k),
        forall|i: int| 0 <= i < k ==> (#[trigger] times[i]).0 < cutoff,
        k < times.len() ==> times[k].0 >= cutoff,
    decreases times.len(),
{
    if times.len() > 0 && times[0].0 < cutoff {
        let rest = times.drop_first();
        let k = lemma_aged(rest, cutoff);
        assert(rest.skip(k) =~= times.skip(k + 1));
        assert forall|i: int| 0 <= i < k + 1 implies (#[trigger] times[i]).0 < cutoff by {
            if i > 0 {
                assert(times[i] == rest[i - 1]);
            }
        }
        if k < rest.len() {
            assert(rest[k] == times[k + 1]);
        }
        k + 1
    } else {
        assert(times.skip(0) =~= times);
        0
    }
}

/// The speed of the tape is the number of trades no older than the window. The
/// trades that have gone from it are the first `k`, all older; the oldest that is
/// left is within the window of the last trade.
pub proof fn law_the_tape_keeps_its_window(v: SpeedView, trade: Trade) -> (k: int)
    requires
        v.wf(),
        v.can_take(trade),
        v.times.len() < usize::MAX,
    ensures
        ({
            let after = v.taken(trade);
            let all = v.times.push(trade.ts);
            &&& 0 <= k <= v.times.len()
            &&& after.times == all.skip(k)
            &&& forall|i: int|
                0 <= i < k ==> trade.ts.0 - (#[trigger] v.times[i]).0 > v.window_nanos
            &&& trade.ts.0 - all[k].0 <= v.window_nanos
            &&& after.last is Some
            &&& (after.last->0).trades == v.times.len() + 1 - k
            &&& (after.last->0).window_nanos == v.window_nanos
            &&& after.window_nanos == v.window_nanos
        }),
{
    let all = v.times.push(trade.ts);
    let k = lemma_aged(all, trade.ts.0 - v.window_nanos);
    if k > v.times.len() {
        assert(all[v.times.len() as int] == trade.ts);
    }
    assert forall|i: int| 0 <= i < k implies trade.ts.0 - (#[trigger] v.times[i]).0
        > v.window_nanos by {
        assert(all[i] == v.times[i]);
    }
    k
}

/// Whether some level of a bar traded this much.
pub open spec fn has_level(bar: BarView, min: Qty) -> bool {
    exists|i: int|
        0 <= i < bar.ladder.rows.len() && (#[trigger] bar.ladder.rows[i]).bid.0
            + bar.ladder.rows[i].ask.0 >= min.0
}

/// How far a bar's bought and sold volume are apart.
pub open spec fn apart(bar: BarView) -> int {
    if bar.ladder.total_ask < bar.ladder.total_bid {
        bar.ladder.total_bid - bar.ladder.total_ask
    } else {
        bar.ladder.total_ask - bar.ladder.total_bid
    }
}

proof fn lemma_heaviest(rows: Seq<ClusterRow>)
    requires
        sizes_fit(rows),
    ensures
        heaviest(rows) is Some <==> rows.len() > 0,
        heaviest(rows) matches Some((price, total)) ==> exists|i: int|
            0 <= i < rows.len() && (#[trigger] rows[i]).price == price && total.0
                == rows[i].cluster.bid.0 + rows[i].cluster.ask.0 && forall|j: int|
                i < j < rows.len() ==> (#[trigger] rows[j]).cluster.bid.0 + rows[j].cluster.ask.0
                    < total.0,
    decreases rows.len(),
{
    if rows.len() > 0 {
        let less = rows.drop_last();
        let n = less.len() as int;
        assert(in_size(rows[n]));
        assert(sizes_fit(less)) by {
            assert forall|k: int| 0 <= k < less.len() implies crate::primitives::fixed::in_range(
                (#[trigger] less[k]).cluster.size(),
            ) by {
                assert(less[k] == rows[k]);
            }
        }
        lemma_heaviest(less);
        let last = rows[n];
        match heaviest(less) {
            Some((price, qty)) if qty.0 > last.cluster.size() => {
                let i = choose|i: int|
                    0 <= i < less.len() && (#[trigger] less[i]).price == price && qty.0
                        == less[i].cluster.bid.0 + less[i].cluster.ask.0 && forall|j: int|
                        i < j < less.len() ==> (#[trigger] less[j]).cluster.bid.0
                            + less[j].cluster.ask.0 < qty.0;
                assert(rows[i] == less[i]);
                assert forall|j: int| i < j < rows.len() implies (#[trigger] rows[j]).cluster.bid.0
                    + rows[j].cluster.ask.0 < qty.0 by {
                    if j < n {
                        assert(rows[j] == less[j]);
                    }
                }
            },
            _ => {
                assert(rows[n].price == (heaviest(rows)->0).0);
            },
        }
    }
}

spec fn in_size(row: ClusterRow) -> bool {
    crate::primitives::fixed::in_range(row.cluster.size())
}

/// The heaviest level is one that traded as much as any, and of several the
/// highest.
pub proof fn law_the_heaviest_level_is_the_highest_of_the_largest(rows: Seq<ClusterRow>, j: int)
    requires
        sizes_fit(rows),
        0 <= j < rows.len(),
    ensures
        heaviest(rows) matches Some((price, total)) && rows[j].cluster.bid.0
            + rows[j].cluster.ask.0 <= total.0 && exists|i: int|
            0 <= i < rows.len() && (#[trigger] rows[i]).price == price && total.0
                == rows[i].cluster.bid.0 + rows[i].cluster.ask.0 && (j > i ==> rows[j].cluster.bid.0
                + rows[j].cluster.ask.0 < total.0),
{
    lemma_heaviest(rows);
    law_heaviest_level_is_maximal(rows, j);
    let (price, total) = heaviest(rows)->0;
    let i = choose|i: int|
        0 <= i < rows.len() && (#[trigger] rows[i]).price == price && total.0
            == rows[i].cluster.bid.0 + rows[i].cluster.ask.0 && forall|j: int|
            i < j < rows.len() ==> (#[trigger] rows[j]).cluster.bid.0 + rows[j].cluster.ask.0
                < total.0;
    assert(rows[i].price == price);
}

/// A bar matches where at least one condition was set and it meets every one that
/// was: enough volume, bought and sold volume far enough apart, one level that
/// traded enough, and a stack of imbalances that is long enough.
pub proof fn law_a_match_meets_every_condition(criteria: ClusterCriteria, bar: BarView)
    requires
        criteria.wf(),
        sizes_fit(bar.ladder.row_list()),
    ensures
        criteria.matches(bar) <==> {
            &&& criteria.min_volume is Some || criteria.min_level_volume is Some
                || criteria.min_abs_delta is Some || criteria.min_imbalance_stack is Some
            &&& criteria.min_volume matches Some(min) ==> bar.volume.0 >= min.0
            &&& criteria.min_abs_delta matches Some(min) ==> apart(bar) >= min.0
            &&& criteria.min_level_volume matches Some(min) ==> has_level(bar, min)
            &&& criteria.min_imbalance_stack matches Some(run) ==> stacks_of(
                bar.ladder.all_imbalances(ratio_of(criteria), floor_of(criteria)),
                bar.ladder.tick,
                run as int,
            ).len() > 0
        },
{
    let rows = bar.ladder.row_list();
    lemma_heaviest(rows);
    if let Some(min) = criteria.min_level_volume {
        if has_level(bar, min) {
            let i = choose|i: int|
                0 <= i < bar.ladder.rows.len() && (#[trigger] bar.ladder.rows[i]).bid.0
                    + bar.ladder.rows[i].ask.0 >= min.0;
            assert(rows[i].cluster == bar.ladder.rows[i]);
            law_heaviest_level_is_maximal(rows, i);
        }
        if criteria.level_passes(bar) {
            let (price, total) = heaviest(rows)->0;
            let i = choose|i: int|
                0 <= i < rows.len() && (#[trigger] rows[i]).price == price && total.0
                    == rows[i].cluster.bid.0 + rows[i].cluster.ask.0 && forall|j: int|
                    i < j < rows.len() ==> (#[trigger] rows[j]).cluster.bid.0
                        + rows[j].cluster.ask.0 < total.0;
            assert(rows[i].cluster == bar.ladder.rows[i]);
        }
    }
}

/// The ratio that makes an imbalance: three to one unless another was set.
pub open spec fn ratio_of(criteria: ClusterCriteria) -> Ratio {
    if criteria.imbalance_ratio is Some {
        criteria.imbalance_ratio->0
    } else {
        Ratio { num: 3, den: 1 }
    }
}

/// The volume that a level needs in an imbalance: any unless some was set.
pub open spec fn floor_of(criteria: ClusterCriteria) -> Qty {
    if criteria.imbalance_min_volume is Some {
        criteria.imbalance_min_volume->0
    } else {
        Qty(0)
    }
}

/// What is reported of a bar that matches: when it opened, its volume, how much
/// more was bought than sold, the heaviest level where a level was asked for, and
/// the stacks where those were. It is listed behind the earlier hits; a bar that
/// does not match is only counted.
pub proof fn law_a_hit_reports_its_bar(v: SearchView, bar: BarView)
    requires
        v.wf(),
        v.can_take(bar),
    ensures
        ({
            let after = v.taken(bar);
            let hit = after.hits.last();
            let c = v.criteria;
            &&& after.scanned == v.scanned + 1
            &&& after.criteria == c
            &&& !c.matches(bar) ==> after.hits == v.hits
            &&& c.matches(bar) ==> {
                &&& after.hits.drop_last() == v.hits
                &&& hit.open_ts == bar.open_ts
                &&& hit.volume == bar.volume
                &&& hit.delta.0 == bar.ladder.total_ask - bar.ladder.total_bid
                &&& hit.heaviest_level == if c.min_level_volume is Some {
                    heaviest(bar.ladder.row_list())
                } else {
                    None
                }
                &&& c.min_imbalance_stack is None ==> hit.stacks.len() == 0
                &&& c.min_imbalance_stack matches Some(run) ==> hit.stacks == stacks_of(
                    bar.ladder.all_imbalances(ratio_of(c), floor_of(c)),
                    bar.ladder.tick,
                    run as int,
                )
            }
        }),
{
    if v.criteria.matches(bar) {
        assert(v.taken(bar).hits.drop_last() =~= v.hits);
    }
}

} // verus!
