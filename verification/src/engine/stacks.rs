//! Stacked imbalances are the maximal runs of imbalances, no more and no fewer.

use crate::engine::cluster::Imbalance;
use crate::primitives::fixed::{Price, Qty};
use crate::primitives::market::Side;
use crate::primitives::ratio::Ratio;
use vstd::prelude::*;

verus! {

use crate::engine::cluster::{
    goes_on, kept_runs, law_rows_are_one_tick_apart, stacks_of, walked, LadderView,
};

/// Whether `next` goes on from `last`: the same side, one row up.
pub open spec fn joins(last: Imbalance, next: Imbalance, tick: Price) -> bool {
    last.side == next.side && next.price.0 - last.price.0 == tick.0
}

/// Whether the imbalance at a place does not go on from the one before it.
pub open spec fn starts_at(found: Seq<Imbalance>, tick: Price, at: int) -> bool {
    at == 0 || !joins(found[at - 1], found[at], tick)
}

/// Whether the places from `from` up to `to` are a run that goes on at neither
/// end.
pub open spec fn is_block(found: Seq<Imbalance>, tick: Price, from: int, to: int) -> bool {
    &&& 0 <= from < to <= found.len()
    &&& starts_at(found, tick, from)
    &&& to < found.len() ==> starts_at(found, tick, to)
    &&& forall|i: int| from < i < to ==> !#[trigger] starts_at(found, tick, i)
}

/// Whether runs are the blocks at these places that end by `end` and are long
/// enough, one behind the other.
pub open spec fn are_blocks(
    found: Seq<Imbalance>,
    tick: Price,
    min_run: int,
    runs: Seq<Seq<Imbalance>>,
    places: Seq<int>,
    end: int,
) -> bool {
    &&& places.len() == runs.len()
    &&& forall|k: int|
        0 <= k < places.len() ==> {
            let from = #[trigger] places[k];
            let to = from + runs[k].len();
            &&& to - from >= min_run
            &&& is_block(found, tick, from, to)
            &&& runs[k] == found.subrange(from, to)
            &&& to <= end
        }
    &&& forall|k: int, l: int|
        0 <= k < l < places.len() ==> #[trigger] places[k] + runs[k].len() <= #[trigger] places[l]
    &&& forall|from: int, to: int| #[trigger]
        is_block(found, tick, from, to) && to <= end && to - from >= min_run ==> exists|k: int|
            0 <= k < places.len() && #[trigger] places[k] == from
}

proof fn lemma_block_shorter(found: Seq<Imbalance>, tick: Price, from: int, to: int)
    requires
        found.len() > 0,
        to < found.len() - 1,
    ensures
        is_block(found, tick, from, to) == is_block(found.drop_last(), tick, from, to),
{
    let less = found.drop_last();
    if is_block(found, tick, from, to) {
        assert forall|i: int| from < i < to implies !#[trigger] starts_at(less, tick, i) by {
            assert(!starts_at(found, tick, i));
        }
    }
    if is_block(less, tick, from, to) {
        assert forall|i: int| from < i < to implies !#[trigger] starts_at(found, tick, i) by {
            assert(!starts_at(less, tick, i));
        }
    }
}

/// Taking in the run between `open` and the next start.
proof fn lemma_close_block(
    found: Seq<Imbalance>,
    tick: Price,
    min_run: int,
    runs: Seq<Seq<Imbalance>>,
    places: Seq<int>,
    open: int,
    end: int,
) -> (more: Seq<int>)
    requires
        min_run > 0,
        are_blocks(found, tick, min_run, runs, places, open),
        is_block(found, tick, open, end),
    ensures
        are_blocks(
            found,
            tick,
            min_run,
            kept_runs(runs, found.subrange(open, end), min_run),
            more,
            end,
        ),
{
    let run = found.subrange(open, end);
    let after = kept_runs(runs, run, min_run);
    let more = if run.len() >= min_run {
        places.push(open)
    } else {
        places
    };
    assert forall|k: int| 0 <= k < more.len() implies {
        let from = #[trigger] more[k];
        let to = from + after[k].len();
        &&& to - from >= min_run
        &&& is_block(found, tick, from, to)
        &&& after[k] == found.subrange(from, to)
        &&& to <= end
    } by {
        if k < places.len() {
            assert(more[k] == places[k]);
            assert(after[k] == runs[k]);
        }
    }
    assert forall|k: int, l: int| 0 <= k < l < more.len() implies #[trigger] more[k]
        + after[k].len() <= #[trigger] more[l] by {
        assert(more[k] == places[k]);
        assert(after[k] == runs[k]);
        if l < places.len() {
            assert(more[l] == places[l]);
        }
    }
    assert forall|from: int, to: int| #[trigger]
        is_block(found, tick, from, to) && to <= end && to - from >= min_run implies exists|k: int|
        0 <= k < more.len() && #[trigger] more[k] == from by {
        if to <= open {
            let k = choose|k: int| 0 <= k < places.len() && #[trigger] places[k] == from;
            assert(more[k] == from);
        } else {
            if to < end {
                assert(!starts_at(found, tick, to));
            }
            if from < open {
                assert(!starts_at(found, tick, open));
            }
            if from > open {
                assert(!starts_at(found, tick, from));
            }
            assert(more[places.len() as int] == from);
        }
    }
    more
}

proof fn lemma_walk(found: Seq<Imbalance>, tick: Price, min_run: int) -> (r: (Seq<int>, int))
    requires
        min_run > 0,
        found.len() > 0,
    ensures
        ({
            let (runs, run) = walked(found, tick, min_run);
            let (places, open) = r;
            &&& is_block(found, tick, open, found.len() as int)
            &&& run == found.subrange(open, found.len() as int)
            &&& are_blocks(found, tick, min_run, runs, places, open)
        }),
    decreases found.len(),
{
    let n = found.len() - 1;
    let less = found.drop_last();
    let last = found.last();
    if n == 0 {
        reveal_with_fuel(walked, 2);
        assert(less =~= Seq::<Imbalance>::empty());
        let run = walked(found, tick, min_run).1;
        assert(run =~= found.subrange(0, 1));
        assert(walked(found, tick, min_run).0 =~= Seq::<Seq<Imbalance>>::empty());
        (Seq::<int>::empty(), 0)
    } else {
        let (places, open) = lemma_walk(less, tick, min_run);
        let (runs, run) = walked(less, tick, min_run);
        assert(run.last() == found[n - 1]);
        assert forall|i: int| open < i < n implies !#[trigger] starts_at(found, tick, i) by {
            assert(!starts_at(less, tick, i));
        }
        assert(starts_at(found, tick, open));
        // What was complete before is complete still.
        assert(are_blocks(found, tick, min_run, runs, places, open)) by {
            assert forall|k: int| 0 <= k < places.len() implies {
                let from = #[trigger] places[k];
                let to = from + runs[k].len();
                &&& to - from >= min_run
                &&& is_block(found, tick, from, to)
                &&& runs[k] == found.subrange(from, to)
                &&& to <= open
            } by {
                let from = places[k];
                let to = from + runs[k].len();
                lemma_block_shorter(found, tick, from, to);
                assert(less.subrange(from, to) =~= found.subrange(from, to));
            }
            assert forall|from: int, to: int| #[trigger]
                is_block(found, tick, from, to) && to <= open && to - from
                    >= min_run implies exists|k: int|
                0 <= k < places.len() && #[trigger] places[k] == from by {
                lemma_block_shorter(found, tick, from, to);
                assert(is_block(less, tick, from, to));
            }
        }
        if goes_on(run, last, tick) {
            assert(run.push(last) =~= found.subrange(open, n + 1));
            assert(!starts_at(found, tick, n));
            (places, open)
        } else {
            assert(starts_at(found, tick, n));
            assert(less.subrange(open, n) =~= found.subrange(open, n));
            let more = lemma_close_block(found, tick, min_run, runs, places, open, n);
            assert(seq![last] =~= found.subrange(n, n + 1));
            (more, n)
        }
    }
}

pub proof fn lemma_stacks(found: Seq<Imbalance>, tick: Price, min_run: int) -> (places: Seq<int>)
    requires
        min_run > 0,
    ensures
        are_blocks(
            found,
            tick,
            min_run,
            stacks_of(found, tick, min_run),
            places,
            found.len() as int,
        ),
{
    if found.len() == 0 {
        Seq::<int>::empty()
    } else {
        let (places, open) = lemma_walk(found, tick, min_run);
        lemma_close_block(
            found,
            tick,
            min_run,
            walked(found, tick, min_run).0,
            places,
            open,
            found.len() as int,
        )
    }
}

impl LadderView {
    /// The imbalance of a row on one side, if it has one.
    pub open spec fn side_imbalance(
        self,
        slot: int,
        side: Side,
        ratio: Ratio,
        min_volume: Qty,
    ) -> Seq<Imbalance> {
        match side {
            Side::Buy => self.buy_imbalance(slot, ratio, min_volume),
            Side::Sell => self.sell_imbalance(slot, ratio, min_volume),
        }
    }

    /// Whether a row has an imbalance on one side.
    pub open spec fn is_marked(
        self,
        slot: int,
        side: Side,
        ratio: Ratio,
        min_volume: Qty,
    ) -> bool {
        0 <= slot < self.rows.len() && self.side_imbalance(slot, side, ratio, min_volume).len() > 0
    }

    /// The imbalance of a marked row.
    pub open spec fn mark(
        self,
        slot: int,
        side: Side,
        ratio: Ratio,
        min_volume: Qty,
    ) -> Imbalance {
        self.side_imbalance(slot, side, ratio, min_volume)[0]
    }

    /// Where the imbalance of a marked row stands among all.
    pub open spec fn place_of(
        self,
        slot: int,
        side: Side,
        ratio: Ratio,
        min_volume: Qty,
    ) -> int {
        self.imbalances_below(slot, ratio, min_volume).len() + match side {
            Side::Buy => 0,
            Side::Sell => self.buy_imbalance(slot, ratio, min_volume).len() as int,
        }
    }

    /// Whether a run holds the imbalances of consecutive rows on one side, from
    /// `slot` up, and neither the row below nor the row above has another one.
    pub open spec fn is_full_run(
        self,
        run: Seq<Imbalance>,
        slot: int,
        side: Side,
        ratio: Ratio,
        min_volume: Qty,
    ) -> bool {
        &&& run.len() > 0
        &&& forall|j: int|
            0 <= j < run.len() ==> self.is_marked(slot + j, side, ratio, min_volume)
                && #[trigger] run[j] == self.mark(slot + j, side, ratio, min_volume)
        &&& !self.is_marked(slot - 1, side, ratio, min_volume)
        &&& !self.is_marked(slot + run.len(), side, ratio, min_volume)
    }
}

pub proof fn lemma_mark_placed(
    v: LadderView,
    n: int,
    slot: int,
    side: Side,
    ratio: Ratio,
    min_volume: Qty,
)
    requires
        0 <= slot < n <= v.rows.len(),
        v.is_marked(slot, side, ratio, min_volume),
    ensures
        0 <= v.place_of(slot, side, ratio, min_volume) < v.imbalances_below(
            n,
            ratio,
            min_volume,
        ).len(),
        v.imbalances_below(n, ratio, min_volume)[v.place_of(slot, side, ratio, min_volume)]
            == v.mark(slot, side, ratio, min_volume),
    decreases n,
{
    if slot < n - 1 {
        lemma_mark_placed(v, n - 1, slot, side, ratio, min_volume);
    }
}

pub proof fn lemma_place_marked(v: LadderView, n: int, at: int, ratio: Ratio, min_volume: Qty) -> (r: (
    int,
    Side,
))
    requires
        0 <= n <= v.rows.len(),
        0 <= at < v.imbalances_below(n, ratio, min_volume).len(),
    ensures
        0 <= r.0 < n,
        v.is_marked(r.0, r.1, ratio, min_volume),
        v.place_of(r.0, r.1, ratio, min_volume) == at,
        v.imbalances_below(n, ratio, min_volume)[at] == v.mark(r.0, r.1, ratio, min_volume),
    decreases n,
{
    let below = v.imbalances_below(n - 1, ratio, min_volume);
    let buys = v.buy_imbalance(n - 1, ratio, min_volume);
    if at < below.len() {
        lemma_place_marked(v, n - 1, at, ratio, min_volume)
    } else if at < below.len() + buys.len() {
        (n - 1, Side::Buy)
    } else {
        (n - 1, Side::Sell)
    }
}

/// A seller that dominates a row and a buyer that dominates the next would each
/// have traded more than the other.
proof fn lemma_no_conflict(v: LadderView, slot: int, ratio: Ratio, min_volume: Qty)
    requires
        ratio.wf(),
        ratio.num > ratio.den,
        v.is_marked(slot, Side::Sell, ratio, min_volume),
    ensures
        !v.is_marked(slot + 1, Side::Buy, ratio, min_volume),
{
    if v.is_marked(slot + 1, Side::Buy, ratio, min_volume) {
        let bid = v.rows[slot].bid.0 as int;
        let ask = v.rows[slot + 1].ask.0 as int;
        let (num, den) = (ratio.num as int, ratio.den as int);
        assert(false) by (nonlinear_arith)
            requires
                bid > 0,
                ask > 0,
                num > den,
                den > 0,
                bid * den >= num * ask,
                ask * den >= num * bid,
        ;
    }
}

pub proof fn lemma_prices_apart(v: LadderView, low: int, high: int)
    requires
        v.wf(),
        v.prices_fit(),
        0 <= low <= high < v.rows.len(),
    ensures
        v.row_price(high).0 - v.row_price(low).0 == (high - low) * v.tick.0,
    decreases high - low,
{
    if low < high {
        lemma_prices_apart(v, low, high - 1);
        law_rows_are_one_tick_apart(v, high - 1);
        assert((high - low) * v.tick.0 == (high - 1 - low) * v.tick.0 + v.tick.0)
            by (nonlinear_arith);
    } else {
        assert((high - low) * v.tick.0 == 0) by (nonlinear_arith)
            requires
                high == low,
        ;
    }
}

proof fn lemma_one_up(v: LadderView, a: int, b: int)
    requires
        v.wf(),
        v.prices_fit(),
        0 <= a < v.rows.len(),
        0 <= b < v.rows.len(),
    ensures
        v.row_price(b).0 - v.row_price(a).0 == v.tick.0 <==> b == a + 1,
        v.row_price(b) == v.row_price(a) <==> b == a,
{
    let t = v.tick.0 as int;
    if a <= b {
        lemma_prices_apart(v, a, b);
        assert(((b - a) * t == t) == (b - a == 1)) by (nonlinear_arith)
            requires
                t > 0,
        ;
        assert(((b - a) * t == 0) == (b - a == 0)) by (nonlinear_arith)
            requires
                t > 0,
        ;
    } else {
        lemma_prices_apart(v, b, a);
        assert((a - b) * t > 0) by (nonlinear_arith)
            requires
                t > 0,
                a > b,
        ;
    }
}

/// Imbalances of one side in consecutive rows stand next to each other.
proof fn lemma_next_place(v: LadderView, slot: int, side: Side, ratio: Ratio, min_volume: Qty)
    requires
        ratio.wf(),
        ratio.num > ratio.den,
        v.is_marked(slot, side, ratio, min_volume),
        v.is_marked(slot + 1, side, ratio, min_volume),
    ensures
        v.place_of(slot + 1, side, ratio, min_volume) == v.place_of(slot, side, ratio, min_volume)
            + 1,
{
    match side {
        Side::Buy => {
            if v.is_marked(slot, Side::Sell, ratio, min_volume) {
                lemma_no_conflict(v, slot, ratio, min_volume);
            }
        },
        Side::Sell => {
            lemma_no_conflict(v, slot, ratio, min_volume);
        },
    }
}

/// What it means that a place starts a run.
proof fn lemma_starts(v: LadderView, slot: int, side: Side, ratio: Ratio, min_volume: Qty)
    requires
        v.wf(),
        v.prices_fit(),
        ratio.wf(),
        ratio.num > ratio.den,
        v.is_marked(slot, side, ratio, min_volume),
    ensures
        starts_at(
            v.all_imbalances(ratio, min_volume),
            v.tick,
            v.place_of(slot, side, ratio, min_volume),
        ) <==> !v.is_marked(slot - 1, side, ratio, min_volume),
{
    let n = v.rows.len() as int;
    let all = v.all_imbalances(ratio, min_volume);
    let at = v.place_of(slot, side, ratio, min_volume);
    lemma_mark_placed(v, n, slot, side, ratio, min_volume);
    if v.is_marked(slot - 1, side, ratio, min_volume) {
        lemma_next_place(v, slot - 1, side, ratio, min_volume);
        lemma_mark_placed(v, n, slot - 1, side, ratio, min_volume);
        lemma_one_up(v, slot - 1, slot);
    } else if at > 0 {
        let (before, other) = lemma_place_marked(v, n, at - 1, ratio, min_volume);
        lemma_one_up(v, before, slot);
    }
}

/// A block of imbalances is a full run.
proof fn lemma_block_is_run(
    v: LadderView,
    from: int,
    to: int,
    slot: int,
    side: Side,
    ratio: Ratio,
    min_volume: Qty,
)
    requires
        v.wf(),
        v.prices_fit(),
        ratio.wf(),
        ratio.num > ratio.den,
        is_block(v.all_imbalances(ratio, min_volume), v.tick, from, to),
        v.is_marked(slot, side, ratio, min_volume),
        v.place_of(slot, side, ratio, min_volume) == from,
    ensures
        v.is_full_run(
            v.all_imbalances(ratio, min_volume).subrange(from, to),
            slot,
            side,
            ratio,
            min_volume,
        ),
{
    let n = v.rows.len() as int;
    let all = v.all_imbalances(ratio, min_volume);
    let run = all.subrange(from, to);
    lemma_starts(v, slot, side, ratio, min_volume);
    assert forall|j: int| 0 <= j < run.len() implies v.is_marked(slot + j, side, ratio, min_volume)
        && #[trigger] run[j] == v.mark(slot + j, side, ratio, min_volume) by {
        lemma_run_member(v, from, to, slot, side, ratio, min_volume, j);
    }
    let len = run.len() as int;
    lemma_run_member(v, from, to, slot, side, ratio, min_volume, len - 1);
    if v.is_marked(slot + len, side, ratio, min_volume) {
        lemma_next_place(v, slot + len - 1, side, ratio, min_volume);
        lemma_starts(v, slot + len, side, ratio, min_volume);
        lemma_mark_placed(v, n, slot + len, side, ratio, min_volume);
        assert(starts_at(all, v.tick, to));
    }
}

proof fn lemma_run_member(
    v: LadderView,
    from: int,
    to: int,
    slot: int,
    side: Side,
    ratio: Ratio,
    min_volume: Qty,
    j: int,
)
    requires
        v.wf(),
        v.prices_fit(),
        ratio.wf(),
        ratio.num > ratio.den,
        is_block(v.all_imbalances(ratio, min_volume), v.tick, from, to),
        v.is_marked(slot, side, ratio, min_volume),
        v.place_of(slot, side, ratio, min_volume) == from,
        0 <= j < to - from,
    ensures
        v.is_marked(slot + j, side, ratio, min_volume),
        v.place_of(slot + j, side, ratio, min_volume) == from + j,
        v.all_imbalances(ratio, min_volume)[from + j] == v.mark(
            slot + j,
            side,
            ratio,
            min_volume,
        ),
    decreases j,
{
    let n = v.rows.len() as int;
    let all = v.all_imbalances(ratio, min_volume);
    if j == 0 {
        lemma_mark_placed(v, n, slot, side, ratio, min_volume);
    } else {
        lemma_run_member(v, from, to, slot, side, ratio, min_volume, j - 1);
        assert(!starts_at(all, v.tick, from + j));
        let (next, other) = lemma_place_marked(v, n, from + j, ratio, min_volume);
        lemma_one_up(v, slot + j - 1, next);
        assert(joins(all[from + j - 1], all[from + j], v.tick));
        assert(other == side);
        assert(next == slot + j);
    }
}

/// A full run is a block of imbalances.
proof fn lemma_run_is_block(
    v: LadderView,
    run: Seq<Imbalance>,
    slot: int,
    side: Side,
    ratio: Ratio,
    min_volume: Qty,
)
    requires
        v.wf(),
        v.prices_fit(),
        ratio.wf(),
        ratio.num > ratio.den,
        v.is_full_run(run, slot, side, ratio, min_volume),
    ensures
        ({
            let from = v.place_of(slot, side, ratio, min_volume);
            let all = v.all_imbalances(ratio, min_volume);
            &&& is_block(all, v.tick, from, from + run.len())
            &&& all.subrange(from, from + run.len()) == run
        }),
{
    let n = v.rows.len() as int;
    let all = v.all_imbalances(ratio, min_volume);
    let from = v.place_of(slot, side, ratio, min_volume);
    let len = run.len() as int;
    let to = from + len;
    assert forall|j: int| 0 <= j < len implies #[trigger] run[j] == all[from + j] && from + j
        < all.len() && (j > 0 ==> !starts_at(all, v.tick, from + j)) by {
        lemma_full_run_place(v, run, slot, side, ratio, min_volume, j);
        lemma_mark_placed(v, n, slot + j, side, ratio, min_volume);
        if j > 0 {
            assert(run[j - 1] == v.mark(slot + j - 1, side, ratio, min_volume));
            lemma_starts(v, slot + j, side, ratio, min_volume);
        }
    }
    assert(run[0] == all[from]);
    assert(run[len - 1] == all[to - 1]);
    assert(v.is_marked(slot, side, ratio, min_volume));
    lemma_starts(v, slot, side, ratio, min_volume);
    lemma_mark_placed(v, n, slot, side, ratio, min_volume);
    assert forall|i: int| from < i < to implies !#[trigger] starts_at(all, v.tick, i) by {
        assert(run[i - from] == all[i]);
    }
    if to < all.len() {
        let (next, other) = lemma_place_marked(v, n, to, ratio, min_volume);
        lemma_full_run_place(v, run, slot, side, ratio, min_volume, len - 1);
        assert(run[len - 1] == v.mark(slot + len - 1, side, ratio, min_volume));
        lemma_one_up(v, slot + len - 1, next);
        assert(starts_at(all, v.tick, to));
    }
    assert(all.subrange(from, to) =~= run);
}

proof fn lemma_full_run_place(
    v: LadderView,
    run: Seq<Imbalance>,
    slot: int,
    side: Side,
    ratio: Ratio,
    min_volume: Qty,
    j: int,
)
    requires
        ratio.wf(),
        ratio.num > ratio.den,
        v.is_full_run(run, slot, side, ratio, min_volume),
        0 <= j < run.len(),
    ensures
        v.is_marked(slot + j, side, ratio, min_volume),
        v.place_of(slot + j, side, ratio, min_volume) == v.place_of(slot, side, ratio, min_volume)
            + j,
    decreases j,
{
    assert(run[j] == v.mark(slot + j, side, ratio, min_volume));
    if j > 0 {
        lemma_full_run_place(v, run, slot, side, ratio, min_volume, j - 1);
        lemma_next_place(v, slot + j - 1, side, ratio, min_volume);
    }
}

/// No two imbalances are of the same row and side.
proof fn lemma_no_duplicate(v: LadderView, a: int, b: int, ratio: Ratio, min_volume: Qty)
    requires
        v.wf(),
        v.prices_fit(),
        0 <= a < b < v.all_imbalances(ratio, min_volume).len(),
    ensures
        v.all_imbalances(ratio, min_volume)[a] != v.all_imbalances(ratio, min_volume)[b],
{
    let n = v.rows.len() as int;
    let (low, one) = lemma_place_marked(v, n, a, ratio, min_volume);
    let (high, other) = lemma_place_marked(v, n, b, ratio, min_volume);
    lemma_one_up(v, low, high);
}

/// Whether a run is full from some row up, on some side.
pub open spec fn is_some_full_run(
    v: LadderView,
    run: Seq<Imbalance>,
    ratio: Ratio,
    min_volume: Qty,
) -> bool {
    exists|slot: int, side: Side| #[trigger] v.is_full_run(run, slot, side, ratio, min_volume)
}

/// At a ratio above one, stacked imbalances are exactly the maximal runs: each is
/// of one side, goes up one row at a time from low to high and cannot be extended
/// by another imbalance; every such run that is long enough is there; and no
/// imbalance is in two of them.
pub proof fn law_stacks_are_the_maximal_runs(
    v: LadderView,
    ratio: Ratio,
    min_volume: Qty,
    min_run: int,
)
    requires
        v.wf(),
        v.prices_fit(),
        ratio.wf(),
        ratio.num > ratio.den,
        min_run > 0,
    ensures
        ({
            let stacks = stacks_of(v.all_imbalances(ratio, min_volume), v.tick, min_run);
            &&& forall|k: int|
                0 <= k < stacks.len() ==> (#[trigger] stacks[k]).len() >= min_run
                    && is_some_full_run(v, stacks[k], ratio, min_volume)
            &&& forall|run: Seq<Imbalance>, slot: int, side: Side| #[trigger]
                v.is_full_run(run, slot, side, ratio, min_volume) && run.len() >= min_run
                    ==> stacks.contains(run)
            &&& forall|k: int, l: int, i: int, j: int|
                0 <= k < l < stacks.len() && 0 <= i < stacks[k].len() && 0 <= j < stacks[l].len()
                    ==> #[trigger] stacks[k][i] != #[trigger] stacks[l][j]
        }),
{
    let n = v.rows.len() as int;
    let all = v.all_imbalances(ratio, min_volume);
    let stacks = stacks_of(all, v.tick, min_run);
    let places = lemma_stacks(all, v.tick, min_run);
    assert forall|k: int| 0 <= k < stacks.len() implies (#[trigger] stacks[k]).len() >= min_run
        && is_some_full_run(v, stacks[k], ratio, min_volume) by {
        let from = places[k];
        let to = from + stacks[k].len();
        let (slot, side) = lemma_place_marked(v, n, from, ratio, min_volume);
        lemma_block_is_run(v, from, to, slot, side, ratio, min_volume);
        assert(v.is_full_run(stacks[k], slot, side, ratio, min_volume));
    }
    assert forall|run: Seq<Imbalance>, slot: int, side: Side| #[trigger]
        v.is_full_run(run, slot, side, ratio, min_volume) && run.len()
            >= min_run implies stacks.contains(run) by {
        lemma_run_is_block(v, run, slot, side, ratio, min_volume);
        let from = v.place_of(slot, side, ratio, min_volume);
        let to = from + run.len();
        assert(is_block(all, v.tick, from, to));
        let k = choose|k: int| 0 <= k < places.len() && #[trigger] places[k] == from;
        let end = from + stacks[k].len();
        // Two blocks that start together end together.
        if to < end {
            assert(!starts_at(all, v.tick, to));
        }
        if end < to {
            assert(!starts_at(all, v.tick, end));
        }
        assert(stacks[k] == run);
    }
    assert forall|k: int, l: int, i: int, j: int|
        0 <= k < l < stacks.len() && 0 <= i < stacks[k].len() && 0 <= j
            < stacks[l].len() implies #[trigger] stacks[k][i] != #[trigger] stacks[l][j] by {
        let a = places[k] + i;
        let b = places[l] + j;
        assert(stacks[k][i] == all[a]);
        assert(stacks[l][j] == all[b]);
        lemma_no_duplicate(v, a, b, ratio, min_volume);
    }
}

} // verus!
