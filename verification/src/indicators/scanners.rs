//! Scanners: the tools that point at what to look at.
//!
//! A trader cannot watch every print on every instrument. These reduce the
//! stream to the events matching conditions the trader specified, which is the
//! difference between a chart you stare at and a chart that tells you when
//! something happened.

use crate::engine::bar::Bar;
use crate::engine::cluster::{ClusterRow, Imbalance};
use crate::indicators::traits::TradeIndicator;
use crate::primitives::fixed::{Price, Qty};
use crate::primitives::market::{Side, Trade};
use crate::primitives::ratio::Ratio;
use crate::primitives::time::Ts;
use std::collections::VecDeque;
use vstd::prelude::*;

verus! {

use crate::engine::bar::BarView;
use crate::engine::cluster::{runs_view, stacks_of};
use crate::primitives::fixed::{in_range, magnitude_of};

/// A single print large enough to be worth seeing.
#[derive(Debug, Clone, Copy, PartialEq, Eq, Structural)]
pub struct BigTrade {
    /// When it printed.
    pub ts: Ts,
    /// Where it printed.
    pub price: Price,
    /// How large it was.
    pub qty: Qty,
    /// Which side was aggressive.
    pub aggressor: Side,
}

/// The print that a trade made.
pub open spec fn print_of(trade: Trade) -> BigTrade {
    BigTrade { ts: trade.ts, price: trade.price, qty: trade.qty, aggressor: trade.aggressor }
}

/// What a big-trade scanner holds.
#[verifier::ext_equal]
pub struct BigTradesView {
    pub threshold: Qty,
    pub capacity: nat,
    pub recent: Seq<BigTrade>,
    pub seen: u64,
}

/// `items` with `item` behind them, the oldest dropped where there are
/// `capacity` already. Where nothing is to be kept, nothing is added.
pub open spec fn kept<T>(items: Seq<T>, item: T, capacity: nat) -> Seq<T> {
    if capacity == 0 {
        items
    } else if items.len() == capacity {
        items.drop_first().push(item)
    } else {
        items.push(item)
    }
}

impl BigTradesView {
    pub open spec fn wf(self) -> bool {
        &&& self.threshold.0 > 0
        &&& self.capacity > 0
        &&& self.recent.len() <= self.capacity
    }

    /// Whether a trade is flagged.
    pub open spec fn flags(self, trade: Trade) -> bool {
        trade.qty.0 >= self.threshold.0
    }

    /// Whether a trade can be folded in.
    pub open spec fn can_take(self, trade: Trade) -> bool {
        self.flags(trade) ==> self.seen < u64::MAX
    }

    /// The scanner after a trade.
    pub open spec fn taken(self, trade: Trade) -> BigTradesView {
        if self.flags(trade) {
            BigTradesView {
                recent: kept(self.recent, print_of(trade), self.capacity),
                seen: (self.seen + 1) as u64,
                ..self
            }
        } else {
            self
        }
    }

    /// The scanner before its first trade.
    pub open spec fn cleared(self) -> BigTradesView {
        BigTradesView { recent: Seq::<BigTrade>::empty(), seen: 0, ..self }
    }
}

/// The history of flagged prints is bounded, and ends with the newest.
pub proof fn law_flagged_history_is_bounded(v: BigTradesView, trade: Trade)
    requires
        v.wf(),
    ensures
        v.taken(trade).recent.len() <= v.capacity,
        v.flags(trade) ==> v.taken(trade).recent.last() == print_of(trade),
{
}

/// Flags individual prints at or above a size threshold.
///
/// Deliberately trade-level rather than bar-level: a single 400-lot inside a
/// bar that traded 4,000 is invisible in the bar's totals, and it is exactly
/// what the trader wanted to see.
#[derive(Debug, Clone)]
pub struct BigTrades {
    threshold: Qty,
    capacity: usize,
    recent: VecDeque<BigTrade>,
    seen: u64,
}

impl View for BigTrades {
    type V = BigTradesView;

    closed spec fn view(&self) -> BigTradesView {
        BigTradesView {
            threshold: self.threshold,
            capacity: self.capacity as nat,
            recent: self.recent@,
            seen: self.seen,
        }
    }
}

impl BigTrades {
    /// Flag prints of `threshold` or larger, keeping the last `capacity`.
    pub fn new(threshold: Qty, capacity: usize) -> (r: Self)
        requires
            threshold.0 > 0,
            capacity > 0,
        ensures
            r@ == (BigTradesView {
                threshold,
                capacity: capacity as nat,
                recent: Seq::<BigTrade>::empty(),
                seen: 0,
            }),
            r@.wf(),
    {
        BigTrades { threshold, capacity, recent: VecDeque::new(), seen: 0 }
    }

    /// The most recent flagged prints, newest last.
    pub fn recent(&self) -> (r: Vec<BigTrade>)
        ensures
            r@ == self@.recent,
    {
        let mut out: Vec<BigTrade> = Vec::new();
        let mut i: usize = 0;
        while i < self.recent.len()
            invariant
                i <= self.recent@.len(),
                out@ == self.recent@.take(i as int),
            decreases self.recent@.len() - i,
        {
            out.push(self.recent[i]);
            i += 1;
            assert(out@ =~= self.recent@.take(i as int));
        }
        assert(out@ =~= self.recent@);
        out
    }

    /// How many prints have been flagged in total.
    pub fn seen(&self) -> (r: u64)
        ensures
            r == self@.seen,
    {
        self.seen
    }

    /// The size threshold in force.
    pub fn threshold(&self) -> (r: Qty)
        ensures
            r == self@.threshold,
    {
        self.threshold
    }
}

impl TradeIndicator for BigTrades {
    type Value = Option<BigTrade>;

    open spec fn valid(&self) -> bool {
        self@.wf()
    }

    open spec fn accepts(&self, trade: Trade) -> bool {
        self@.can_take(trade)
    }

    fn name(&self) -> (r: &str)
        ensures
            r@ == "Big Trades"@,
    {
        "Big Trades"
    }

    fn can_update(&self, trade: &Trade) -> (r: bool) {
        trade.qty.0 < self.threshold.0 || self.seen < u64::MAX
    }

    fn update(&mut self, trade: &Trade) -> (r: Option<BigTrade>)
        ensures
            final(self)@ == old(self)@.taken(*trade),
            r == if old(self)@.flags(*trade) {
                Some(print_of(*trade))
            } else {
                None
            },
    {
        let ghost before = self@;
        if trade.qty.0 < self.threshold.0 {
            return None;
        }
        let big = BigTrade {
            ts: trade.ts,
            price: trade.price,
            qty: trade.qty,
            aggressor: trade.aggressor,
        };
        if self.recent.len() == self.capacity {
            let _ = self.recent.pop_front();
        }
        self.recent.push_back(big);
        self.seen = self.seen + 1;
        assert(self@ =~= before.taken(*trade));
        Some(big)
    }

    fn value(&self) -> (r: Option<Option<BigTrade>>)
        ensures
            r == Some(
                if self@.recent.len() == 0 {
                    None
                } else {
                    Some(self@.recent.last())
                },
            ),
    {
        if self.recent.len() == 0 {
            Some(None)
        } else {
            Some(Some(self.recent[self.recent.len() - 1]))
        }
    }

    fn reset(&mut self)
        ensures
            final(self)@ == old(self)@.cleared(),
    {
        self.recent.clear();
        self.seen = 0;
    }
}

/// Trades in a rolling window; their rate is `trades` per `window_nanos`.
#[derive(Debug, Clone, Copy, PartialEq, Eq, Structural)]
pub struct TapeSpeed {
    /// Trades inside the window.
    pub trades: usize,
    /// Length of the window.
    pub window_nanos: i64,
}

/// `times` without those at the front that came before `cutoff`.
pub open spec fn aged(times: Seq<Ts>, cutoff: int) -> Seq<Ts>
    decreases times.len(),
{
    if times.len() > 0 && times[0].0 < cutoff {
        aged(times.drop_first(), cutoff)
    } else {
        times
    }
}

/// What a speed-of-tape indicator holds.
#[verifier::ext_equal]
pub struct SpeedView {
    pub window_nanos: i64,
    pub times: Seq<Ts>,
    pub last: Option<TapeSpeed>,
}

impl SpeedView {
    pub open spec fn wf(self) -> bool {
        self.window_nanos > 0
    }

    /// Whether a trade can be folded in.
    pub open spec fn can_take(self, trade: Trade) -> bool {
        in_range(trade.ts.0 - self.window_nanos)
    }

    /// The indicator after a trade.
    pub open spec fn taken(self, trade: Trade) -> SpeedView {
        let times = aged(self.times.push(trade.ts), trade.ts.0 - self.window_nanos);
        SpeedView {
            times,
            last: Some(
                TapeSpeed { trades: times.len() as usize, window_nanos: self.window_nanos },
            ),
            ..self
        }
    }

    /// The indicator before its first trade.
    pub open spec fn cleared(self) -> SpeedView {
        SpeedView { times: Seq::<Ts>::empty(), last: None, ..self }
    }
}

/// Whether timestamps never go back.
pub open spec fn in_order(times: Seq<Ts>) -> bool {
    forall|i: int, j: int|
        0 <= i <= j < times.len() ==> (#[trigger] times[i]).0 <= (#[trigger] times[j]).0
}

/// Where timestamps come in order, the window holds exactly those within its
/// length of the latest.
pub proof fn law_stale_trades_age_out(times: Seq<Ts>, cutoff: int)
    requires
        in_order(times),
    ensures
        aged(times, cutoff) == times.filter(|t: Ts| t.0 >= cutoff),
    decreases times.len(),
{
    let keep = |t: Ts| t.0 >= cutoff;
    reveal_with_fuel(Seq::filter, 2);
    if times.len() > 0 && times[0].0 < cutoff {
        let rest = times.drop_first();
        assert(in_order(rest)) by {
            assert forall|i: int, j: int| 0 <= i <= j < rest.len() implies (#[trigger] rest[i]).0
                <= (#[trigger] rest[j]).0 by {
                assert(rest[i] == times[i + 1]);
                assert(rest[j] == times[j + 1]);
            }
        }
        law_stale_trades_age_out(rest, cutoff);
        assert(times =~= seq![times[0]] + rest);
        Seq::filter_distributes_over_add(seq![times[0]], rest, keep);
        assert(seq![times[0]].drop_last() =~= Seq::<Ts>::empty());
        assert(seq![times[0]].filter(keep) =~= Seq::<Ts>::empty());
        assert(Seq::<Ts>::empty() + rest.filter(keep) =~= rest.filter(keep));
    } else {
        lemma_all_kept(times, cutoff);
    }
}

proof fn lemma_all_kept(times: Seq<Ts>, cutoff: int)
    requires
        in_order(times),
        times.len() > 0 ==> times[0].0 >= cutoff,
    ensures
        times.filter(|t: Ts| t.0 >= cutoff) == times,
    decreases times.len(),
{
    reveal(Seq::filter);
    if times.len() > 0 {
        let less = times.drop_last();
        assert(in_order(less)) by {
            assert forall|i: int, j: int| 0 <= i <= j < less.len() implies (#[trigger] less[i]).0
                <= (#[trigger] less[j]).0 by {
                assert(less[i] == times[i]);
                assert(less[j] == times[j]);
            }
        }
        lemma_all_kept(less, cutoff);
        assert(times[0].0 <= times.last().0);
        assert(less.push(times.last()) =~= times);
    }
}

/// Trades over a rolling window.
///
/// Speed of tape is how a trader senses urgency: the same volume delivered in
/// two seconds instead of thirty means something different.
#[derive(Debug, Clone)]
pub struct SpeedOfTape {
    window_nanos: i64,
    timestamps: VecDeque<Ts>,
    last: Option<TapeSpeed>,
}

impl View for SpeedOfTape {
    type V = SpeedView;

    closed spec fn view(&self) -> SpeedView {
        SpeedView {
            window_nanos: self.window_nanos,
            times: self.timestamps@,
            last: self.last,
        }
    }
}

impl SpeedOfTape {
    /// Measure over a rolling window.
    pub fn new(window_nanos: i64) -> (r: Self)
        requires
            window_nanos > 0,
        ensures
            r@ == (SpeedView { window_nanos, times: Seq::<Ts>::empty(), last: None }),
            r@.wf(),
    {
        SpeedOfTape { window_nanos, timestamps: VecDeque::new(), last: None }
    }

    /// Trades currently inside the window.
    pub fn count(&self) -> (r: usize)
        ensures
            r == self@.times.len(),
    {
        self.timestamps.len()
    }
}

impl TradeIndicator for SpeedOfTape {
    type Value = TapeSpeed;

    open spec fn valid(&self) -> bool {
        self@.wf()
    }

    open spec fn accepts(&self, trade: Trade) -> bool {
        self@.can_take(trade)
    }

    fn name(&self) -> (r: &str)
        ensures
            r@ == "Speed of Tape"@,
    {
        "Speed of Tape"
    }

    fn can_update(&self, trade: &Trade) -> (r: bool) {
        trade.ts.0.checked_sub(self.window_nanos).is_some()
    }

    fn update(&mut self, trade: &Trade) -> (r: TapeSpeed)
        ensures
            final(self)@ == old(self)@.taken(*trade),
            final(self)@.last == Some(r),
    {
        let ghost before = self@;
        self.timestamps.push_back(trade.ts);
        let cutoff: i64 = trade.ts.0 - self.window_nanos;
        let ghost pushed = before.times.push(trade.ts);
        while self.timestamps.len() > 0 && self.timestamps[0].0 < cutoff
            invariant
                self@ == (SpeedView { times: self.timestamps@, ..before }),
                aged(self.timestamps@, cutoff as int) == aged(pushed, cutoff as int),
            decreases self.timestamps@.len(),
        {
            let ghost times = self.timestamps@;
            let _ = self.timestamps.pop_front();
            assert(self.timestamps@ =~= times.drop_first());
        }
        let speed = TapeSpeed { trades: self.timestamps.len(), window_nanos: self.window_nanos };
        self.last = Some(speed);
        assert(self@ =~= before.taken(*trade));
        speed
    }

    fn value(&self) -> (r: Option<TapeSpeed>)
        ensures
            r == self@.last,
    {
        self.last
    }

    fn reset(&mut self)
        ensures
            final(self)@ == old(self)@.cleared(),
    {
        self.timestamps.clear();
        self.last = None;
    }
}

/// Conditions a bar must satisfy to be flagged by [`ClusterSearch`].
#[derive(Debug, Clone, Copy, PartialEq, Eq, Structural)]
pub struct ClusterCriteria {
    /// Minimum total volume in the bar.
    pub min_volume: Option<Qty>,
    /// Minimum volume at any single price level.
    pub min_level_volume: Option<Qty>,
    /// Minimum absolute bar delta.
    pub min_abs_delta: Option<Qty>,
    /// Require a stacked imbalance of at least this many consecutive levels.
    pub min_imbalance_stack: Option<usize>,
    /// Ratio defining an imbalance. Three to one when a stack is required and
    /// nothing else is said.
    pub imbalance_ratio: Option<Ratio>,
    /// Minimum volume for a level to count toward an imbalance.
    pub imbalance_min_volume: Option<Qty>,
}

/// Criteria matching nothing until something is set.
pub open spec fn no_criteria() -> ClusterCriteria {
    ClusterCriteria {
        min_volume: None,
        min_level_volume: None,
        min_abs_delta: None,
        min_imbalance_stack: None,
        imbalance_ratio: None,
        imbalance_min_volume: None,
    }
}

impl Default for ClusterCriteria {
    fn default() -> (r: Self)
        ensures
            r == no_criteria(),
    {
        ClusterCriteria {
            min_volume: None,
            min_level_volume: None,
            min_abs_delta: None,
            min_imbalance_stack: None,
            imbalance_ratio: None,
            imbalance_min_volume: None,
        }
    }
}

impl ClusterCriteria {
    /// A stack has at least one level, and the ratio is above zero.
    pub open spec fn wf(self) -> bool {
        &&& self.min_imbalance_stack matches Some(n) ==> n > 0
        &&& self.imbalance_ratio matches Some(ratio) ==> ratio.wf() && ratio.num > 0
    }

    /// Whether nothing is asked of a bar.
    pub open spec fn asks_nothing(self) -> bool {
        &&& self.min_volume is None
        &&& self.min_level_volume is None
        &&& self.min_abs_delta is None
        &&& self.min_imbalance_stack is None
    }

    /// The ratio in force.
    pub open spec fn ratio(self) -> Ratio {
        match self.imbalance_ratio {
            Some(ratio) => ratio,
            None => Ratio { num: 3, den: 1 },
        }
    }

    /// The volume that a level needs in an imbalance.
    pub open spec fn floor(self) -> Qty {
        match self.imbalance_min_volume {
            Some(qty) => qty,
            None => Qty(0),
        }
    }

    /// Criteria matching nothing until something is set.
    pub fn new() -> (r: Self)
        ensures
            r == no_criteria(),
    {
        ClusterCriteria::default()
    }

    /// Require a minimum bar volume.
    pub fn min_volume(self, qty: Qty) -> (r: Self)
        ensures
            r == (ClusterCriteria { min_volume: Some(qty), ..self }),
    {
        ClusterCriteria { min_volume: Some(qty), ..self }
    }

    /// Require a minimum volume at a single level.
    pub fn min_level_volume(self, qty: Qty) -> (r: Self)
        ensures
            r == (ClusterCriteria { min_level_volume: Some(qty), ..self }),
    {
        ClusterCriteria { min_level_volume: Some(qty), ..self }
    }

    /// Require a minimum absolute delta.
    pub fn min_abs_delta(self, qty: Qty) -> (r: Self)
        ensures
            r == (ClusterCriteria { min_abs_delta: Some(qty), ..self }),
    {
        ClusterCriteria { min_abs_delta: Some(qty), ..self }
    }

    /// Require a stack of `levels` consecutive same-side imbalances.
    pub fn min_imbalance_stack(self, levels: usize) -> (r: Self)
        ensures
            r == (ClusterCriteria { min_imbalance_stack: Some(levels), ..self }),
    {
        ClusterCriteria { min_imbalance_stack: Some(levels), ..self }
    }

    /// Set the ratio that defines an imbalance.
    pub fn imbalance_ratio(self, ratio: Ratio) -> (r: Self)
        ensures
            r == (ClusterCriteria { imbalance_ratio: Some(ratio), ..self }),
    {
        ClusterCriteria { imbalance_ratio: Some(ratio), ..self }
    }

    /// Whether no condition has been set.
    pub fn is_empty(&self) -> (r: bool)
        ensures
            r == self.asks_nothing(),
    {
        self.min_volume.is_none() && self.min_level_volume.is_none()
            && self.min_abs_delta.is_none() && self.min_imbalance_stack.is_none()
    }

    /// Whether a stack has at least one level and the ratio is above zero.
    pub fn is_sound(&self) -> (r: bool)
        ensures
            r == self.wf(),
    {
        let stack = match self.min_imbalance_stack {
            Some(n) => n > 0,
            None => true,
        };
        let ratio = match self.imbalance_ratio {
            Some(ratio) => ratio.den > 0 && ratio.num > 0,
            None => true,
        };
        stack && ratio
    }
}

/// What a bar matched on.
#[derive(Debug, PartialEq)]
pub struct ClusterHit {
    /// When the matching bar opened.
    pub open_ts: Ts,
    /// Total volume in the bar.
    pub volume: Qty,
    /// The bar's delta.
    pub delta: Qty,
    /// Heaviest single level, if it was the reason for the match.
    pub heaviest_level: Option<(Price, Qty)>,
    /// Stacked imbalances found, if a stack was required.
    pub stacks: Vec<Vec<Imbalance>>,
}

/// What a hit holds.
#[verifier::ext_equal]
pub struct HitView {
    pub open_ts: Ts,
    pub volume: Qty,
    pub delta: Qty,
    pub heaviest_level: Option<(Price, Qty)>,
    pub stacks: Seq<Seq<Imbalance>>,
}

impl View for ClusterHit {
    type V = HitView;

    open spec fn view(&self) -> HitView {
        HitView {
            open_ts: self.open_ts,
            volume: self.volume,
            delta: self.delta,
            heaviest_level: self.heaviest_level,
            stacks: runs_view(self.stacks@),
        }
    }
}

impl Clone for ClusterHit {
    fn clone(&self) -> (r: Self)
        ensures
            r@ == self@,
    {
        let mut stacks: Vec<Vec<Imbalance>> = Vec::new();
        let mut i: usize = 0;
        while i < self.stacks.len()
            invariant
                i <= self.stacks@.len(),
                stacks@.len() == i,
                forall|k: int| 0 <= k < i ==> (#[trigger] stacks@[k])@ == self.stacks@[k]@,
            decreases self.stacks@.len() - i,
        {
            let mut run: Vec<Imbalance> = Vec::new();
            let mut j: usize = 0;
            while j < self.stacks[i].len()
                invariant
                    i < self.stacks@.len(),
                    j <= self.stacks@[i as int]@.len(),
                    run@ == self.stacks@[i as int]@.take(j as int),
                decreases self.stacks@[i as int]@.len() - j,
            {
                run.push(self.stacks[i][j]);
                j += 1;
                assert(run@ =~= self.stacks@[i as int]@.take(j as int));
            }
            assert(run@ =~= self.stacks@[i as int]@);
            stacks.push(run);
            i += 1;
        }
        assert(runs_view(stacks@) =~= runs_view(self.stacks@));
        ClusterHit {
            open_ts: self.open_ts,
            volume: self.volume,
            delta: self.delta,
            heaviest_level: self.heaviest_level,
            stacks,
        }
    }
}

/// The contents of a list of hits.
pub open spec fn hits_view(hits: Seq<ClusterHit>) -> Seq<HitView> {
    Seq::new(hits.len(), |i: int| hits[i]@)
}

/// The level with the most volume; of several, the highest.
pub open spec fn heaviest(rows: Seq<ClusterRow>) -> Option<(Price, Qty)>
    decreases rows.len(),
{
    if rows.len() == 0 {
        None
    } else {
        let last = rows.last();
        match heaviest(rows.drop_last()) {
            Some((price, qty)) if qty.0 > last.cluster.size() => Some((price, qty)),
            _ => Some((last.price, Qty(last.cluster.size() as i64))),
        }
    }
}

/// Whether the volume of every row is representable.
pub open spec fn sizes_fit(rows: Seq<ClusterRow>) -> bool {
    forall|i: int| 0 <= i < rows.len() ==> in_range((#[trigger] rows[i]).cluster.size())
}

impl ClusterCriteria {
    /// Whether the volume and the delta of a bar are large enough.
    pub open spec fn totals_pass(self, bar: BarView) -> bool {
        &&& self.min_volume matches Some(min) ==> bar.volume.0 >= min.0
        &&& self.min_abs_delta matches Some(min) ==> magnitude_of(bar.net()) >= min.0
    }

    /// Whether one level of a bar is heavy enough.
    pub open spec fn level_passes(self, bar: BarView) -> bool {
        self.min_level_volume matches Some(min) ==> {
            heaviest(bar.ladder.row_list()) matches Some((_, total)) && total.0 >= min.0
        }
    }

    /// The stacks that are looked for in a bar.
    pub open spec fn stacks(self, bar: BarView) -> Seq<Seq<Imbalance>> {
        match self.min_imbalance_stack {
            Some(min_run) => stacks_of(
                bar.ladder.all_imbalances(self.ratio(), self.floor()),
                bar.ladder.tick,
                min_run as int,
            ),
            None => Seq::<Seq<Imbalance>>::empty(),
        }
    }

    /// Whether a bar meets every condition, and there is one.
    pub open spec fn matches(self, bar: BarView) -> bool {
        &&& !self.asks_nothing()
        &&& self.totals_pass(bar)
        &&& self.level_passes(bar)
        &&& self.min_imbalance_stack is Some ==> self.stacks(bar).len() > 0
    }

    /// What is reported of a bar that matches.
    pub open spec fn hit(self, bar: BarView) -> HitView {
        HitView {
            open_ts: bar.open_ts,
            volume: bar.volume,
            delta: Qty(bar.net() as i64),
            heaviest_level: if self.min_level_volume is Some {
                heaviest(bar.ladder.row_list())
            } else {
                None
            },
            stacks: self.stacks(bar),
        }
    }

    /// Whether a bar can be tested without leaving 64 bits.
    pub open spec fn can_test(self, bar: BarView) -> bool {
        !self.asks_nothing() && self.totals_pass(bar) ==> {
            &&& bar.ladder.prices_fit()
            &&& sizes_fit(bar.ladder.row_list())
            &&& in_range(bar.net())
        }
    }
}

/// Empty criteria match nothing.
pub proof fn law_empty_criteria_match_nothing(criteria: ClusterCriteria, bar: BarView)
    requires
        criteria.asks_nothing(),
    ensures
        !criteria.matches(bar),
{
}

/// No level of a bar has more volume than the heaviest one.
pub proof fn law_heaviest_level_is_maximal(rows: Seq<ClusterRow>, i: int)
    requires
        sizes_fit(rows),
        0 <= i < rows.len(),
    ensures
        heaviest(rows) matches Some((_, total)) && total.0 >= rows[i].cluster.size(),
    decreases rows.len(),
{
    let less = rows.drop_last();
    assert(in_range(rows[rows.len() - 1].cluster.size()));
    assert(sizes_fit(less)) by {
        assert forall|k: int| 0 <= k < less.len() implies in_range(
            (#[trigger] less[k]).cluster.size(),
        ) by {
            assert(less[k] == rows[k]);
        }
    }
    if i < rows.len() - 1 {
        law_heaviest_level_is_maximal(less, i);
    }
}

/// What a scanner holds.
#[verifier::ext_equal]
pub struct SearchView {
    pub criteria: ClusterCriteria,
    pub hits: Seq<HitView>,
    pub scanned: u64,
}

/// A scanner that has seen no bar.
pub open spec fn fresh_search(criteria: ClusterCriteria) -> SearchView {
    SearchView { criteria, hits: Seq::<HitView>::empty(), scanned: 0 }
}

impl SearchView {
    pub open spec fn wf(self) -> bool {
        self.criteria.wf()
    }

    /// Whether a bar can be tested.
    pub open spec fn can_take(self, bar: BarView) -> bool {
        self.scanned < u64::MAX && self.criteria.can_test(bar)
    }

    /// The scanner after a bar.
    pub open spec fn taken(self, bar: BarView) -> SearchView {
        SearchView {
            hits: if self.criteria.matches(bar) {
                self.hits.push(self.criteria.hit(bar))
            } else {
                self.hits
            },
            scanned: (self.scanned + 1) as u64,
            ..self
        }
    }
}

/// Scans completed bars for cluster conditions.
///
/// Where [`BigTrades`] finds one large print, this finds structure: a level
/// that absorbed heavy volume, or a run of imbalances showing one side kept
/// paying up and kept getting filled.
#[derive(Debug, Clone)]
pub struct ClusterSearch {
    criteria: ClusterCriteria,
    hits: Vec<ClusterHit>,
    scanned: u64,
}

impl View for ClusterSearch {
    type V = SearchView;

    closed spec fn view(&self) -> SearchView {
        SearchView {
            criteria: self.criteria,
            hits: hits_view(self.hits@),
            scanned: self.scanned,
        }
    }
}

fn heaviest_of(rows: &Vec<ClusterRow>) -> (r: Option<(Price, Qty)>)
    requires
        sizes_fit(rows@),
    ensures
        r == heaviest(rows@),
{
    let mut best: Option<(Price, Qty)> = None;
    let mut i: usize = 0;
    while i < rows.len()
        invariant
            sizes_fit(rows@),
            i <= rows@.len(),
            best == heaviest(rows@.take(i as int)),
        decreases rows@.len() - i,
    {
        assert(rows@.take(i + 1).drop_last() =~= rows@.take(i as int));
        let total = rows[i].cluster.total();
        best = match best {
            Some((price, qty)) if qty.0 > total.0 => Some((price, qty)),
            _ => Some((rows[i].price, total)),
        };
        i += 1;
    }
    assert(rows@.take(i as int) =~= rows@);
    best
}

impl ClusterSearch {
    /// A scanner for the given criteria.
    pub fn new(criteria: ClusterCriteria) -> (r: Self)
        ensures
            r@ == fresh_search(criteria),
    {
        let r = ClusterSearch { criteria, hits: Vec::new(), scanned: 0 };
        assert(r@ =~= fresh_search(criteria));
        r
    }

    fn totals_pass(&self, bar: &Bar) -> (r: bool)
        ensures
            r == self@.criteria.totals_pass(bar@),
    {
        if let Some(min) = self.criteria.min_volume {
            if bar.volume.0 < min.0 {
                return false;
            }
        }
        if let Some(min) = self.criteria.min_abs_delta {
            let net: i128 = bar.clusters.total_ask().0 as i128 - bar.clusters.total_bid().0 as i128;
            let size: i128 = if net < 0 {
                -net
            } else {
                net
            };
            if size < min.0 as i128 {
                return false;
            }
        }
        true
    }

    /// Whether [`ClusterSearch::scan`] can test this bar.
    pub fn can_scan(&self, bar: &Bar) -> (r: bool)
        requires
            bar@.wf(),
        ensures
            r == self@.can_take(bar@),
    {
        if self.scanned == u64::MAX {
            return false;
        }
        if self.criteria.is_empty() || !self.totals_pass(bar) {
            return true;
        }
        if !bar.clusters.has_prices() || bar.clusters.total_ask().checked_sub(
            bar.clusters.total_bid(),
        ).is_none() {
            return false;
        }
        let rows = bar.clusters.rows();
        let mut i: usize = 0;
        while i < rows.len()
            invariant
                rows@ == bar@.ladder.row_list(),
                i <= rows@.len(),
                forall|k: int| 0 <= k < i ==> in_range((#[trigger] rows@[k]).cluster.size()),
            ensures
                rows@ == bar@.ladder.row_list(),
                i <= rows@.len(),
                forall|k: int| 0 <= k < i ==> in_range((#[trigger] rows@[k]).cluster.size()),
                i < rows@.len() ==> !in_range(rows@[i as int].cluster.size()),
            decreases rows@.len() - i,
        {
            if rows[i].cluster.bid.checked_add(rows[i].cluster.ask).is_none() {
                break ;
            }
            i += 1;
        }
        i == rows.len()
    }

    /// Test one bar, recording and returning a hit if it matches.
    ///
    /// Empty criteria match nothing: a scanner that fires on every bar is
    /// worse than no scanner, because the trader stops looking at it.
    pub fn scan(&mut self, bar: &Bar) -> (r: Option<ClusterHit>)
        requires
            old(self)@.wf(),
            bar@.wf(),
            old(self)@.can_take(bar@),
        ensures
            final(self)@ == old(self)@.taken(bar@),
            match r {
                Some(hit) => old(self)@.criteria.matches(bar@) && hit@ == old(self)@.criteria.hit(
                    bar@,
                ),
                None => !old(self)@.criteria.matches(bar@),
            },
    {
        let ghost before = self@;
        self.scanned = self.scanned + 1;
        if self.criteria.is_empty() || !self.totals_pass(bar) {
            return None;
        }
        let heaviest = heaviest_of(&bar.clusters.rows());
        if let Some(min) = self.criteria.min_level_volume {
            match heaviest {
                Some((_, total)) => {
                    if total.0 < min.0 {
                        return None;
                    }
                },
                None => {
                    return None;
                },
            }
        }
        let mut stacks: Vec<Vec<Imbalance>> = Vec::new();
        assert(runs_view(stacks@) =~= Seq::<Seq<Imbalance>>::empty());
        if let Some(min_run) = self.criteria.min_imbalance_stack {
            let ratio = match self.criteria.imbalance_ratio {
                Some(ratio) => ratio,
                None => Ratio { num: 3, den: 1 },
            };
            let min_volume = match self.criteria.imbalance_min_volume {
                Some(qty) => qty,
                None => Qty(0),
            };
            stacks = bar.clusters.stacked_imbalances(ratio, min_volume, min_run);
            if stacks.len() == 0 {
                return None;
            }
        }
        let hit = ClusterHit {
            open_ts: bar.open_ts,
            volume: bar.volume,
            delta: bar.delta(),
            heaviest_level: if self.criteria.min_level_volume.is_some() {
                heaviest
            } else {
                None
            },
            stacks,
        };
        let ghost hits = self.hits@;
        self.hits.push(hit.clone());
        assert(hits_view(self.hits@) =~= hits_view(hits).push(hit@));
        Some(hit)
    }

    /// Every hit so far.
    pub fn hits(&self) -> (r: &[ClusterHit])
        ensures
            hits_view(r@) == self@.hits,
    {
        self.hits.as_slice()
    }

    /// How many bars have been tested.
    pub fn scanned(&self) -> (r: u64)
        ensures
            r == self@.scanned,
    {
        self.scanned
    }

    /// Clear recorded hits and counters.
    pub fn reset(&mut self)
        ensures
            final(self)@ == fresh_search(old(self)@.criteria),
    {
        self.hits.clear();
        self.scanned = 0;
        assert(hits_view(self.hits@) =~= Seq::<HitView>::empty());
    }
}

} // verus!
