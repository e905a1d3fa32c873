//! Session volume profile.
//!
//! A volume profile answers "how much traded at each price"; a time-price
//! profile answers "how long did price spend at each level". They disagree
//! often, and the disagreement is the information: heavy volume in a narrow
//! time band is absorption, thin volume across a wide band is a market that
//! moved through without interest.

use crate::engine::bar::Bar;
use crate::engine::cluster::{ClusterLadder, ClusterRow, ValueArea};
use crate::engine::ladder::LadderSpec;
use crate::indicators::traits::BarIndicator;
use crate::primitives::fixed::{Price, Qty};
use crate::primitives::market::Side;
use crate::primitives::ratio::Ratio;
use crate::primitives::time::Ts;
use std::collections::HashMap;
use vstd::prelude::*;

verus! {

use crate::engine::bar::BarView;
use crate::engine::cluster::{empty_ladder, lemma_added_wf, LadderView};
use crate::primitives::fixed::{in_range, tick_row};

broadcast use vstd::std_specs::hash::group_hash_axioms;

/// Share of volume conventionally enclosed by the value area: seven tenths.
pub open spec fn usual_share() -> Ratio {
    Ratio { num: 7, den: 10 }
}

/// Share of volume conventionally enclosed by the value area: seven tenths.
pub fn default_value_area() -> (r: Ratio)
    ensures
        r == usual_share(),
        r.wf(),
{
    Ratio::new(7, 10)
}

/// In how many bars a level traded, and the last of them.
#[derive(Debug, Clone, Copy, PartialEq, Eq, Structural)]
pub struct Mark {
    /// The number of bars.
    pub bars: u64,
    /// The last bar, counted from one.
    pub last: u64,
}

/// Whether volume traded at a row.
pub open spec fn traded(row: ClusterRow) -> bool {
    row.cluster.bid.0 > 0 || row.cluster.ask.0 > 0
}

/// Whether a bar traded at a tick index.
pub open spec fn trades_at(rows: Seq<ClusterRow>, tick: Price, index: int) -> bool {
    exists|k: int|
        0 <= k < rows.len() && traded(#[trigger] rows[k]) && tick_row(
            rows[k].price.0 as int,
            tick.0 as int,
        ) == index
}

/// The marks once bar `bar` was seen at a level.
pub open spec fn marked(marks: Map<i64, Mark>, index: i64, bar: u64) -> Map<i64, Mark> {
    if marks.contains_key(index) {
        if marks[index].last == bar {
            marks
        } else {
            marks.insert(index, Mark { bars: (marks[index].bars + 1) as u64, last: bar })
        }
    } else {
        marks.insert(index, Mark { bars: 1, last: bar })
    }
}

/// What a profile holds.
#[verifier::ext_equal]
pub struct ProfileView {
    pub ladder: LadderView,
    pub start: Option<Ts>,
    pub end: Option<Ts>,
    pub bars: u64,
    /// For each tick index that traded, in how many bars.
    pub marks: Map<i64, Mark>,
}

/// A profile without bars.
pub open spec fn fresh_profile(tick: Price) -> ProfileView {
    ProfileView {
        ladder: empty_ladder(tick),
        start: None,
        end: None,
        bars: 0,
        marks: Map::<i64, Mark>::empty(),
    }
}

/// A mark can be no larger than the number of bars that led to it.
pub open spec fn marks_ok(marks: Map<i64, Mark>, bars: int) -> bool {
    forall|i: i64| #[trigger]
        marks.contains_key(i) ==> 1 <= marks[i].bars <= marks[i].last <= bars
}

impl ProfileView {
    pub open spec fn wf(self) -> bool {
        &&& self.ladder.wf()
        &&& in_range(self.ladder.total_bid + self.ladder.total_ask)
        &&& marks_ok(self.marks, self.bars as int)
    }

    /// In how many bars a level traded.
    pub open spec fn bars_at(self, index: int) -> int {
        if in_range(index) && self.marks.contains_key(index as i64) {
            self.marks[index as i64].bars as int
        } else {
            0
        }
    }

    /// The ladder once the bid volume of a row is on it.
    pub open spec fn with_bid(self, row: ClusterRow) -> LadderView {
        if row.cluster.bid.0 > 0 {
            self.ladder.added(row.price, row.cluster.bid, Side::Sell)
        } else {
            self.ladder
        }
    }

    /// Whether the volume of a row can be added.
    pub open spec fn can_add_row(self, row: ClusterRow) -> bool {
        &&& row.cluster.bid.0 > 0 ==> self.ladder.can_add(row.price, row.cluster.bid, Side::Sell)
        &&& row.cluster.ask.0 > 0 ==> self.with_bid(row).can_add(
            row.price,
            row.cluster.ask,
            Side::Buy,
        )
    }

    /// The profile once a row of bar `bar` is in it.
    pub open spec fn with_row(self, row: ClusterRow, bar: u64) -> ProfileView {
        ProfileView {
            ladder: if row.cluster.ask.0 > 0 {
                self.with_bid(row).added(row.price, row.cluster.ask, Side::Buy)
            } else {
                self.with_bid(row)
            },
            marks: if traded(row) {
                marked(
                    self.marks,
                    tick_row(row.price.0 as int, self.ladder.tick.0 as int) as i64,
                    bar,
                )
            } else {
                self.marks
            },
            ..self
        }
    }

    /// The profile with the rows of bar `bar`.
    pub open spec fn with_rows(self, rows: Seq<ClusterRow>, bar: u64) -> ProfileView
        decreases rows.len(),
    {
        if rows.len() == 0 {
            self
        } else {
            self.with_rows(rows.drop_last(), bar).with_row(rows.last(), bar)
        }
    }

    /// Whether the rows can be added.
    pub open spec fn can_add_rows(self, rows: Seq<ClusterRow>, bar: u64) -> bool
        decreases rows.len(),
    {
        rows.len() == 0 || {
            &&& self.can_add_rows(rows.drop_last(), bar)
            &&& self.with_rows(rows.drop_last(), bar).can_add_row(rows.last())
        }
    }

    /// Whether a bar can be folded in.
    pub open spec fn can_take(self, bar: BarView) -> bool {
        &&& self.bars < u64::MAX
        &&& bar.ladder.prices_fit()
        &&& self.can_add_rows(bar.ladder.row_list(), (self.bars + 1) as u64)
        &&& in_range(self.taken(bar).ladder.total_bid + self.taken(bar).ladder.total_ask)
    }

    /// The profile after a bar.
    pub open spec fn taken(self, bar: BarView) -> ProfileView {
        let number = (self.bars + 1) as u64;
        ProfileView {
            start: if self.start is None {
                Some(bar.open_ts)
            } else {
                self.start
            },
            end: Some(bar.close_ts),
            bars: number,
            ..self.with_rows(bar.ladder.row_list(), number)
        }
    }

    /// The prices of the first `n` rows that traded in only one bar.
    pub open spec fn singles_below(self, n: int) -> Seq<Price>
        decreases n,
    {
        if n <= 0 {
            Seq::<Price>::empty()
        } else if self.bars_at(self.ladder.base + n - 1) == 1 {
            self.singles_below(n - 1).push(self.ladder.row_price(n - 1))
        } else {
            self.singles_below(n - 1)
        }
    }
}

proof fn lemma_row_keeps(v: ProfileView, row: ClusterRow, bar: u64)
    requires
        v.ladder.wf(),
        marks_ok(v.marks, bar as int),
        v.can_add_row(row),
        bar > 0,
    ensures
        v.with_row(row, bar).ladder.wf(),
        v.with_row(row, bar).ladder.tick == v.ladder.tick,
        v.with_row(row, bar).bars == v.bars,
        v.with_row(row, bar).start == v.start,
        v.with_row(row, bar).end == v.end,
        marks_ok(v.with_row(row, bar).marks, bar as int),
{
    if row.cluster.bid.0 > 0 {
        lemma_added_wf(v.ladder, row.price, row.cluster.bid, Side::Sell);
    }
    if row.cluster.ask.0 > 0 {
        lemma_added_wf(v.with_bid(row), row.price, row.cluster.ask, Side::Buy);
    }
}

pub proof fn lemma_rows_keep(v: ProfileView, rows: Seq<ClusterRow>, bar: u64)
    requires
        v.ladder.wf(),
        marks_ok(v.marks, bar as int),
        v.can_add_rows(rows, bar),
        bar > 0,
    ensures
        v.with_rows(rows, bar).ladder.wf(),
        v.with_rows(rows, bar).ladder.tick == v.ladder.tick,
        v.with_rows(rows, bar).bars == v.bars,
        v.with_rows(rows, bar).start == v.start,
        v.with_rows(rows, bar).end == v.end,
        marks_ok(v.with_rows(rows, bar).marks, bar as int),
    decreases rows.len(),
{
    if rows.len() > 0 {
        lemma_rows_keep(v, rows.drop_last(), bar);
        lemma_row_keeps(v.with_rows(rows.drop_last(), bar), rows.last(), bar);
    }
}

proof fn lemma_marks_of_rows(v: ProfileView, rows: Seq<ClusterRow>, bar: u64, index: int)
    requires
        v.wf(),
        bar == v.bars + 1,
        v.can_add_rows(rows, bar),
    ensures
        ({
            let after = v.with_rows(rows, bar);
            let hit = trades_at(rows, v.ladder.tick, index);
            &&& after.bars_at(index) == v.bars_at(index) + if hit {
                1int
            } else {
                0
            }
            &&& hit ==> after.marks[index as i64].last == bar
            &&& !hit && after.bars_at(index) > 0 ==> after.marks[index as i64].last < bar
        }),
    decreases rows.len(),
{
    if rows.len() == 0 {
    } else {
        let less = rows.drop_last();
        let row = rows.last();
        let at = tick_row(row.price.0 as int, v.ladder.tick.0 as int);
        let before = v.with_rows(less, bar);
        lemma_marks_of_rows(v, less, bar, index);
        lemma_rows_keep(v, less, bar);
        crate::engine::cluster::lemma_row_in_range(row.price, v.ladder.tick);
        assert(forall|k: int| 0 <= k < less.len() ==> #[trigger] less[k] == rows[k]);
        assert(rows[rows.len() - 1] == row);
        if trades_at(less, v.ladder.tick, index) {
            let k = choose|k: int|
                0 <= k < less.len() && traded(#[trigger] less[k]) && tick_row(
                    less[k].price.0 as int,
                    v.ladder.tick.0 as int,
                ) == index;
            assert(traded(rows[k]));
        }
        if trades_at(rows, v.ladder.tick, index) && !(traded(row) && at == index) {
            let k = choose|k: int|
                0 <= k < rows.len() && traded(#[trigger] rows[k]) && tick_row(
                    rows[k].price.0 as int,
                    v.ladder.tick.0 as int,
                ) == index;
            assert(traded(less[k]));
        }
    }
}

/// A bar counts once at every level it traded at, however many of its rows
/// fall on the level, and nowhere else. So a single print is a level that
/// traded in exactly one bar.
pub proof fn law_a_bar_counts_once_per_level(v: ProfileView, bar: BarView, index: int)
    requires
        v.wf(),
        v.can_take(bar),
    ensures
        v.taken(bar).bars_at(index) == v.bars_at(index) + if trades_at(
            bar.ladder.row_list(),
            v.ladder.tick,
            index,
        ) {
            1int
        } else {
            0
        },
{
    lemma_marks_of_rows(v, bar.ladder.row_list(), (v.bars + 1) as u64, index);
}

/// Folding a bar in keeps a profile well formed and its row height.
pub proof fn lemma_taken_wf(v: ProfileView, bar: BarView)
    requires
        v.wf(),
        v.can_take(bar),
    ensures
        v.taken(bar).wf(),
        v.taken(bar).ladder.tick == v.ladder.tick,
{
    lemma_rows_keep(v, bar.ladder.row_list(), (v.bars + 1) as u64);
}

proof fn lemma_refused_rows(v: ProfileView, rows: Seq<ClusterRow>, bar: u64, n: int)
    requires
        0 <= n <= rows.len(),
        !v.can_add_rows(rows.take(n), bar),
    ensures
        !v.can_add_rows(rows, bar),
    decreases rows.len() - n,
{
    if n == rows.len() {
        assert(rows.take(n) =~= rows);
    } else {
        assert(rows.take(n + 1).drop_last() =~= rows.take(n));
        lemma_refused_rows(v, rows, bar, n + 1);
    }
}

/// Volume traded at each price across a session.
///
/// Built on the same [`ClusterLadder`] the engine uses for bars, so POC and
/// value-area computation is shared rather than written twice with subtly
/// different tie-breaking.
#[derive(Debug, Clone)]
pub struct SessionProfile {
    ladder: ClusterLadder,
    session_start: Option<Ts>,
    session_end: Option<Ts>,
    bars: u64,
    marks: HashMap<i64, Mark>,
}

impl View for SessionProfile {
    type V = ProfileView;

    closed spec fn view(&self) -> ProfileView {
        ProfileView {
            ladder: self.ladder@,
            start: self.session_start,
            end: self.session_end,
            bars: self.bars,
            marks: self.marks@,
        }
    }
}

impl SessionProfile {
    /// An empty profile for an instrument's tick size.
    pub fn new(tick_size: Price) -> (r: Self)
        requires
            tick_size.0 > 0,
        ensures
            r@ == fresh_profile(tick_size),
            r@.wf(),
    {
        SessionProfile {
            ladder: ClusterLadder::new(tick_size),
            session_start: None,
            session_end: None,
            bars: 0,
            marks: HashMap::new(),
        }
    }

    /// An empty profile whose rows are as high as those of a ladder.
    pub fn with_spec(spec: LadderSpec) -> (r: Self)
        requires
            spec.wf(),
        ensures
            r@ == fresh_profile(spec.row()),
            r@.wf(),
    {
        SessionProfile::new(spec.row_size())
    }

    /// The accumulated ladder.
    pub fn ladder(&self) -> (r: &ClusterLadder)
        ensures
            r@ == self@.ladder,
    {
        &self.ladder
    }

    /// Total volume in the session.
    pub fn volume(&self) -> (r: Qty)
        requires
            in_range(self@.ladder.total_bid + self@.ladder.total_ask),
        ensures
            r.0 == self@.ladder.total_bid + self@.ladder.total_ask,
    {
        self.ladder.total_volume()
    }

    /// Session delta.
    pub fn delta(&self) -> (r: Qty)
        requires
            in_range(self@.ladder.total_ask - self@.ladder.total_bid),
        ensures
            r.0 == self@.ladder.total_ask - self@.ladder.total_bid,
            r.0 > 0 <==> self@.ladder.total_ask > self@.ladder.total_bid,
    {
        self.ladder.delta()
    }

    /// The most-traded price.
    pub fn poc(&self) -> (r: Option<Price>)
        requires
            self@.wf(),
            self@.ladder.prices_fit(),
        ensures
            r == self@.ladder.poc_price(),
    {
        self.ladder.poc()
    }

    /// The value area enclosing the usual share of volume.
    pub fn value_area(&self) -> (r: Option<ValueArea>)
        requires
            self@.wf(),
            self@.ladder.prices_fit(),
            self@.ladder.value_fits(usual_share()),
        ensures
            r == self@.ladder.value_area_of(usual_share()),
    {
        self.ladder.value_area(default_value_area())
    }

    /// The value area for a custom share of volume.
    pub fn value_area_of(&self, fraction: Ratio) -> (r: Option<ValueArea>)
        requires
            self@.wf(),
            self@.ladder.prices_fit(),
            fraction.wf(),
            self@.ladder.value_fits(fraction),
        ensures
            r == self@.ladder.value_area_of(fraction),
    {
        self.ladder.value_area(fraction)
    }

    /// Every price level, low to high.
    pub fn rows(&self) -> (r: Vec<ClusterRow>)
        requires
            self@.wf(),
            self@.ladder.prices_fit(),
        ensures
            r@ == self@.ladder.row_list(),
    {
        self.ladder.rows()
    }

    /// Timestamps of the first and last bar folded in.
    pub fn span(&self) -> (r: Option<(Ts, Ts)>)
        ensures
            r == match (self@.start, self@.end) {
                (Some(start), Some(end)) => Some((start, end)),
                _ => None,
            },
    {
        match (self.session_start, self.session_end) {
            (Some(start), Some(end)) => Some((start, end)),
            _ => None,
        }
    }

    /// Prices that traded in only one bar.
    ///
    /// Single prints mark levels the market rejected quickly, and they tend to
    /// act as magnets when price returns to them.
    pub fn single_prints(&self) -> (r: Vec<Price>)
        requires
            self@.wf(),
            self@.ladder.prices_fit(),
        ensures
            r@ == self@.singles_below(self@.ladder.rows.len() as int),
    {
        let rows = self.ladder.rows();
        let mut out: Vec<Price> = Vec::new();
        let mut slot: usize = 0;
        while slot < rows.len()
            invariant
                self@.wf(),
                self@.ladder.prices_fit(),
                rows@ == self@.ladder.row_list(),
                slot <= rows@.len(),
                out@ == self@.singles_below(slot as int),
            decreases rows@.len() - slot,
        {
            let price = rows[slot].price;
            proof {
                crate::engine::cluster::lemma_row_price_fits(self@.ladder, slot as int);
                crate::primitives::fixed::law_tick_index_inverts_from_tick_index(
                    self@.ladder.base + slot,
                    self@.ladder.tick.0 as int,
                );
            }
            let index: i64 = price.tick_index(self.ladder.tick_size());
            if let Some(mark) = self.marks.get(&index) {
                if mark.bars == 1 {
                    out.push(price);
                }
            }
            slot += 1;
        }
        out
    }

    /// Note that this bar traded at a price.
    fn mark(&mut self, price: Price, bar: u64)
        requires
            old(self)@.ladder.tick.0 > 0,
            marks_ok(old(self)@.marks, bar as int),
        ensures
            final(self)@ == (ProfileView {
                marks: marked(
                    old(self)@.marks,
                    tick_row(price.0 as int, old(self)@.ladder.tick.0 as int) as i64,
                    bar,
                ),
                ..old(self)@
            }),
    {
        let index: i64 = price.tick_index(self.ladder.tick_size());
        let mark = match self.marks.get(&index) {
            Some(mark) => {
                if mark.last == bar {
                    return ;
                }
                Mark { bars: mark.bars + 1, last: bar }
            },
            None => Mark { bars: 1, last: bar },
        };
        self.marks.insert(index, mark);
    }

    /// Fold in one row of bar `bar`.
    fn add_row(&mut self, row: ClusterRow, bar: u64)
        requires
            old(self)@.ladder.wf(),
            marks_ok(old(self)@.marks, bar as int),
            old(self)@.can_add_row(row),
            bar > 0,
        ensures
            final(self)@ == old(self)@.with_row(row, bar),
    {
        let ghost before = self@;
        proof {
            lemma_row_keeps(before, row, bar);
        }
        if row.cluster.bid.0 > 0 {
            self.ladder.add(row.price, row.cluster.bid, Side::Sell);
        }
        assert(self@ == (ProfileView { ladder: before.with_bid(row), ..before }));
        if row.cluster.ask.0 > 0 {
            self.ladder.add(row.price, row.cluster.ask, Side::Buy);
        }
        if row.cluster.bid.0 > 0 || row.cluster.ask.0 > 0 {
            self.mark(row.price, bar);
        }
        assert(self@ =~= before.with_row(row, bar));
    }
}

/// The ladder with one more row, unless it cannot be added.
fn checked_row(ladder: &mut ClusterLadder, row: ClusterRow, Ghost(v): Ghost<ProfileView>) -> (r:
    bool)
    requires
        old(ladder)@.wf(),
        v.ladder == old(ladder)@,
    ensures
        r == v.can_add_row(row),
        r ==> final(ladder)@.wf() && final(ladder)@ == v.with_row(row, 0).ladder,
{
    if row.cluster.bid.0 > 0 {
        if !ladder.can_add(row.price, row.cluster.bid, Side::Sell) {
            return false;
        }
        ladder.add(row.price, row.cluster.bid, Side::Sell);
    }
    if row.cluster.ask.0 > 0 {
        if !ladder.can_add(row.price, row.cluster.ask, Side::Buy) {
            return false;
        }
        ladder.add(row.price, row.cluster.ask, Side::Buy);
    }
    true
}

impl BarIndicator for SessionProfile {
    type Value = Qty;

    open spec fn valid(&self) -> bool {
        self@.wf()
    }

    open spec fn accepts(&self, bar: BarView) -> bool {
        self@.can_take(bar)
    }

    fn name(&self) -> (r: &str)
        ensures
            r@ == "Volume Profile"@,
    {
        "Volume Profile"
    }

    fn can_update(&self, bar: &Bar) -> (r: bool) {
        if self.bars == u64::MAX || !bar.clusters.has_prices() {
            return false;
        }
        let number: u64 = self.bars + 1;
        let rows = bar.clusters.rows();
        let mut ladder = self.ladder.clone();
        let mut i: usize = 0;
        while i < rows.len()
            invariant
                self@.wf(),
                number == self@.bars + 1,
                rows@ == bar@.ladder.row_list(),
                i <= rows@.len(),
                ladder@ == self@.with_rows(rows@.take(i as int), number).ladder,
                self@.can_add_rows(rows@.take(i as int), number),
                ladder@.wf(),
            decreases rows@.len() - i,
        {
            assert(rows@.take(i + 1).drop_last() =~= rows@.take(i as int));
            let ghost v = self@.with_rows(rows@.take(i as int), number);
            if !checked_row(&mut ladder, rows[i], Ghost(v)) {
                proof {
                    lemma_refused_rows(self@, rows@, number, i + 1);
                }
                return false;
            }
            i += 1;
        }
        assert(rows@.take(i as int) =~= rows@);
        ladder.total_bid().checked_add(ladder.total_ask()).is_some()
    }

    fn update(&mut self, bar: &Bar) -> (r: Qty)
        ensures
            final(self)@ == old(self)@.taken(bar@),
            r.0 == final(self)@.ladder.total_bid + final(self)@.ladder.total_ask,
    {
        let ghost start = self@;
        let number: u64 = self.bars + 1;
        let rows = bar.clusters.rows();
        let mut i: usize = 0;
        while i < rows.len()
            invariant
                start.wf(),
                number == start.bars + 1,
                i <= rows@.len(),
                self@ == start.with_rows(rows@.take(i as int), number),
                start.can_add_rows(rows@, number),
            decreases rows@.len() - i,
        {
            assert(rows@.take(i + 1).drop_last() =~= rows@.take(i as int));
            proof {
                if !start.can_add_rows(rows@.take(i + 1), number) {
                    lemma_refused_rows(start, rows@, number, i + 1);
                }
                lemma_rows_keep(start, rows@.take(i as int), number);
            }
            self.add_row(rows[i], number);
            i += 1;
        }
        assert(rows@.take(i as int) =~= rows@);
        proof {
            lemma_taken_wf(start, bar@);
            lemma_rows_keep(start, rows@, number);
        }
        if self.session_start.is_none() {
            self.session_start = Some(bar.open_ts);
        }
        self.session_end = Some(bar.close_ts);
        self.bars = number;
        assert(self@ =~= start.taken(bar@));
        self.ladder.total_volume()
    }

    fn value(&self) -> (r: Option<Qty>)
        ensures
            r == if self@.bars > 0 {
                Some(Qty((self@.ladder.total_bid + self@.ladder.total_ask) as i64))
            } else {
                None
            },
    {
        if self.bars > 0 {
            Some(self.ladder.total_volume())
        } else {
            None
        }
    }

    fn reset(&mut self)
        ensures
            final(self)@ == fresh_profile(old(self)@.ladder.tick),
    {
        *self = SessionProfile::new(self.ladder.tick_size());
    }
}

} // verus!
