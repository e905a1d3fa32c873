//! Time-price-opportunity profile.
//!
//! Each bracket that trades at a price contributes one TPO to that level,
//! regardless of how much volume changed hands. Distribution shape, not size,
//! is what this measures.

use crate::engine::bar::Bar;
use crate::indicators::traits::BarIndicator;
use crate::primitives::fixed::Price;
use std::collections::{BTreeMap, BTreeSet};
use vstd::prelude::*;

verus! {

use crate::engine::bar::BarView;
use crate::primitives::fixed::{in_range, tick_row};
use vstd::std_specs::cmp::OrdSpec;
use vstd::std_specs::iter::IteratorSpec;

broadcast use vstd::std_specs::btree::group_btree_axioms;

/// What a profile holds.
#[verifier::ext_equal]
pub struct TpoView {
    pub tick: Price,
    pub bracket_nanos: i64,
    /// The bracket in progress.
    pub current: Option<i64>,
    /// Levels touched in the bracket in progress.
    pub levels: Set<i64>,
    /// TPO count of each level.
    pub counts: Map<i64, u32>,
    /// Number of closed brackets.
    pub brackets: u32,
}

/// A profile without bars.
pub open spec fn fresh_tpo(tick: Price, bracket_nanos: i64) -> TpoView {
    TpoView {
        tick,
        bracket_nanos,
        current: None,
        levels: Set::<i64>::empty(),
        counts: Map::<i64, u32>::empty(),
        brackets: 0,
    }
}

/// The counts once each of the levels has one more TPO.
pub open spec fn bumped(counts: Map<i64, u32>, levels: Set<i64>) -> Map<i64, u32> {
    Map::new(
        |k: i64| counts.contains_key(k) || levels.contains(k),
        |k: i64|
            if !levels.contains(k) {
                counts[k]
            } else if counts.contains_key(k) {
                (counts[k] + 1) as u32
            } else {
                1u32
            },
    )
}

/// The levels from `low` to `high`.
pub open spec fn levels_between(low: int, high: int) -> Set<i64> {
    Set::new(|k: i64| low <= k <= high)
}

impl TpoView {
    pub open spec fn wf(self) -> bool {
        &&& self.tick.0 > 0
        &&& self.bracket_nanos > 0
        &&& self.current is None ==> self.levels == Set::<i64>::empty()
        &&& forall|k: i64| #[trigger]
            self.counts.contains_key(k) ==> 1 <= self.counts[k] <= self.brackets
    }

    /// The TPO count of a level.
    pub open spec fn count(self, index: int) -> u32 {
        if in_range(index) && self.counts.contains_key(index as i64) {
            self.counts[index as i64]
        } else {
            0
        }
    }

    /// The bracket that a bar falls into.
    pub open spec fn bracket_of(self, bar: BarView) -> i64 {
        (bar.open_ts.0 as int / self.bracket_nanos as int) as i64
    }

    /// The profile with the bracket in progress counted.
    pub open spec fn closed(self) -> TpoView {
        if self.current is None {
            self
        } else {
            TpoView {
                levels: Set::<i64>::empty(),
                counts: bumped(self.counts, self.levels),
                brackets: (self.brackets + 1) as u32,
                ..self
            }
        }
    }

    /// Whether the bracket in progress can be counted.
    pub open spec fn can_close(self) -> bool {
        self.current is Some ==> self.brackets < u32::MAX
    }

    /// The profile in the bracket of a bar.
    pub open spec fn at_bracket(self, bracket: i64) -> TpoView {
        if self.current == Some(bracket) {
            self
        } else {
            TpoView { current: Some(bracket), ..self.closed() }
        }
    }

    /// The profile after a bar.
    pub open spec fn taken(self, bar: BarView) -> TpoView {
        let here = self.at_bracket(self.bracket_of(bar));
        TpoView {
            levels: here.levels.union(
                levels_between(
                    tick_row(bar.low.0 as int, self.tick.0 as int),
                    tick_row(bar.high.0 as int, self.tick.0 as int),
                ),
            ),
            ..here
        }
    }

    /// Whether a bar can be folded in.
    pub open spec fn can_take(self, bar: BarView) -> bool {
        self.current == Some(self.bracket_of(bar)) || self.can_close()
    }

    /// The profile with its last bracket counted and none in progress.
    pub open spec fn finished(self) -> TpoView {
        TpoView { current: None, ..self.closed() }
    }

    /// Whether the price of every level is representable.
    pub open spec fn prices_fit(self) -> bool {
        forall|k: i64| #[trigger] self.counts.contains_key(k) ==> in_range(k * self.tick.0)
    }

    /// The price of a level.
    pub open spec fn level_price(self, index: int) -> Price {
        Price((index * self.tick.0) as i64)
    }

    /// Whether a row shows the price and the count of a level.
    pub open spec fn is_row(self, row: (Price, u32)) -> bool {
        let index = tick_row(row.0.0 as int, self.tick.0 as int);
        row.0 == self.level_price(index) && row.1 > 0 && row.1 == self.count(index)
    }

    /// Whether these are all levels with a count, from low to high.
    pub open spec fn listed(self, rows: Seq<(Price, u32)>) -> bool {
        &&& rows.len() == self.counts.dom().len()
        &&& forall|i: int, j: int|
            0 <= i < j < rows.len() ==> (#[trigger] rows[i]).0.0 < (#[trigger] rows[j]).0.0
        &&& forall|i: int| 0 <= i < rows.len() ==> self.is_row(#[trigger] rows[i])
        &&& forall|k: i64| #[trigger]
            self.counts.contains_key(k) ==> rows.contains(
                (self.level_price(k as int), self.counts[k]),
            )
    }

    /// Whether no level has more TPOs, and no higher one as many.
    pub open spec fn is_poc(self, index: i64) -> bool {
        &&& self.counts.contains_key(index)
        &&& forall|k: i64| #[trigger]
            self.counts.contains_key(k) ==> self.counts[k] < self.counts[index] || (self.counts[k]
                == self.counts[index] && k <= index)
    }
}

/// Whether these are all entries of a map, in order of their keys.
pub open spec fn lists(entries: Seq<(i64, u32)>, counts: Map<i64, u32>) -> bool {
    &&& entries.len() == counts.dom().len()
    &&& forall|i: int, j: int|
        0 <= i < j < entries.len() ==> (#[trigger] entries[i]).0 < (#[trigger] entries[j]).0
    &&& forall|i: int|
        0 <= i < entries.len() ==> counts.contains_key((#[trigger] entries[i]).0)
            && counts[entries[i].0] == entries[i].1
    &&& forall|k: i64| #[trigger] counts.contains_key(k) ==> entries.contains((k, counts[k]))
}

/// A bracket counts once at every level it touched, however many of its bars
/// touched it, and changes no other level.
pub proof fn law_a_bracket_counts_once_per_level(v: TpoView, index: int)
    requires
        v.wf(),
        v.current is Some,
        v.can_close(),
    ensures
        v.closed().count(index) == v.count(index) + if in_range(index) && v.levels.contains(
            index as i64,
        ) {
            1int
        } else {
            0
        },
        v.closed().brackets == v.brackets + 1,
{
}

/// A bar marks every level from its low to its high and no other, whatever
/// volume traded there.
pub proof fn law_a_bar_marks_its_range(v: TpoView, bar: BarView, index: i64)
    requires
        v.current == Some(v.bracket_of(bar)),
    ensures
        v.taken(bar).levels.contains(index) <==> v.levels.contains(index) || tick_row(
            bar.low.0 as int,
            v.tick.0 as int,
        ) <= index <= tick_row(bar.high.0 as int, v.tick.0 as int),
        v.taken(bar).counts == v.counts,
{
}

proof fn lemma_bumped_step(counts: Map<i64, u32>, levels: Seq<i64>, i: int)
    requires
        0 <= i < levels.len(),
        levels.no_duplicates(),
    ensures
        !levels.take(i).to_set().contains(levels[i]),
        bumped(counts, levels.take(i + 1).to_set()) == bumped(
            counts,
            levels.take(i).to_set(),
        ).insert(
            levels[i],
            if counts.contains_key(levels[i]) {
                (counts[levels[i]] + 1) as u32
            } else {
                1
            },
        ),
{
    assert(levels.take(i + 1) =~= levels.take(i).push(levels[i]));
    levels.take(i).lemma_push_to_set_commute(levels[i]);
    assert(bumped(counts, levels.take(i + 1).to_set()) =~= bumped(
        counts,
        levels.take(i).to_set(),
    ).insert(
        levels[i],
        if counts.contains_key(levels[i]) {
            (counts[levels[i]] + 1) as u32
        } else {
            1
        },
    ));
}

/// A time-price-opportunity profile.
#[derive(Debug, Clone)]
pub struct TpoProfile {
    tick_size: Price,
    bracket_nanos: i64,
    current_bracket: Option<i64>,
    current_levels: BTreeSet<i64>,
    counts: BTreeMap<i64, u32>,
    brackets: u32,
}

impl View for TpoProfile {
    type V = TpoView;

    closed spec fn view(&self) -> TpoView {
        TpoView {
            tick: self.tick_size,
            bracket_nanos: self.bracket_nanos,
            current: self.current_bracket,
            levels: self.current_levels@,
            counts: self.counts@,
            brackets: self.brackets,
        }
    }
}

impl TpoProfile {
    /// A profile with the given bracket length. Thirty minutes is the
    /// convention inherited from the CBOT market profile.
    pub fn new(tick_size: Price, bracket_nanos: i64) -> (r: Self)
        requires
            tick_size.0 > 0,
            bracket_nanos > 0,
        ensures
            r@ == fresh_tpo(tick_size, bracket_nanos),
            r@.wf(),
    {
        TpoProfile {
            tick_size,
            bracket_nanos,
            current_bracket: None,
            current_levels: BTreeSet::new(),
            counts: BTreeMap::new(),
            brackets: 0,
        }
    }

    /// A profile with thirty-minute brackets.
    pub fn half_hourly(tick_size: Price) -> (r: Self)
        requires
            tick_size.0 > 0,
        ensures
            r@ == fresh_tpo(tick_size, 1_800_000_000_000),
            r@.wf(),
    {
        TpoProfile::new(tick_size, 1_800_000_000_000)
    }

    /// Number of completed brackets, plus the one in progress.
    pub fn bracket_count(&self) -> (r: u32)
        requires
            self@.can_close(),
        ensures
            r == self@.brackets + (if self@.current is Some {
                1int
            } else {
                0
            }),
    {
        if self.current_bracket.is_some() {
            self.brackets + 1
        } else {
            self.brackets
        }
    }

    /// TPO count at a price.
    pub fn count_at(&self, price: Price) -> (r: u32)
        requires
            self@.wf(),
        ensures
            r == self@.count(tick_row(price.0 as int, self@.tick.0 as int)),
    {
        let index: i64 = price.tick_index(self.tick_size);
        match self.counts.get(&index) {
            Some(count) => *count,
            None => 0,
        }
    }

    /// Flush the bracket in progress into the counts.
    fn close_bracket(&mut self)
        requires
            old(self)@.wf(),
            old(self)@.can_close(),
        ensures
            final(self)@ == old(self)@.closed(),
            final(self)@.wf(),
    {
        if self.current_bracket.is_none() {
            return ;
        }
        let ghost start = self@;
        let mut counts: BTreeMap<i64, u32> = BTreeMap::new();
        std::mem::swap(&mut counts, &mut self.counts);
        for level in it: self.current_levels.iter()
            invariant
                start.wf(),
                start.brackets < u32::MAX,
                it.seq().no_duplicates(),
                it.seq().unref().to_set() == start.levels,
                it.index() == it.seq().len() ==> it.seq().unref().take(it.index())
                    =~= it.seq().unref(),
                counts@ =~= bumped(start.counts, it.seq().unref().take(it.index()).to_set()),
        {
            proof {
                lemma_bumped_step(start.counts, it.seq().unref(), it.index());
            }
            let next: u32 = match counts.get(level) {
                Some(count) => *count + 1,
                None => 1,
            };
            counts.insert(*level, next);
        }
        assert(self.current_levels@ == start.levels);
        self.counts = counts;
        self.current_levels.clear();
        self.brackets = self.brackets + 1;
        assert(self@ =~= start.closed());
    }

    fn bracket_of(&self, bar: &Bar) -> (r: i64)
        requires
            self@.wf(),
        ensures
            r == self@.bracket_of(bar@),
    {
        let ghost a = bar.open_ts.0 as int;
        let ghost b = self.bracket_nanos as int;
        assert(i64::MIN <= a / b <= i64::MAX) by (nonlinear_arith)
            requires
                i64::MIN <= a <= i64::MAX,
                b > 0,
        ;
        match bar.open_ts.0.checked_div_euclid(self.bracket_nanos) {
            Some(bracket) => bracket,
            None => 0,
        }
    }

    /// Record a bar's price range against its bracket.
    pub fn add_bar(&mut self, bar: &Bar)
        requires
            old(self)@.wf(),
            old(self)@.can_take(bar@),
        ensures
            final(self)@ == old(self)@.taken(bar@),
            final(self)@.wf(),
    {
        let ghost start = self@;
        let bracket: i64 = self.bracket_of(bar);
        if self.current_bracket != Some(bracket) {
            self.close_bracket();
            self.current_bracket = Some(bracket);
        }
        let ghost here = self@;
        assert(here =~= start.at_bracket(bracket));
        let low: i64 = bar.low.tick_index(self.tick_size);
        let high: i64 = bar.high.tick_index(self.tick_size);
        let mut level: i128 = low as i128;
        while level <= high as i128
            invariant
                i64::MIN <= low <= level,
                level <= high as i128 + 1 || level == low,
                self@ == (TpoView {
                    levels: here.levels.union(levels_between(low as int, level - 1)),
                    ..here
                }),
            decreases high + 1 - level,
        {
            self.current_levels.insert(level as i64);
            level += 1;
            assert(self@.levels =~= here.levels.union(levels_between(low as int, level - 1)));
        }
        assert(self@.levels =~= here.levels.union(levels_between(low as int, high as int)));
        assert(self@ =~= start.taken(bar@));
    }

    /// Whether the bracket in progress can be counted.
    pub fn can_finish(&self) -> (r: bool)
        ensures
            r == self@.can_close(),
    {
        self.current_bracket.is_none() || self.brackets < u32::MAX
    }

    /// Close the bracket in progress. Call at session end so the final
    /// bracket is counted.
    pub fn finish(&mut self)
        requires
            old(self)@.wf(),
            old(self)@.can_close(),
        ensures
            final(self)@ == old(self)@.finished(),
            final(self)@.wf(),
    {
        self.close_bracket();
        self.current_bracket = None;
    }

    /// The counts in order of their tick index.
    fn entries(&self) -> (r: Vec<(i64, u32)>)
        ensures
            lists(r@, self@.counts),
    {
        let mut out: Vec<(i64, u32)> = Vec::new();
        let ghost counts = self.counts@;
        let entries = self.counts.iter();
        let ghost all = entries.remaining().unref();
        assert(lists(all, counts)) by {
            let keys = entries.remaining().map_values(|kv: (&i64, &u32)| *kv.0);
            assert forall|i: int, j: int| 0 <= i < j < all.len() implies (#[trigger] all[i]).0 < (
            #[trigger] all[j]).0 by {
                assert(keys[i].cmp_spec(&keys[j]) is Less);
            }
            assert forall|i: int| 0 <= i < all.len() implies counts.contains_key(
                (#[trigger] all[i]).0,
            ) && counts[all[i].0] == all[i].1 by {
                assert(counts.contains_key(*entries.remaining()[i].0));
            }
            assert forall|k: i64| #[trigger] counts.contains_key(k) implies all.contains(
                (k, counts[k]),
            ) by {
                assert(entries.remaining().contains((&k, &counts[k])));
                let i = choose|i: int|
                    0 <= i < entries.remaining().len() && entries.remaining()[i] == (
                        &k,
                        &counts[k],
                    );
                assert(all[i] == (k, counts[k]));
            }
        }
        for entry in it: entries
            invariant
                all == it.seq().unref(),
                out@ == all.take(it.index()),
                it.index() == it.seq().len() ==> all.take(it.index()) =~= all,
        {
            let (index, count) = entry;
            out.push((*index, *count));
        }
        out
    }

    /// Whether the price of every level is representable.
    pub fn has_prices(&self) -> (r: bool)
        requires
            self@.wf(),
        ensures
            r == self@.prices_fit(),
    {
        let entries = self.entries();
        let mut i: usize = 0;
        while i < entries.len()
            invariant
                lists(entries@, self@.counts),
                i <= entries@.len(),
                forall|j: int| 0 <= j < i ==> in_range((#[trigger] entries@[j]).0 * self@.tick.0),
            decreases entries@.len() - i,
        {
            assert(self@.counts.contains_key(entries@[i as int].0));
            if self.tick_size.0.checked_mul(entries[i].0).is_none() {
                assert(!in_range(entries@[i as int].0 * self@.tick.0)) by {
                    vstd::arithmetic::mul::lemma_mul_is_commutative(
                        entries@[i as int].0 as int,
                        self@.tick.0 as int,
                    );
                }
                return false;
            }
            assert(in_range(entries@[i as int].0 * self@.tick.0)) by {
                vstd::arithmetic::mul::lemma_mul_is_commutative(
                    entries@[i as int].0 as int,
                    self@.tick.0 as int,
                );
            }
            i += 1;
        }
        true
    }

    /// Every level with a TPO count, low to high.
    pub fn rows(&self) -> (r: Vec<(Price, u32)>)
        requires
            self@.wf(),
            self@.prices_fit(),
        ensures
            self@.listed(r@),
    {
        let entries = self.entries();
        let mut out: Vec<(Price, u32)> = Vec::new();
        let mut i: usize = 0;
        while i < entries.len()
            invariant
                self@.wf(),
                self@.prices_fit(),
                lists(entries@, self@.counts),
                i <= entries@.len(),
                out@.len() == i,
                forall|j: int|
                    0 <= j < i ==> #[trigger] out@[j] == (
                        self@.level_price(entries@[j].0 as int),
                        entries@[j].1,
                    ),
            decreases entries@.len() - i,
        {
            assert(self@.counts.contains_key(entries@[i as int].0));
            out.push((Price::from_tick_index(entries[i].0, self.tick_size), entries[i].1));
            i += 1;
        }
        proof {
            lemma_listed(self@, entries@, out@);
        }
        out
    }

    /// The level with the most TPOs; of several, the highest.
    pub fn poc(&self) -> (r: Option<Price>)
        requires
            self@.wf(),
            self@.prices_fit(),
        ensures
            match r {
                Some(price) => exists|k: i64| #[trigger]
                    self@.is_poc(k) && price == self@.level_price(k as int),
                None => self@.counts.dom() == Set::<i64>::empty(),
            },
    {
        let entries = self.entries();
        if entries.len() == 0 {
            assert(self@.counts.dom() =~= Set::<i64>::empty());
            return None;
        }
        let mut best: usize = 0;
        let mut i: usize = 1;
        while i < entries.len()
            invariant
                lists(entries@, self@.counts),
                best < i <= entries@.len(),
                forall|j: int| 0 <= j < i ==> (#[trigger] entries@[j]).1 <= entries@[best as int].1,
                forall|j: int|
                    best < j < i ==> (#[trigger] entries@[j]).1 < entries@[best as int].1,
            decreases entries@.len() - i,
        {
            if entries[i].1 >= entries[best].1 {
                best = i;
            }
            i += 1;
        }
        let index: i64 = entries[best].0;
        assert(self@.counts.contains_key(index));
        assert(self@.is_poc(index)) by {
            assert forall|k: i64| #[trigger] self@.counts.contains_key(k) implies self@.counts[k]
                < self@.counts[index] || (self@.counts[k] == self@.counts[index] && k <= index) by {
                assert(entries@.contains((k, self@.counts[k])));
            }
        }
        Some(Price::from_tick_index(index, self.tick_size))
    }
}

proof fn lemma_listed(v: TpoView, entries: Seq<(i64, u32)>, rows: Seq<(Price, u32)>)
    requires
        v.wf(),
        v.prices_fit(),
        lists(entries, v.counts),
        rows.len() == entries.len(),
        forall|j: int|
            0 <= j < rows.len() ==> #[trigger] rows[j] == (
                v.level_price(entries[j].0 as int),
                entries[j].1,
            ),
    ensures
        v.listed(rows),
{
    let t = v.tick.0 as int;
    assert forall|i: int, j: int| 0 <= i < j < rows.len() implies (#[trigger] rows[i]).0.0 < (
    #[trigger] rows[j]).0.0 by {
        let a = entries[i].0 as int;
        let b = entries[j].0 as int;
        assert(v.counts.contains_key(entries[i].0));
        assert(v.counts.contains_key(entries[j].0));
        assert(a * t < b * t) by (nonlinear_arith)
            requires
                a < b,
                t > 0,
        ;
    }
    assert forall|i: int| 0 <= i < rows.len() implies v.is_row(#[trigger] rows[i]) by {
        let k = entries[i].0;
        assert(v.counts.contains_key(k));
        crate::primitives::fixed::law_tick_index_inverts_from_tick_index(k as int, t);
    }
    assert forall|k: i64| #[trigger] v.counts.contains_key(k) implies rows.contains(
        (v.level_price(k as int), v.counts[k]),
    ) by {
        assert(entries.contains((k, v.counts[k])));
        let i = choose|i: int| 0 <= i < entries.len() && entries[i] == (k, v.counts[k]);
        assert(rows[i] == (v.level_price(k as int), v.counts[k]));
    }
}

impl BarIndicator for TpoProfile {
    type Value = u32;

    open spec fn valid(&self) -> bool {
        self@.wf()
    }

    open spec fn accepts(&self, bar: BarView) -> bool {
        self@.can_take(bar)
    }

    fn name(&self) -> (r: &str)
        ensures
            r@ == "TPO Profile"@,
    {
        "TPO Profile"
    }

    fn can_update(&self, bar: &Bar) -> (r: bool) {
        self.current_bracket == Some(self.bracket_of(bar)) || self.can_finish()
    }

    fn update(&mut self, bar: &Bar) -> (r: u32)
        ensures
            final(self)@ == old(self)@.taken(bar@),
            r == final(self)@.brackets,
    {
        self.add_bar(bar);
        self.brackets
    }

    fn value(&self) -> (r: Option<u32>)
        ensures
            r == if self@.current is Some || self@.brackets > 0 {
                Some(self@.brackets)
            } else {
                None
            },
    {
        if self.current_bracket.is_some() || self.brackets > 0 {
            Some(self.brackets)
        } else {
            None
        }
    }

    fn reset(&mut self)
        ensures
            final(self)@ == fresh_tpo(old(self)@.tick, old(self)@.bracket_nanos),
    {
        *self = TpoProfile::new(self.tick_size, self.bracket_nanos);
    }
}

} // verus!
