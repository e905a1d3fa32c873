//! Classical price indicators.
//!
//! These are here for context rather than as the platform's selling point: an
//! order-flow read is stronger when you can see it happening at a level a
//! moving average or an ATR band already made interesting.
//!
//! Every one of them tracks warm-up honestly. A 20-period average that has
//! seen three bars is not a 20-period average, and platforms that plot it
//! anyway produce a curve that is wrong precisely where a trader is most
//! likely to be reading history.
//!
//! The simple average is computed here. The exponential ones are smoothed in
//! floating point by the caller: what is decided here is what each bar feeds
//! into the smoothing, and when it seeds, goes on or is still warming up.

use crate::engine::bar::Bar;
use crate::indicators::traits::BarIndicator;
use crate::primitives::fixed::{quotient, Price};
use crate::text::push_decimal;
use std::collections::VecDeque;
use vstd::prelude::*;

verus! {

use crate::engine::bar::BarView;
use crate::primitives::fixed::{in_range, magnitude_of, truncated_div};
use crate::text::decimal;

/// The name of an indicator with a period.
pub open spec fn period_name(kind: Seq<char>, period: nat) -> Seq<char> {
    kind + seq!['('] + decimal(period) + seq![')']
}

fn name_of(kind: &str, period: usize) -> (r: String)
    ensures
        r@ == period_name(kind@, period as nat),
{
    let mut name = kind.to_string();
    name.push('(');
    push_decimal(&mut name, period as u128);
    name.push(')');
    assert(name@ =~= period_name(kind@, period as nat));
    name
}

/// The sum of a list.
pub open spec fn sum_of(values: Seq<i64>) -> int
    decreases values.len(),
{
    if values.len() == 0 {
        0
    } else {
        sum_of(values.drop_last()) + values.last()
    }
}

proof fn lemma_sum_bound(values: Seq<i64>)
    ensures
        -0x8000_0000_0000_0000 * values.len() <= sum_of(values) <= 0x7fff_ffff_ffff_ffff
            * values.len(),
    decreases values.len(),
{
    if values.len() > 0 {
        lemma_sum_bound(values.drop_last());
    }
}

proof fn lemma_sum_first(values: Seq<i64>)
    requires
        values.len() > 0,
    ensures
        sum_of(values) == values[0] + sum_of(values.drop_first()),
    decreases values.len(),
{
    if values.len() > 1 {
        lemma_sum_first(values.drop_last());
        assert(values.drop_last().drop_first() =~= values.drop_first().drop_last());
    } else {
        assert(values.drop_last() =~= Seq::<i64>::empty());
        assert(values.drop_first() =~= Seq::<i64>::empty());
    }
}

/// What a simple moving average holds: the last closes, at most a period.
#[verifier::ext_equal]
pub struct SmaView {
    pub period: nat,
    pub window: Seq<i64>,
}

impl SmaView {
    pub open spec fn wf(self) -> bool {
        self.period > 0 && self.window.len() <= self.period
    }

    /// The average, once the window is full.
    pub open spec fn average(self) -> Option<Price> {
        if self.window.len() == self.period {
            Some(Price(truncated_div(sum_of(self.window), self.period as int) as i64))
        } else {
            None
        }
    }

    /// The window after a bar.
    pub open spec fn taken(self, bar: BarView) -> SmaView {
        let window = self.window.push(bar.close.0);
        SmaView {
            window: if window.len() > self.period {
                window.drop_first()
            } else {
                window
            },
            ..self
        }
    }
}

/// An average lies between the smallest and the largest of its closes.
pub proof fn law_average_lies_within_the_closes(v: SmaView, low: i64, high: i64)
    requires
        v.wf(),
        v.window.len() == v.period,
        forall|i: int| 0 <= i < v.window.len() ==> low <= #[trigger] v.window[i] <= high,
    ensures
        v.average() matches Some(price) && low <= price.0 <= high,
{
    lemma_sum_between(v.window, low as int, high as int);
    lemma_mean_between(sum_of(v.window), v.period as int, low as int, high as int);
}

pub proof fn lemma_sum_between(values: Seq<i64>, low: int, high: int)
    requires
        forall|i: int| 0 <= i < values.len() ==> low <= #[trigger] values[i] <= high,
    ensures
        low * values.len() <= sum_of(values) <= high * values.len(),
    decreases values.len(),
{
    if values.len() > 0 {
        let less = values.drop_last();
        assert forall|i: int| 0 <= i < less.len() implies low <= #[trigger] less[i] <= high by {
            assert(less[i] == values[i]);
        }
        lemma_sum_between(less, low, high);
        assert(low <= values[values.len() - 1] <= high);
        let n = values.len() as int;
        assert(low * n == low * (n - 1) + low) by (nonlinear_arith);
        assert(high * n == high * (n - 1) + high) by (nonlinear_arith);
    }
}

pub proof fn lemma_mean_between(sum: int, n: int, low: int, high: int)
    requires
        n > 0,
        low * n <= sum <= high * n,
    ensures
        low <= truncated_div(sum, n) <= high,
{
    assert(magnitude_of(n) == n);
    if sum >= 0 {
        assert(low <= sum / n <= high) by (nonlinear_arith)
            requires
                n > 0,
                low * n <= sum <= high * n,
        ;
    } else {
        assert(low <= -((-sum) / n) <= high) by (nonlinear_arith)
            requires
                n > 0,
                low * n <= sum <= high * n,
        ;
    }
}

/// Simple moving average of closing prices.
#[derive(Debug, Clone)]
pub struct Sma {
    period: usize,
    window: VecDeque<i64>,
    sum: i128,
    name: String,
}

impl View for Sma {
    type V = SmaView;

    closed spec fn view(&self) -> SmaView {
        SmaView { period: self.period as nat, window: self.window@ }
    }
}

impl Sma {
    pub closed spec fn consistent(&self) -> bool {
        &&& self.sum == sum_of(self.window@)
        &&& self.name@ == period_name("SMA"@, self.period as nat)
    }

    /// An average over `period` bars.
    pub fn new(period: usize) -> (r: Self)
        requires
            period > 0,
        ensures
            r@ == (SmaView { period: period as nat, window: Seq::<i64>::empty() }),
            r.valid(),
    {
        Sma { period, window: VecDeque::new(), sum: 0, name: name_of("SMA", period) }
    }

    fn current(&self) -> (r: Option<Price>)
        requires
            self.valid(),
        ensures
            r == self@.average(),
    {
        if self.window.len() == self.period {
            proof {
                lemma_sum_bound(self.window@);
                lemma_mean_between(
                    self.sum as int,
                    self.period as int,
                    i64::MIN as int,
                    i64::MAX as int,
                );
            }
            Some(Price(quotient(self.sum, self.period as i128) as i64))
        } else {
            None
        }
    }
}

impl BarIndicator for Sma {
    type Value = Option<Price>;

    open spec fn valid(&self) -> bool {
        self@.wf() && self.consistent()
    }

    open spec fn accepts(&self, bar: BarView) -> bool {
        true
    }

    fn name(&self) -> (r: &str)
        ensures
            self.valid() ==> r@ == period_name("SMA"@, self@.period),
    {
        self.name.as_str()
    }

    fn can_update(&self, bar: &Bar) -> (r: bool) {
        true
    }

    fn update(&mut self, bar: &Bar) -> (r: Option<Price>)
        ensures
            final(self)@ == old(self)@.taken(bar@),
            r == final(self)@.average(),
    {
        let ghost before = self@;
        self.window.push_back(bar.close.0);
        let ghost pushed = self.window@;
        proof {
            assert(pushed.drop_last() =~= before.window);
            lemma_sum_bound(before.window);
            lemma_sum_bound(pushed);
        }
        self.sum = self.sum + bar.close.0 as i128;
        if self.window.len() > self.period {
            proof {
                lemma_sum_first(pushed);
                lemma_sum_bound(pushed.drop_first());
            }
            if let Some(oldest) = self.window.pop_front() {
                assert(self.window@ =~= pushed.drop_first());
                self.sum = self.sum - oldest as i128;
            }
        }
        assert(self@ =~= before.taken(bar@));
        self.current()
    }

    fn value(&self) -> (r: Option<Option<Price>>)
        ensures
            r == Some(self@.average()),
    {
        Some(self.current())
    }

    fn reset(&mut self)
        ensures
            final(self)@ == (SmaView { window: Seq::<i64>::empty(), ..old(self)@ }),
    {
        self.window.clear();
        self.sum = 0;
    }

    fn is_warm(&self) -> (r: bool)
        ensures
            r == (self@.window.len() == self@.period),
    {
        self.window.len() == self.period
    }
}

/// What a close does to an exponential average.
#[derive(Debug, Clone, Copy, PartialEq, Eq, Structural)]
pub enum EmaStep {
    /// It is the first value of the average.
    Seed(Price),
    /// The average moves toward it.
    Smooth(Price),
}

/// The schedule of an exponential moving average of closing prices.
#[derive(Debug, Clone)]
pub struct Ema {
    period: usize,
    seen: usize,
    name: String,
}

impl Ema {
    /// The number of bars in a period.
    pub closed spec fn length(&self) -> nat {
        self.period as nat
    }

    /// The number of bars seen.
    pub closed spec fn count(&self) -> nat {
        self.seen as nat
    }

    /// An average with the standard `2 / (period + 1)` smoothing.
    pub fn new(period: usize) -> (r: Self)
        requires
            period > 0,
        ensures
            r.length() == period,
            r.count() == 0,
            r.label() == period_name("EMA"@, period as nat),
    {
        Ema { period, seen: 0, name: name_of("EMA", period) }
    }

    /// The name of the average.
    pub closed spec fn label(&self) -> Seq<char> {
        self.name@
    }

    /// Human-readable name.
    pub fn name(&self) -> (r: &str)
        ensures
            r@ == self.label(),
    {
        self.name.as_str()
    }

    /// The number of bars in a period.
    pub fn period(&self) -> (r: usize)
        ensures
            r == self.length(),
    {
        self.period
    }

    /// Whether another bar can be counted.
    pub fn can_update(&self) -> (r: bool)
        ensures
            r == (self.count() < usize::MAX),
    {
        self.seen < usize::MAX
    }

    /// Take a bar: the first one seeds the average, every other moves it.
    pub fn update(&mut self, bar: &Bar) -> (r: EmaStep)
        requires
            old(self).count() < usize::MAX,
        ensures
            final(self).length() == old(self).length(),
            final(self).label() == old(self).label(),
            final(self).count() == old(self).count() + 1,
            r == if old(self).count() == 0 {
                EmaStep::Seed(bar.close)
            } else {
                EmaStep::Smooth(bar.close)
            },
    {
        self.seen = self.seen + 1;
        if self.seen == 1 {
            EmaStep::Seed(bar.close)
        } else {
            EmaStep::Smooth(bar.close)
        }
    }

    /// Whether a period of bars was seen.
    pub fn is_warm(&self) -> (r: bool)
        ensures
            r == (self.count() >= self.length()),
    {
        self.seen >= self.period
    }

    /// Start over.
    pub fn reset(&mut self)
        ensures
            final(self).length() == old(self).length(),
            final(self).label() == old(self).label(),
            final(self).count() == 0,
    {
        self.seen = 0;
    }
}

/// The larger of two integers.
pub open spec fn larger(a: int, b: int) -> int {
    if a >= b {
        a
    } else {
        b
    }
}

/// True range: the largest of a bar's range and its gaps from the previous
/// close. The gap terms are what distinguish it from range.
pub open spec fn true_range_of(previous: Option<Price>, bar: BarView) -> int {
    let range = bar.high.0 - bar.low.0;
    match previous {
        None => range,
        Some(close) => larger(
            larger(range, magnitude_of(bar.high.0 - close.0) as int),
            magnitude_of(bar.low.0 - close.0) as int,
        ),
    }
}

/// A true range is never below the range of the bar, nor below the gap from the
/// previous close to either end.
pub proof fn law_true_range_takes_in_gaps(previous: Price, bar: BarView)
    ensures
        true_range_of(Some(previous), bar) >= bar.high.0 - bar.low.0,
        true_range_of(Some(previous), bar) >= bar.high.0 - previous.0,
        true_range_of(Some(previous), bar) >= previous.0 - bar.low.0,
{
}

/// What a true range does to an average true range.
#[derive(Debug, Clone, Copy, PartialEq, Eq, Structural)]
pub enum AtrStep {
    /// It was collected; the average is still warming up.
    Collect,
    /// It was the last of the warm-up, whose ranges have this sum.
    Seed {
        /// The sum of a period of true ranges.
        sum: i64,
    },
    /// It is smoothed into the average.
    Smooth,
}

/// What an average true range holds.
#[verifier::ext_equal]
pub struct AtrView {
    pub period: nat,
    pub previous: Option<Price>,
    /// True ranges collected during warm-up.
    pub warmup: Seq<i64>,
    pub seeded: bool,
}

impl AtrView {
    pub open spec fn wf(self) -> bool {
        &&& self.period > 0
        &&& self.seeded <==> self.warmup.len() >= self.period
    }

    /// Whether a true range can be recorded.
    pub open spec fn can_record(self, range: i64) -> bool {
        !self.seeded && self.warmup.len() + 1 == self.period ==> in_range(
            sum_of(self.warmup.push(range)),
        )
    }

    /// The schedule after a bar.
    pub open spec fn recorded(self, close: Price, range: i64) -> AtrView {
        if self.seeded {
            AtrView { previous: Some(close), ..self }
        } else {
            AtrView {
                previous: Some(close),
                warmup: self.warmup.push(range),
                seeded: self.warmup.len() + 1 == self.period,
                ..self
            }
        }
    }

    /// What a true range does.
    pub open spec fn step(self, range: i64) -> AtrStep {
        if self.seeded {
            AtrStep::Smooth
        } else if self.warmup.len() + 1 == self.period {
            AtrStep::Seed { sum: sum_of(self.warmup.push(range)) as i64 }
        } else {
            AtrStep::Collect
        }
    }
}

/// The schedule of an average true range, smoothed with Wilder's method.
#[derive(Debug, Clone)]
pub struct Atr {
    period: usize,
    previous_close: Option<Price>,
    warmup: Vec<i64>,
    seeded: bool,
    name: String,
}

impl View for Atr {
    type V = AtrView;

    closed spec fn view(&self) -> AtrView {
        AtrView {
            period: self.period as nat,
            previous: self.previous_close,
            warmup: self.warmup@,
            seeded: self.seeded,
        }
    }
}

impl Atr {
    /// The name of the average.
    pub closed spec fn label(&self) -> Seq<char> {
        self.name@
    }

    /// An ATR over `period` bars.
    pub fn new(period: usize) -> (r: Self)
        requires
            period > 0,
        ensures
            r@ == (AtrView {
                period: period as nat,
                previous: None,
                warmup: Seq::<i64>::empty(),
                seeded: false,
            }),
            r@.wf(),
            r.label() == period_name("ATR"@, period as nat),
    {
        Atr {
            period,
            previous_close: None,
            warmup: Vec::new(),
            seeded: false,
            name: name_of("ATR", period),
        }
    }

    /// Human-readable name.
    pub fn name(&self) -> (r: &str)
        ensures
            r@ == self.label(),
    {
        self.name.as_str()
    }

    /// The number of bars in a period.
    pub fn period(&self) -> (r: usize)
        ensures
            r == self@.period,
    {
        self.period
    }

    /// The true range of a bar, `None` where it is not representable.
    pub fn true_range(&self, bar: &Bar) -> (r: Option<i64>)
        ensures
            r == if in_range(true_range_of(self@.previous, bar@)) {
                Some(true_range_of(self@.previous, bar@) as i64)
            } else {
                None
            },
    {
        let high: i128 = bar.high.0 as i128;
        let low: i128 = bar.low.0 as i128;
        let mut range: i128 = high - low;
        if let Some(previous) = self.previous_close {
            let close: i128 = previous.0 as i128;
            let up: i128 = if high >= close {
                high - close
            } else {
                close - high
            };
            let down: i128 = if low >= close {
                low - close
            } else {
                close - low
            };
            if up > range {
                range = up;
            }
            if down > range {
                range = down;
            }
        }
        if i64::MIN as i128 <= range && range <= i64::MAX as i128 {
            Some(range as i64)
        } else {
            None
        }
    }

    /// The sum of the warm-up and one more range, `None` where it leaves 64
    /// bits.
    fn seed_sum(&self, range: i64) -> (r: Option<i64>)
        ensures
            r == if in_range(sum_of(self@.warmup.push(range))) {
                Some(sum_of(self@.warmup.push(range)) as i64)
            } else {
                None
            },
    {
        let mut sum: i128 = 0;
        let mut i: usize = 0;
        while i < self.warmup.len()
            invariant
                i <= self.warmup@.len(),
                sum == sum_of(self.warmup@.take(i as int)),
                -0x8000_0000_0000_0000 * i <= sum <= 0x7fff_ffff_ffff_ffff * i,
            decreases self.warmup@.len() - i,
        {
            assert(self.warmup@.take(i + 1).drop_last() =~= self.warmup@.take(i as int));
            sum = sum + self.warmup[i] as i128;
            i += 1;
        }
        assert(self.warmup@.take(i as int) =~= self.warmup@);
        assert(self.warmup@.push(range).drop_last() =~= self.warmup@);
        sum = sum + range as i128;
        if i64::MIN as i128 <= sum && sum <= i64::MAX as i128 {
            Some(sum as i64)
        } else {
            None
        }
    }

    /// Whether [`Atr::record`] can take this range.
    pub fn can_record(&self, range: i64) -> (r: bool)
        requires
            self@.wf(),
        ensures
            r == self@.can_record(range),
    {
        self.seeded || self.warmup.len() + 1 != self.period || self.seed_sum(range).is_some()
    }

    /// Take the close and the true range of a bar.
    pub fn record(&mut self, close: Price, range: i64) -> (r: AtrStep)
        requires
            old(self)@.wf(),
            old(self)@.can_record(range),
        ensures
            final(self)@ == old(self)@.recorded(close, range),
            final(self)@.wf(),
            final(self).label() == old(self).label(),
            r == old(self)@.step(range),
    {
        let ghost before = self@;
        self.previous_close = Some(close);
        if self.seeded {
            return AtrStep::Smooth;
        }
        if self.warmup.len() + 1 == self.period {
            let sum = self.seed_sum(range);
            self.warmup.push(range);
            self.seeded = true;
            match sum {
                Some(sum) => AtrStep::Seed { sum },
                None => AtrStep::Collect,
            }
        } else {
            self.warmup.push(range);
            AtrStep::Collect
        }
    }

    /// Start over.
    pub fn reset(&mut self)
        requires
            old(self)@.wf(),
        ensures
            final(self)@ == (AtrView {
                previous: None,
                warmup: Seq::<i64>::empty(),
                seeded: false,
                ..old(self)@
            }),
            final(self)@.wf(),
            final(self).label() == old(self).label(),
    {
        self.previous_close = None;
        self.warmup.clear();
        self.seeded = false;
    }

    /// Whether a period of ranges was seen.
    pub fn is_warm(&self) -> (r: bool)
        ensures
            r == self@.seeded,
    {
        self.seeded
    }
}

/// What a close does to a relative strength index.
#[derive(Debug, PartialEq)]
pub enum RsiStep {
    /// There was no close to compare it against.
    First,
    /// The change was collected; the index is still warming up.
    Collect,
    /// The change was the last of the warm-up, whose changes are these.
    Seed(Vec<i64>),
    /// The change is smoothed into the averages.
    Smooth(i64),
}

/// What a relative strength index holds.
#[verifier::ext_equal]
pub struct RsiView {
    pub period: nat,
    pub previous: Option<Price>,
    /// Changes of the close collected during warm-up.
    pub changes: Seq<i64>,
    pub seeded: bool,
}

impl RsiView {
    pub open spec fn wf(self) -> bool {
        &&& self.period > 0
        &&& self.seeded <==> self.changes.len() >= self.period
    }

    /// Whether a close can be taken.
    pub open spec fn can_take(self, close: Price) -> bool {
        self.previous matches Some(previous) ==> in_range(close.0 - previous.0)
    }

    /// The change that a close makes.
    pub open spec fn change(self, close: Price) -> i64 {
        match self.previous {
            Some(previous) => (close.0 - previous.0) as i64,
            None => 0,
        }
    }

    /// The schedule after a close.
    pub open spec fn taken(self, close: Price) -> RsiView {
        if self.previous is None || self.seeded {
            RsiView { previous: Some(close), ..self }
        } else {
            RsiView {
                previous: Some(close),
                changes: self.changes.push(self.change(close)),
                seeded: self.changes.len() + 1 == self.period,
                ..self
            }
        }
    }
}

/// The schedule of a relative strength index, smoothed with Wilder's method.
#[derive(Debug, Clone)]
pub struct Rsi {
    period: usize,
    previous_close: Option<Price>,
    changes: Vec<i64>,
    seeded: bool,
    name: String,
}

impl View for Rsi {
    type V = RsiView;

    closed spec fn view(&self) -> RsiView {
        RsiView {
            period: self.period as nat,
            previous: self.previous_close,
            changes: self.changes@,
            seeded: self.seeded,
        }
    }
}

impl Rsi {
    /// The name of the index.
    pub closed spec fn label(&self) -> Seq<char> {
        self.name@
    }

    /// An RSI over `period` bars.
    pub fn new(period: usize) -> (r: Self)
        requires
            period > 0,
        ensures
            r@ == (RsiView {
                period: period as nat,
                previous: None,
                changes: Seq::<i64>::empty(),
                seeded: false,
            }),
            r@.wf(),
            r.label() == period_name("RSI"@, period as nat),
    {
        Rsi {
            period,
            previous_close: None,
            changes: Vec::new(),
            seeded: false,
            name: name_of("RSI", period),
        }
    }

    /// Human-readable name.
    pub fn name(&self) -> (r: &str)
        ensures
            r@ == self.label(),
    {
        self.name.as_str()
    }

    /// The number of changes in a period.
    pub fn period(&self) -> (r: usize)
        ensures
            r == self@.period,
    {
        self.period
    }

    /// Whether [`Rsi::update`] can take this bar.
    pub fn can_update(&self, bar: &Bar) -> (r: bool)
        ensures
            r == self@.can_take(bar.close),
    {
        match self.previous_close {
            Some(previous) => bar.close.checked_sub(previous).is_some(),
            None => true,
        }
    }

    /// Take the close of a bar.
    pub fn update(&mut self, bar: &Bar) -> (r: RsiStep)
        requires
            old(self)@.wf(),
            old(self)@.can_take(bar.close),
        ensures
            final(self)@ == old(self)@.taken(bar.close),
            final(self)@.wf(),
            final(self).label() == old(self).label(),
            match r {
                RsiStep::First => old(self)@.previous is None,
                RsiStep::Collect => old(self)@.previous is Some && !final(self)@.seeded,
                RsiStep::Seed(changes) => old(self)@.previous is Some && !old(self)@.seeded
                    && final(self)@.seeded && changes@ == final(self)@.changes,
                RsiStep::Smooth(change) => old(self)@.previous is Some && old(self)@.seeded
                    && change == old(self)@.change(bar.close),
            },
    {
        let previous = match self.previous_close {
            Some(previous) => previous,
            None => {
                self.previous_close = Some(bar.close);
                return RsiStep::First;
            },
        };
        let change: i64 = bar.close.0 - previous.0;
        self.previous_close = Some(bar.close);
        if self.seeded {
            return RsiStep::Smooth(change);
        }
        self.changes.push(change);
        if self.changes.len() == self.period {
            self.seeded = true;
            let mut changes: Vec<i64> = Vec::new();
            let mut i: usize = 0;
            while i < self.changes.len()
                invariant
                    i <= self.changes@.len(),
                    changes@ == self.changes@.take(i as int),
                decreases self.changes@.len() - i,
            {
                changes.push(self.changes[i]);
                i += 1;
                assert(changes@ =~= self.changes@.take(i as int));
            }
            assert(changes@ =~= self.changes@);
            RsiStep::Seed(changes)
        } else {
            RsiStep::Collect
        }
    }

    /// Start over.
    pub fn reset(&mut self)
        requires
            old(self)@.wf(),
        ensures
            final(self)@ == (RsiView {
                previous: None,
                changes: Seq::<i64>::empty(),
                seeded: false,
                ..old(self)@
            }),
            final(self)@.wf(),
            final(self).label() == old(self).label(),
    {
        self.previous_close = None;
        self.changes.clear();
        self.seeded = false;
    }

    /// Whether a period of changes was seen.
    pub fn is_warm(&self) -> (r: bool)
        ensures
            r == self@.seeded,
    {
        self.seeded
    }
}

} // verus!
