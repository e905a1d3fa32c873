//! Bar construction.
//!
//! One aggregator turns a trade stream into bars under a single rule. Time bars
//! distort activity (a quiet minute and a violent one get the same width),
//! which is why order-flow traders reach for volume, tick, range and delta bars
//! instead.
//!
//! # Ordering
//!
//! Trades must arrive in non-decreasing timestamp order. A late trade cannot
//! be folded into a bar that has already closed, so out-of-order trades are
//! dropped and counted in [`Aggregator::dropped_out_of_order`] rather than
//! silently corrupting history. Feed adapters are responsible for sequencing.

use crate::engine::bar::Bar;
use crate::engine::ladder::LadderSpec;
use crate::primitives::fixed::{clamp_wide, Price, Qty};
use crate::primitives::instrument::Instrument;
use crate::primitives::market::{Side, Trade};
use crate::primitives::time::{Ts, NANOS_PER_SEC};
use vstd::prelude::*;

verus! {

use crate::engine::bar::{lemma_applied_wf, lemma_opened_wf, opened_bar, BarView};
use crate::primitives::fixed::{clamped, in_range, magnitude_of};
use crate::primitives::time::interval_start;
use crate::store::segment::ordered;

/// The rule that decides when a bar closes.
#[derive(Debug, Clone, Copy, PartialEq, Eq, Structural)]
pub enum BarSpec {
    /// Close on a fixed wall-clock interval.
    Time {
        /// Bar length in nanoseconds.
        interval_nanos: i64,
    },
    /// Close after a fixed number of trades.
    Tick {
        /// Trades per bar.
        count: u32,
    },
    /// Close once traded volume reaches a threshold.
    Volume {
        /// Volume per bar.
        threshold: Qty,
    },
    /// Close once high minus low reaches a number of ticks.
    Range {
        /// Bar range in ticks.
        ticks: i64,
    },
    /// Close once absolute delta reaches a threshold.
    ///
    /// Delta bars close on aggression rather than on price or clock, so a bar
    /// boundary marks a completed burst of one-sided buying or selling.
    Delta {
        /// Absolute delta per bar.
        threshold: Qty,
    },
}

/// What is not positive in a rule that is refused.
pub open spec fn spec_refusal(spec: BarSpec) -> Option<Seq<char>> {
    match spec {
        BarSpec::Time { interval_nanos } => if interval_nanos <= 0 {
            Some("time interval"@)
        } else {
            None
        },
        BarSpec::Tick { count } => if count == 0 {
            Some("tick count"@)
        } else {
            None
        },
        BarSpec::Volume { threshold } => if threshold.0 <= 0 {
            Some("volume threshold"@)
        } else {
            None
        },
        BarSpec::Range { ticks } => if ticks <= 0 {
            Some("range ticks"@)
        } else {
            None
        },
        BarSpec::Delta { threshold } => if threshold.0 <= 0 {
            Some("delta threshold"@)
        } else {
            None
        },
    }
}

/// An invalid [`BarSpec`].
#[derive(Debug, Clone, Copy, PartialEq, Eq)]
pub enum SpecError {
    /// A threshold that must be positive was zero or negative.
    NonPositive(&'static str),
}

impl SpecError {
    /// What was not positive.
    pub open spec fn what(self) -> Seq<char> {
        match self {
            SpecError::NonPositive(what) => what@,
        }
    }
}

impl BarSpec {
    /// A time bar of `seconds` length.
    pub fn seconds(seconds: i64) -> (r: Self)
        requires
            in_range(seconds * NANOS_PER_SEC),
        ensures
            r == (BarSpec::Time { interval_nanos: (seconds * NANOS_PER_SEC) as i64 }),
    {
        BarSpec::Time { interval_nanos: seconds * NANOS_PER_SEC }
    }

    /// A time bar of `minutes` length.
    pub fn minutes(minutes: i64) -> (r: Self)
        requires
            in_range(minutes * 60 * NANOS_PER_SEC),
        ensures
            r == (BarSpec::Time { interval_nanos: (minutes * 60 * NANOS_PER_SEC) as i64 }),
    {
        BarSpec::seconds(minutes * 60)
    }

    /// Reject nonsensical configuration before it produces broken bars.
    pub fn validate(&self) -> (r: Result<(), SpecError>)
        ensures
            match r {
                Ok(_) => spec_refusal(*self) is None,
                Err(e) => spec_refusal(*self) == Some(e.what()),
            },
    {
        match *self {
            BarSpec::Time { interval_nanos } => if interval_nanos <= 0 {
                return Err(SpecError::NonPositive("time interval"));
            },
            BarSpec::Tick { count } => if count == 0 {
                return Err(SpecError::NonPositive("tick count"));
            },
            BarSpec::Volume { threshold } => if threshold.0 <= 0 {
                return Err(SpecError::NonPositive("volume threshold"));
            },
            BarSpec::Range { ticks } => if ticks <= 0 {
                return Err(SpecError::NonPositive("range ticks"));
            },
            BarSpec::Delta { threshold } => if threshold.0 <= 0 {
                return Err(SpecError::NonPositive("delta threshold"));
            },
        }
        Ok(())
    }
}

/// What an aggregator holds between trades.
#[verifier::ext_equal]
pub struct AggregatorView {
    pub ladder: LadderSpec,
    pub spec: BarSpec,
    pub current: Option<BarView>,
    pub cum_delta: int,
    pub last_ts: Ts,
    pub dropped: int,
}

/// An aggregator that saw no trade.
pub open spec fn fresh_aggregator(ladder: LadderSpec, spec: BarSpec) -> AggregatorView {
    AggregatorView { ladder, spec, current: None, cum_delta: 0, last_ts: Ts(0), dropped: 0 }
}

/// Whether a bar has met its closing rule. Time bars never close this way: the
/// first trade of the next interval closes them.
pub open spec fn rule_met(spec: BarSpec, tick: Price, bar: BarView) -> bool {
    match spec {
        BarSpec::Time { .. } => false,
        BarSpec::Tick { count } => bar.trades >= count,
        BarSpec::Volume { threshold } => bar.volume.0 >= threshold.0,
        BarSpec::Range { ticks } => bar.high.0 - bar.low.0 >= clamped(tick.0 * ticks),
        BarSpec::Delta { threshold } => magnitude_of(bar.net()) >= threshold.0,
    }
}

/// Whether the quantity that a rule looks at is representable.
pub open spec fn rule_fits(spec: BarSpec, bar: BarView) -> bool {
    match spec {
        BarSpec::Range { .. } => in_range(bar.high.0 - bar.low.0),
        BarSpec::Delta { .. } => in_range(bar.net()) && in_range(-bar.net()),
        _ => true,
    }
}

impl AggregatorView {
    pub open spec fn wf(self) -> bool {
        &&& self.ladder.wf()
        &&& spec_refusal(self.spec) is None
        &&& self.current matches Some(bar) ==> bar.wf() && !bar.closed && bar.ladder.tick
            == self.ladder.row()
        &&& in_range(self.cum_delta)
        &&& 0 <= self.dropped <= u64::MAX
    }

    /// Whether a trade came too late.
    pub open spec fn is_late(self, trade: Trade) -> bool {
        trade.ts.0 < self.last_ts.0
    }

    /// When a bar that opens on this trade opens.
    pub open spec fn opening(self, trade: Trade) -> Ts {
        match self.spec {
            BarSpec::Time { interval_nanos } => Ts(
                interval_start(trade.ts.0 as int, interval_nanos as int) as i64,
            ),
            _ => trade.ts,
        }
    }

    /// Whether the forming bar belongs to an interval that this trade is not in.
    pub open spec fn rolls(self, trade: Trade) -> bool {
        self.spec is Time && self.current is Some && self.current->0.open_ts != self.opening(trade)
    }

    /// The bar that holds this trade, right after it was folded in.
    pub open spec fn touched(self, trade: Trade) -> BarView {
        if self.current is None || self.rolls(trade) {
            opened_bar(self.opening(trade), trade, self.ladder.row())
        } else {
            self.current->0.applied(trade)
        }
    }

    /// Whether a trade can be taken without leaving 64 bits.
    pub open spec fn can_take(self, trade: Trade) -> bool {
        if self.is_late(trade) {
            self.dropped < u64::MAX
        } else {
            &&& in_range(trade.signed())
            &&& in_range(self.cum_delta + trade.signed())
            &&& self.spec matches BarSpec::Time { interval_nanos } ==> in_range(
                interval_start(trade.ts.0 as int, interval_nanos as int),
            )
            &&& self.current is Some && !self.rolls(trade) ==> self.current->0.can_apply(trade)
            &&& rule_fits(self.spec, self.touched(trade))
        }
    }

    /// The aggregator after a trade.
    pub open spec fn taken(self, trade: Trade) -> AggregatorView {
        if self.is_late(trade) {
            AggregatorView { dropped: self.dropped + 1, ..self }
        } else {
            AggregatorView {
                current: if rule_met(self.spec, self.ladder.tick(), self.touched(trade)) {
                    None
                } else {
                    Some(self.touched(trade))
                },
                cum_delta: self.cum_delta + trade.signed(),
                last_ts: trade.ts,
                ..self
            }
        }
    }

    /// The bars that a trade closes, in order.
    pub open spec fn closed_by(self, trade: Trade) -> Seq<BarView> {
        if self.is_late(trade) {
            Seq::<BarView>::empty()
        } else {
            let rolled = if self.rolls(trade) {
                seq![self.current->0.finished()]
            } else {
                Seq::<BarView>::empty()
            };
            if rule_met(self.spec, self.ladder.tick(), self.touched(trade)) {
                rolled.push(self.touched(trade).finished())
            } else {
                rolled
            }
        }
    }
}

/// The contents of some bars.
pub open spec fn bars_view(bars: Seq<Bar>) -> Seq<BarView> {
    Seq::new(bars.len(), |i: int| bars[i]@)
}

/// Builds bars from a trade stream under one [`BarSpec`].
#[derive(Debug, Clone)]
pub struct Aggregator {
    ladder: LadderSpec,
    spec: BarSpec,
    current: Option<Bar>,
    /// Bars closed by the most recent trade. Cleared at the top of each call.
    just_closed: Vec<Bar>,
    cum_delta: Qty,
    last_ts: Ts,
    dropped: u64,
}

impl View for Aggregator {
    type V = AggregatorView;

    closed spec fn view(&self) -> AggregatorView {
        AggregatorView {
            ladder: self.ladder,
            spec: self.spec,
            current: match self.current {
                Some(bar) => Some(bar@),
                None => None,
            },
            cum_delta: self.cum_delta.0 as int,
            last_ts: self.last_ts,
            dropped: self.dropped as int,
        }
    }
}

impl Aggregator {
    /// Create an aggregator for an instrument.
    ///
    /// Returns an error rather than panicking on a bad spec, because specs
    /// come from user-editable workspace files.
    pub fn new(instrument: &Instrument, spec: BarSpec) -> (r: Result<Self, SpecError>)
        requires
            spec_refusal(spec) is None ==> instrument.tick_size.0 > 0,
        ensures
            match r {
                Ok(agg) => spec_refusal(spec) is None && agg@.ladder.tick()
                    == instrument.tick_size && agg@.ladder.per_row() == 1 && agg@
                    == fresh_aggregator(agg@.ladder, spec) && agg@.wf(),
                Err(e) => spec_refusal(spec) == Some(e.what()),
            },
    {
        Aggregator::with_tick_size(instrument.tick_size, spec)
    }

    /// Create an aggregator from a raw tick size.
    pub fn with_tick_size(tick_size: Price, spec: BarSpec) -> (r: Result<Self, SpecError>)
        requires
            spec_refusal(spec) is None ==> tick_size.0 > 0,
        ensures
            match r {
                Ok(agg) => spec_refusal(spec) is None && agg@.ladder.tick() == tick_size
                    && agg@.ladder.per_row() == 1 && agg@ == fresh_aggregator(agg@.ladder, spec)
                    && agg@.wf(),
                Err(e) => spec_refusal(spec) == Some(e.what()),
            },
    {
        match spec.validate() {
            Ok(_) => Aggregator::with_ladder(LadderSpec::per_tick(tick_size), spec),
            Err(e) => Err(e),
        }
    }

    /// Create an aggregator whose bars group ticks into rows.
    pub fn with_ladder(ladder: LadderSpec, spec: BarSpec) -> (r: Result<Self, SpecError>)
        requires
            ladder.wf(),
        ensures
            match r {
                Ok(agg) => spec_refusal(spec) is None && agg@ == fresh_aggregator(ladder, spec)
                    && agg@.wf(),
                Err(e) => spec_refusal(spec) == Some(e.what()),
            },
    {
        match spec.validate() {
            Ok(_) => Ok(
                Aggregator {
                    ladder,
                    spec,
                    current: None,
                    just_closed: Vec::new(),
                    cum_delta: Qty(0),
                    last_ts: Ts(0),
                    dropped: 0,
                },
            ),
            Err(e) => Err(e),
        }
    }

    /// Whether [`Aggregator::on_trade`] can take this trade.
    pub fn can_take(&self, trade: &Trade) -> (r: bool)
        requires
            self@.wf(),
        ensures
            r == self@.can_take(*trade),
    {
        if trade.ts.0 < self.last_ts.0 {
            return self.dropped < u64::MAX;
        }
        let signed: i128 = match trade.aggressor {
            Side::Buy => trade.qty.0 as i128,
            Side::Sell => -(trade.qty.0 as i128),
        };
        let cum: i128 = self.cum_delta.0 as i128 + signed;
        if clamp_wide(signed) as i128 != signed || clamp_wide(cum) as i128 != cum {
            return false;
        }
        proof {
            lemma_row_positive(self@.ladder);
            lemma_opened_wf(self@.opening(*trade), *trade, self@.ladder.row());
        }
        let mut rolled = false;
        if let BarSpec::Time { interval_nanos } = self.spec {
            let rem: i128 = match (trade.ts.0 as i128).checked_rem_euclid(interval_nanos as i128) {
                Some(v) => v,
                None => 0,
            };
            let start: i128 = trade.ts.0 as i128 - rem;
            if start < i64::MIN as i128 {
                return false;
            }
            if let Some(bar) = &self.current {
                rolled = bar.open_ts.0 as i128 != start;
            }
        }
        assert(rolled == self@.rolls(*trade));
        match &self.current {
            Some(bar) => {
                if rolled {
                    return true;
                }
                if !bar.can_apply(trade) {
                    return false;
                }
                match self.spec {
                    BarSpec::Range { .. } => {
                        let high: i128 = bar.high.max(trade.price).0 as i128;
                        let low: i128 = bar.low.min(trade.price).0 as i128;
                        high - low <= i64::MAX as i128
                    },
                    BarSpec::Delta { .. } => {
                        let net: i128 = bar.clusters.total_ask().0 as i128
                            - bar.clusters.total_bid().0 as i128 + signed;
                        -(i64::MAX as i128) <= net && net <= i64::MAX as i128
                    },
                    _ => true,
                }
            },
            None => match self.spec {
                BarSpec::Delta { .. } => signed != i64::MIN as i128,
                _ => true,
            },
        }
    }

    /// Fold a trade in, returning any bars it closed.
    ///
    /// The returned slice is usually empty or one bar; it is a slice so that
    /// rules able to close several bars from one print have somewhere to put
    /// them.
    pub fn on_trade(&mut self, trade: &Trade) -> (r: &[Bar])
        requires
            old(self)@.wf(),
            old(self)@.can_take(*trade),
        ensures
            final(self)@.wf(),
            final(self)@ == old(self)@.taken(*trade),
            bars_view(r@) == old(self)@.closed_by(*trade),
    {
        let ghost before = self@;
        self.just_closed.clear();
        assert(bars_view(self.just_closed@) =~= Seq::<BarView>::empty());
        if trade.ts.0 < self.last_ts.0 {
            self.dropped = self.dropped + 1;
            assert(self@ =~= before.taken(*trade));
            return self.just_closed.as_slice();
        }
        self.last_ts = trade.ts;
        let row = self.ladder.row_size();
        proof {
            lemma_opened_wf(before.opening(*trade), *trade, row);
        }
        let opening = match self.spec {
            BarSpec::Time { interval_nanos } => trade.ts.floor_to(interval_nanos),
            _ => trade.ts,
        };
        // Time bars are the one rule where the boundary is decided before the
        // trade is applied: a trade belonging to the next bucket must not
        // touch the current bar at all.
        let rolled = match (&self.spec, &self.current) {
            (BarSpec::Time { .. }, Some(bar)) => bar.open_ts != opening,
            _ => false,
        };
        assert(rolled == before.rolls(*trade));
        if rolled {
            self.close_current();
            assert(bars_view(self.just_closed@) =~= seq![before.current->0.finished()]);
        }
        let bar = match self.current.take() {
            Some(mut bar) => {
                proof {
                    lemma_applied_wf(bar@, *trade);
                }
                bar.apply(trade);
                bar
            },
            None => Bar::open(opening, trade, row),
        };
        assert(bar@ == before.touched(*trade));
        self.cum_delta = Qty(self.cum_delta.0 + trade.signed_qty().0);
        self.current = Some(bar);
        if self.should_close() {
            let ghost closed = bars_view(self.just_closed@);
            self.close_current();
            assert(bars_view(self.just_closed@) =~= closed.push(
                before.touched(*trade).finished(),
            ));
        }
        assert(self@ =~= before.taken(*trade));
        assert(bars_view(self.just_closed@) =~= before.closed_by(*trade));
        self.just_closed.as_slice()
    }

    /// Whether the forming bar has satisfied its closing rule.
    fn should_close(&self) -> (r: bool)
        requires
            self@.ladder.wf(),
            self@.current matches Some(bar) ==> rule_fits(self@.spec, bar),
        ensures
            r == (self@.current matches Some(bar) && rule_met(
                self@.spec,
                self@.ladder.tick(),
                bar,
            )),
    {
        match &self.current {
            Some(bar) => match self.spec {
                // Handled before the trade is applied.
                BarSpec::Time { .. } => false,
                BarSpec::Tick { count } => bar.trades >= count,
                BarSpec::Volume { threshold } => bar.volume.0 >= threshold.0,
                BarSpec::Range { ticks } => {
                    let tick: i64 = self.ladder.tick_size().0;
                    proof {
                        crate::primitives::fixed::lemma_product_fits(tick, ticks);
                    }
                    bar.range().0 >= clamp_wide(tick as i128 * ticks as i128)
                },
                BarSpec::Delta { threshold } => bar.delta().abs().0 >= threshold.0,
            },
            None => false,
        }
    }

    /// Close the forming bar into the just-closed buffer.
    fn close_current(&mut self)
        ensures
            final(self)@ == (AggregatorView { current: None, ..old(self)@ }),
            final(self).just_closed@.len() == old(self).just_closed@.len() + (
            if old(self).current is Some {
                1int
            } else {
                0int
            }),
            forall|i: int|
                0 <= i < old(self).just_closed@.len() ==> final(self).just_closed@[i]
                    == #[trigger] old(self).just_closed@[i],
            old(self)@.current matches Some(bar) ==> final(self).just_closed@.last()@
                == bar.finished(),
    {
        if let Some(mut bar) = self.current.take() {
            bar.close();
            self.just_closed.push(bar);
        }
    }

    /// Close the forming bar, if any. Use at session end or on disconnect, so
    /// a partial bar is not left dangling.
    pub fn flush(&mut self) -> (r: Option<Bar>)
        requires
            old(self)@.wf(),
        ensures
            final(self)@ == (AggregatorView { current: None, ..old(self)@ }),
            final(self)@.wf(),
            match old(self)@.current {
                Some(bar) => r matches Some(out) && out@ == bar.finished(),
                None => r is None,
            },
    {
        match self.current.take() {
            Some(mut bar) => {
                bar.close();
                Some(bar)
            },
            None => None,
        }
    }

    /// The bar currently being formed.
    pub fn current(&self) -> (r: Option<&Bar>)
        ensures
            match r {
                Some(bar) => self@.current == Some(bar@),
                None => self@.current is None,
            },
    {
        match &self.current {
            Some(bar) => Some(bar),
            None => None,
        }
    }

    /// Session cumulative delta, including the forming bar.
    pub fn cum_delta(&self) -> (r: Qty)
        ensures
            r.0 == self@.cum_delta,
    {
        self.cum_delta
    }

    /// The rule this aggregator applies.
    pub fn spec(&self) -> (r: BarSpec)
        ensures
            r == self@.spec,
    {
        self.spec
    }

    /// How ticks are grouped into rows.
    pub fn ladder(&self) -> (r: LadderSpec)
        ensures
            r == self@.ladder,
    {
        self.ladder
    }

    /// How many trades were dropped for arriving out of order.
    ///
    /// A non-zero value in production means the feed adapter is not sequencing
    /// correctly, and the resulting history has holes.
    pub fn dropped_out_of_order(&self) -> (r: u64)
        ensures
            r == self@.dropped,
    {
        self.dropped
    }

    /// Reset all state, keeping the configuration. Use when switching
    /// instruments or restarting a session.
    pub fn reset(&mut self)
        requires
            old(self)@.wf(),
        ensures
            final(self)@ == fresh_aggregator(old(self)@.ladder, old(self)@.spec),
            final(self)@.wf(),
    {
        self.current = None;
        self.just_closed.clear();
        self.cum_delta = Qty(0);
        self.last_ts = Ts(0);
        self.dropped = 0;
    }
}

/// The aggregator after a sequence of trades.
pub open spec fn fed(v: AggregatorView, trades: Seq<Trade>) -> AggregatorView
    decreases trades.len(),
{
    if trades.len() == 0 {
        v
    } else {
        fed(v, trades.drop_last()).taken(trades.last())
    }
}

/// Every bar that a sequence of trades closes.
pub open spec fn bars_of(v: AggregatorView, trades: Seq<Trade>) -> Seq<BarView>
    decreases trades.len(),
{
    if trades.len() == 0 {
        Seq::<BarView>::empty()
    } else {
        bars_of(v, trades.drop_last()) + fed(v, trades.drop_last()).closed_by(trades.last())
    }
}

/// Whether every trade of a sequence can be taken in its turn.
pub open spec fn can_feed(v: AggregatorView, trades: Seq<Trade>) -> bool
    decreases trades.len(),
{
    trades.len() == 0 || (can_feed(v, trades.drop_last()) && fed(v, trades.drop_last()).can_take(
        trades.last(),
    ))
}

/// The trades of a sequence that did not come too late.
pub open spec fn in_order(v: AggregatorView, trades: Seq<Trade>) -> Seq<Trade>
    decreases trades.len(),
{
    if trades.len() == 0 {
        trades
    } else if fed(v, trades.drop_last()).is_late(trades.last()) {
        in_order(v, trades.drop_last())
    } else {
        in_order(v, trades.drop_last()).push(trades.last())
    }
}

/// Volume, delta and number of trades.
pub struct Flow {
    pub volume: int,
    pub net: int,
    pub trades: int,
}

impl Flow {
    /// The two together.
    pub open spec fn plus(self, other: Flow) -> Flow {
        Flow {
            volume: self.volume + other.volume,
            net: self.net + other.net,
            trades: self.trades + other.trades,
        }
    }
}

/// What a bar accounts for.
pub open spec fn bar_flow(bar: BarView) -> Flow {
    Flow { volume: bar.volume.0 as int, net: bar.net(), trades: bar.trades as int }
}

/// What some bars account for.
pub open spec fn bars_flow(bars: Seq<BarView>) -> Flow
    decreases bars.len(),
{
    if bars.len() == 0 {
        Flow { volume: 0, net: 0, trades: 0 }
    } else {
        bars_flow(bars.drop_last()).plus(bar_flow(bars.last()))
    }
}

/// What some trades add up to.
pub open spec fn trades_flow(trades: Seq<Trade>) -> Flow
    decreases trades.len(),
{
    if trades.len() == 0 {
        Flow { volume: 0, net: 0, trades: 0 }
    } else {
        trades_flow(trades.drop_last()).plus(
            Flow {
                volume: trades.last().qty.0 as int,
                net: trades.last().signed(),
                trades: 1,
            },
        )
    }
}

/// What the forming bar accounts for.
pub open spec fn forming_flow(v: AggregatorView) -> Flow {
    match v.current {
        Some(bar) => bar_flow(bar),
        None => Flow { volume: 0, net: 0, trades: 0 },
    }
}

/// Taking a trade keeps an aggregator well formed, whatever its rule, and so
/// are the bars it closes.
pub proof fn lemma_taken_wf(v: AggregatorView, trade: Trade)
    requires
        v.wf(),
        v.can_take(trade),
    ensures
        v.taken(trade).wf(),
        forall|k: int| 0 <= k < v.closed_by(trade).len() ==> (#[trigger] v.closed_by(trade)[k]).wf(),
{
    if !v.is_late(trade) {
        lemma_row_positive(v.ladder);
        lemma_opened_wf(v.opening(trade), trade, v.ladder.row());
        if v.current is Some && !v.rolls(trade) {
            lemma_applied_wf(v.current->0, trade);
        }
    }
}

pub proof fn lemma_row_positive(ladder: LadderSpec)
    requires
        ladder.wf(),
    ensures
        ladder.row().0 > 0,
{
    assert(ladder.tick().0 * ladder.per_row() > 0) by (nonlinear_arith)
        requires
            ladder.tick().0 > 0,
            ladder.per_row() > 0,
    ;
}

proof fn lemma_flow_step(v: AggregatorView, trade: Trade)
    requires
        v.wf(),
        v.can_take(trade),
        !v.is_late(trade),
    ensures
        bars_flow(v.closed_by(trade)).plus(forming_flow(v.taken(trade))) == forming_flow(v).plus(
            Flow { volume: trade.qty.0 as int, net: trade.signed(), trades: 1 },
        ),
{
    lemma_row_positive(v.ladder);
    lemma_opened_wf(v.opening(trade), trade, v.ladder.row());
    let touched = v.touched(trade);
    let closed = v.closed_by(trade);
    reveal_with_fuel(bars_flow, 3);
    if v.rolls(trade) {
        let old_bar = v.current->0.finished();
        assert(bar_flow(touched) == (Flow {
            volume: trade.qty.0 as int,
            net: trade.signed(),
            trades: 1,
        }));
        assert(closed =~= seq![old_bar]);
        assert(closed.drop_last() =~= Seq::<BarView>::empty());
        assert(closed.last() == old_bar);
    } else if closed.len() > 0 {
        assert(closed.drop_last() =~= Seq::<BarView>::empty());
        assert(closed.last() == touched.finished());
    }
}

proof fn lemma_bars_flow_concat(a: Seq<BarView>, b: Seq<BarView>)
    ensures
        bars_flow(a + b) == bars_flow(a).plus(bars_flow(b)),
    decreases b.len(),
{
    if b.len() == 0 {
        assert(a + b =~= a);
    } else {
        lemma_bars_flow_concat(a, b.drop_last());
        assert((a + b).drop_last() =~= a + b.drop_last());
    }
}

/// Nothing is lost and nothing is counted twice: under every rule, the closed
/// bars and the forming bar together account for the volume, the delta and the
/// number of the trades that came in order, and the cumulative delta follows.
pub proof fn law_bars_conserve_flow(v: AggregatorView, trades: Seq<Trade>)
    requires
        v.wf(),
        can_feed(v, trades),
    ensures
        fed(v, trades).wf(),
        bars_flow(bars_of(v, trades)).plus(forming_flow(fed(v, trades))) == forming_flow(v).plus(
            trades_flow(in_order(v, trades)),
        ),
        fed(v, trades).cum_delta == v.cum_delta + trades_flow(in_order(v, trades)).net,
        fed(v, trades).dropped == v.dropped + trades.len() - in_order(v, trades).len(),
    decreases trades.len(),
{
    if trades.len() > 0 {
        let before = trades.drop_last();
        let trade = trades.last();
        law_bars_conserve_flow(v, before);
        let mid = fed(v, before);
        lemma_taken_wf(mid, trade);
        lemma_bars_flow_concat(bars_of(v, before), mid.closed_by(trade));
        if !mid.is_late(trade) {
            lemma_flow_step(mid, trade);
            assert(in_order(v, trades).drop_last() =~= in_order(v, before));
        } else {
            assert(bars_of(v, trades) =~= bars_of(v, before));
        }
    }
}

/// A closed bar is finished and well formed, and it met its rule, unless it is a
/// time bar: that one closes when a trade of another interval arrives.
pub proof fn law_closed_bars_met_their_rule(v: AggregatorView, trade: Trade, k: int)
    requires
        v.wf(),
        v.can_take(trade),
        0 <= k < v.closed_by(trade).len(),
    ensures
        v.closed_by(trade)[k].closed,
        v.closed_by(trade)[k].wf(),
        v.spec is Time ==> v.rolls(trade) && v.closed_by(trade).len() == 1,
        !(v.spec is Time) ==> rule_met(v.spec, v.ladder.tick(), v.closed_by(trade)[k])
            && v.closed_by(trade).len() == 1,
{
    lemma_taken_wf(v, trade);
    lemma_row_positive(v.ladder);
    lemma_opened_wf(v.opening(trade), trade, v.ladder.row());
    if v.current is Some && !v.rolls(trade) {
        lemma_applied_wf(v.current->0, trade);
    }
}

/// Whether a bar is finished and well formed and holds at least one trade.
pub open spec fn is_whole(bar: BarView) -> bool {
    bar.closed && bar.wf() && bar.trades > 0
}

/// The bar that flushing closes.
pub open spec fn flushed(v: AggregatorView) -> Seq<BarView> {
    match v.current {
        Some(bar) => seq![bar.finished()],
        None => Seq::<BarView>::empty(),
    }
}

/// Every bar that a sequence of trades and a flush at the end give.
pub open spec fn all_bars(v: AggregatorView, trades: Seq<Trade>) -> Seq<BarView> {
    bars_of(v, trades) + flushed(fed(v, trades))
}

proof fn lemma_bars_hold_trades(v: AggregatorView, trades: Seq<Trade>)
    requires
        v.wf(),
        v.current matches Some(bar) ==> bar.trades > 0,
        can_feed(v, trades),
    ensures
        fed(v, trades).wf(),
        fed(v, trades).current matches Some(bar) ==> bar.trades > 0,
        forall|k: int| 0 <= k < bars_of(v, trades).len() ==> is_whole(
            #[trigger] bars_of(v, trades)[k],
        ),
    decreases trades.len(),
{
    if trades.len() > 0 {
        let before = trades.drop_last();
        let trade = trades.last();
        lemma_bars_hold_trades(v, before);
        let mid = fed(v, before);
        lemma_taken_wf(mid, trade);
        let earlier = bars_of(v, before);
        let closed = mid.closed_by(trade);
        if !mid.is_late(trade) {
            lemma_row_positive(mid.ladder);
            lemma_opened_wf(mid.opening(trade), trade, mid.ladder.row());
            if mid.current is Some && !mid.rolls(trade) {
                lemma_applied_wf(mid.current->0, trade);
            }
            assert(mid.touched(trade).trades > 0);
        }
        assert forall|k: int| 0 <= k < bars_of(v, trades).len() implies is_whole(
            #[trigger] bars_of(v, trades)[k],
        ) by {
            if k < earlier.len() {
                assert(bars_of(v, trades)[k] == earlier[k]);
            } else {
                assert(bars_of(v, trades)[k] == closed[k - earlier.len()]);
                assert(closed[k - earlier.len()].wf());
            }
        }
    }
}

proof fn lemma_all_in_order(v: AggregatorView, trades: Seq<Trade>)
    requires
        ordered(trades),
        trades.len() > 0 ==> v.last_ts.0 <= trades[0].ts.0,
    ensures
        in_order(v, trades) == trades,
        fed(v, trades).last_ts == if trades.len() == 0 {
            v.last_ts
        } else {
            trades.last().ts
        },
        trades_flow(trades).trades == trades.len(),
    decreases trades.len(),
{
    if trades.len() > 0 {
        let before = trades.drop_last();
        assert(ordered(before)) by {
            assert forall|i: int, j: int| 0 <= i <= j < before.len() implies (
            #[trigger] before[i]).ts.0 <= (#[trigger] before[j]).ts.0 by {
                assert(before[i] == trades[i] && before[j] == trades[j]);
            }
        }
        lemma_all_in_order(v, before);
        let n = trades.len() - 1;
        assert(trades[0].ts.0 <= trades[n].ts.0);
        if n > 0 {
            assert(trades[n - 1].ts.0 <= trades[n].ts.0);
            assert(before.last() == trades[n - 1]);
        }
        assert(in_order(v, trades) =~= trades);
    }
}

/// No trade is split, lost or counted twice: trades in time order from the epoch
/// on, fed to a fresh aggregator of any rule and flushed at the end, give bars
/// that add up to their number, volume and delta. Every bar is finished, agrees
/// with its ladder and holds at least one trade, and none of the trades is
/// dropped.
pub proof fn law_every_trade_is_in_one_bar(ladder: LadderSpec, spec: BarSpec, trades: Seq<Trade>)
    requires
        ladder.wf(),
        spec_refusal(spec) is None,
        can_feed(fresh_aggregator(ladder, spec), trades),
        ordered(trades),
        trades.len() > 0 ==> trades[0].ts.0 >= 0,
    ensures
        ({
            let start = fresh_aggregator(ladder, spec);
            let bars = all_bars(start, trades);
            &&& bars_flow(bars) == trades_flow(trades)
            &&& bars_flow(bars).trades == trades.len()
            &&& forall|k: int| 0 <= k < bars.len() ==> is_whole(#[trigger] bars[k])
            &&& fed(start, trades).cum_delta == trades_flow(trades).net
            &&& fed(start, trades).dropped == 0
        }),
{
    let start = fresh_aggregator(ladder, spec);
    let end = fed(start, trades);
    let bars = all_bars(start, trades);
    law_bars_conserve_flow(start, trades);
    lemma_bars_hold_trades(start, trades);
    lemma_all_in_order(start, trades);
    lemma_bars_flow_concat(bars_of(start, trades), flushed(end));
    reveal_with_fuel(bars_flow, 2);
    if end.current is Some {
        assert(flushed(end).drop_last() =~= Seq::<BarView>::empty());
        assert(bar_flow(flushed(end).last()) == bar_flow(end.current->0));
    }
    assert(bars_flow(flushed(end)) == forming_flow(end));
    assert forall|k: int| 0 <= k < bars.len() implies is_whole(#[trigger] bars[k]) by {
        if k < bars_of(start, trades).len() {
            assert(bars[k] == bars_of(start, trades)[k]);
        } else {
            assert(bars[k] == end.current->0.finished());
        }
    }
}

} // verus!
