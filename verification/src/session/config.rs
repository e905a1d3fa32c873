//! How a session is configured.

use crate::engine::aggregator::{BarSpec, SpecError};
use crate::engine::ladder::LadderSpecError;
use crate::indicators::scanners::ClusterCriteria;
use crate::primitives::fixed::Qty;
use crate::primitives::ratio::Ratio;
use crate::trading::engine::TradingConfig;
use vstd::prelude::*;

verus! {

use crate::indicators::scanners::no_criteria;

/// How the session is configured.
#[derive(Debug, Clone, Copy)]
pub struct SessionConfig {
    /// Bar construction rule.
    pub bar_spec: BarSpec,
    /// Instrument ticks per footprint row.
    ///
    /// Independent of the instrument's own increment: BTCUSDT ticks at 0.01,
    /// which puts hundreds of rows in a bar spanning a few dollars. Raising
    /// this makes the ladder legible without quantising order prices.
    pub ticks_per_row: u32,
    /// How many completed bars to keep for the chart.
    pub bar_history: usize,
    /// How many tape rows to keep.
    pub tape_length: usize,
    /// Book depth to publish.
    pub book_depth: usize,
    /// Ratio defining a diagonal imbalance.
    pub imbalance_ratio: Ratio,
    /// Minimum level volume for an imbalance to count.
    pub imbalance_min_volume: Qty,
    /// Size at or above which a print is flagged as a big trade.
    pub big_trade_threshold: Qty,
    /// Window for speed of tape, in nanoseconds.
    pub speed_window_nanos: i64,
    /// Trading configuration.
    pub trading: TradingConfig,
    /// Scanner criteria. Empty criteria match nothing.
    pub scanner: ClusterCriteria,
}

/// One-minute bars, a row per tick, and imbalances at three to one.
pub open spec fn usual_config() -> SessionConfig {
    SessionConfig {
        bar_spec: BarSpec::Time { interval_nanos: 60_000_000_000 },
        ticks_per_row: 1,
        bar_history: 500,
        tape_length: 200,
        book_depth: 20,
        imbalance_ratio: Ratio { num: 3, den: 1 },
        imbalance_min_volume: Qty(0),
        big_trade_threshold: Qty(10_000_000_000),
        speed_window_nanos: 10_000_000_000,
        trading: TradingConfig {
            commission_rate: Ratio { num: 4, den: 10_000 },
            max_position: None,
            max_working_orders: 256,
            allow_book_walk: true,
        },
        scanner: no_criteria(),
    }
}

impl SessionConfig {
    /// Thresholds and windows are above zero, and ratios are proper.
    pub open spec fn wf(self) -> bool {
        &&& self.imbalance_ratio.wf()
        &&& self.imbalance_ratio.num > 0
        &&& self.big_trade_threshold.0 > 0
        &&& self.speed_window_nanos > 0
        &&& self.trading.commission_rate.wf()
        &&& self.scanner.wf()
    }

    /// Whether thresholds and windows are above zero and ratios proper.
    pub fn is_sound(&self) -> (r: bool)
        ensures
            r == self.wf(),
    {
        self.imbalance_ratio.den > 0 && self.imbalance_ratio.num > 0 && self.big_trade_threshold.0
            > 0 && self.speed_window_nanos > 0 && self.trading.commission_rate.den > 0
            && self.scanner.is_sound()
    }
}

impl Default for SessionConfig {
    fn default() -> (r: Self)
        ensures
            r == usual_config(),
            r.wf(),
    {
        SessionConfig {
            bar_spec: BarSpec::minutes(1),
            ticks_per_row: 1,
            bar_history: 500,
            tape_length: 200,
            book_depth: 20,
            imbalance_ratio: Ratio::new(3, 1),
            imbalance_min_volume: Qty(0),
            big_trade_threshold: Qty::from_units(100),
            speed_window_nanos: 10_000_000_000,
            trading: TradingConfig::default(),
            scanner: ClusterCriteria::new(),
        }
    }
}

/// Why a session could not be built or reconfigured.
#[derive(Debug, Clone, Copy, PartialEq, Eq)]
pub enum ConfigError {
    /// The bar rule was invalid.
    BarSpec(SpecError),
    /// The footprint row mapping was invalid.
    Ladder(LadderSpecError),
}

} // verus!
