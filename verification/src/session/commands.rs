//! What the UI and the environment ask for, in plain values.

use crate::engine::aggregator::BarSpec;
use crate::primitives::fixed::{ParseFixedError, Price, Qty};
use crate::primitives::instrument::{Instrument, Venue};
use crate::primitives::market::Side;
use crate::text::{is_same_folded, same_text, stands_at, string_of, trim_chars};
use vstd::prelude::*;

verus! {

use crate::primitives::fixed::{in_range, parsed};
use crate::primitives::instrument::places_for;
use crate::primitives::time::NANOS_PER_SEC;
use crate::text::{same_folded, starts, trimmed, uppercase};

/// Which data source to run against.
#[derive(Debug, Clone, PartialEq, Eq)]
pub enum FeedChoice {
    /// The offline simulator.
    Synthetic,
    /// Binance live market data for a symbol.
    Binance(String),
}

/// Which data source was chosen.
pub enum ChoiceView {
    Synthetic,
    Binance(Seq<char>),
}

impl View for FeedChoice {
    type V = ChoiceView;

    open spec fn view(&self) -> ChoiceView {
        match self {
            FeedChoice::Synthetic => ChoiceView::Synthetic,
            FeedChoice::Binance(symbol) => ChoiceView::Binance(symbol@),
        }
    }
}

/// Why a setting was not followed.
#[derive(Debug, Clone, Copy, PartialEq, Eq, Structural)]
pub enum ChoiceWarning {
    /// It named a venue and no symbol.
    NoSymbol,
    /// It named nothing that is known.
    Unrecognised,
}

/// The symbol that a setting names, already trimmed; `None` where it names no
/// venue.
pub open spec fn named_symbol(value: Seq<char>) -> Option<Seq<char>> {
    if starts(value, "binance:"@) {
        Some(trimmed(value.skip("binance:"@.len() as int)))
    } else if same_folded(value, "binance"@) {
        Some(trimmed("BTCUSDT"@))
    } else {
        None
    }
}

/// The data source that a setting stands for. An unset or unrecognised one is
/// the simulator: a typo should not leave a trader with no application at all.
pub open spec fn chosen(raw: Option<Seq<char>>) -> (ChoiceView, Option<ChoiceWarning>) {
    match raw {
        None => (ChoiceView::Synthetic, None),
        Some(raw) => {
            let value = trimmed(raw);
            if same_folded(value, "sim"@) || same_folded(value, "synthetic"@) {
                (ChoiceView::Synthetic, None)
            } else {
                match named_symbol(value) {
                    Some(symbol) => if symbol.len() == 0 {
                        (ChoiceView::Synthetic, Some(ChoiceWarning::NoSymbol))
                    } else {
                        (ChoiceView::Binance(uppercase(symbol)), None)
                    },
                    None => (ChoiceView::Synthetic, Some(ChoiceWarning::Unrecognised)),
                }
            }
        },
    }
}

fn symbol_after(value: &Vec<char>) -> (r: Option<Vec<char>>)
    ensures
        match r {
            Some(symbol) => named_symbol(value@) == Some(symbol@),
            None => named_symbol(value@) is None,
        },
{
    proof {
        reveal_strlit("binance:");
        if value@.len() >= 8 {
            assert(value@.subrange(0, 8) =~= value@.take(8));
            assert(value@.subrange(8, value@.len() as int) =~= value@.skip(8));
        }
    }
    if stands_at(value, 0, "binance:") {
        let rest = string_of(value.as_slice(), 8, value.len());
        Some(trim_chars(rest.as_str()))
    } else if is_same_folded(value, "binance") {
        Some(trim_chars("BTCUSDT"))
    } else {
        None
    }
}

impl FeedChoice {
    /// Read the choice from a setting, and why it was not followed.
    pub fn from_value(raw: Option<&str>) -> (r: (FeedChoice, Option<ChoiceWarning>))
        ensures
            (r.0@, r.1) == chosen(
                match raw {
                    Some(raw) => Some(raw@),
                    None => None,
                },
            ),
    {
        let raw = match raw {
            Some(raw) => raw,
            None => {
                return (FeedChoice::Synthetic, None);
            },
        };
        let value = trim_chars(raw);
        if is_same_folded(&value, "sim") || is_same_folded(&value, "synthetic") {
            return (FeedChoice::Synthetic, None);
        }
        match symbol_after(&value) {
            Some(symbol) => if symbol.len() == 0 {
                (FeedChoice::Synthetic, Some(ChoiceWarning::NoSymbol))
            } else {
                let text = string_of(symbol.as_slice(), 0, symbol.len());
                assert(text@ =~= symbol@);
                (FeedChoice::Binance(text.as_str().to_uppercase()), None)
            },
            None => (FeedChoice::Synthetic, Some(ChoiceWarning::Unrecognised)),
        }
    }

    /// The instrument this choice trades.
    ///
    /// Binance publishes per-symbol filters over REST; until those are
    /// fetched, BTCUSDT's real increments are the default.
    pub fn instrument(&self) -> (r: Instrument)
        ensures
            r.symbol@ == (match self@ {
                ChoiceView::Synthetic => "BTCUSDT"@,
                ChoiceView::Binance(symbol) => symbol,
            }),
            r.venue == (match self@ {
                ChoiceView::Synthetic => Venue::Sim,
                ChoiceView::Binance(_) => Venue::Binance,
            }),
            r.kind is Spot,
            r.tick_size.0 == 1_000_000,
            r.qty_step.0 == 1_000,
            r.price_decimals == places_for(1_000_000),
            r.qty_decimals == places_for(1_000),
            r.contract_multiplier == 1,
    {
        let tick = Price(1_000_000);
        let step = Qty(1_000);
        match self {
            FeedChoice::Synthetic => Instrument::spot("BTCUSDT", Venue::Sim, tick, step),
            FeedChoice::Binance(symbol) => Instrument::spot(
                symbol.as_str(),
                Venue::Binance,
                tick,
                step,
            ),
        }
    }
}

/// Bar rule selection from the UI.
#[derive(Debug, PartialEq, Eq)]
pub enum BarSpecRequest {
    /// Time bars of a given length in seconds.
    Time {
        /// Bar length.
        seconds: i64,
    },
    /// A fixed number of trades per bar.
    Tick {
        /// Trades per bar.
        count: u32,
    },
    /// A volume threshold per bar.
    Volume {
        /// Threshold as a decimal string.
        threshold: String,
    },
    /// A range in ticks.
    Range {
        /// Bar range.
        ticks: i64,
    },
    /// An absolute delta threshold.
    Delta {
        /// Threshold as a decimal string.
        threshold: String,
    },
}

impl BarSpecRequest {
    /// Whether a bar length in seconds is representable in nanoseconds.
    pub open spec fn length_fits(self) -> bool {
        self matches BarSpecRequest::Time { seconds } ==> in_range(seconds * NANOS_PER_SEC)
    }

    /// The rule that a request asks for.
    pub open spec fn rule(self) -> Result<BarSpec, ParseFixedError> {
        match self {
            BarSpecRequest::Time { seconds } => Ok(
                BarSpec::Time { interval_nanos: (seconds * NANOS_PER_SEC) as i64 },
            ),
            BarSpecRequest::Tick { count } => Ok(BarSpec::Tick { count }),
            BarSpecRequest::Volume { threshold } => match parsed(threshold@) {
                Ok(minor) => Ok(BarSpec::Volume { threshold: Qty(minor) }),
                Err(e) => Err(e),
            },
            BarSpecRequest::Range { ticks } => Ok(BarSpec::Range { ticks }),
            BarSpecRequest::Delta { threshold } => match parsed(threshold@) {
                Ok(minor) => Ok(BarSpec::Delta { threshold: Qty(minor) }),
                Err(e) => Err(e),
            },
        }
    }

    /// Whether a bar length in seconds is representable in nanoseconds.
    pub fn has_length(&self) -> (r: bool)
        ensures
            r == self.length_fits(),
    {
        match self {
            BarSpecRequest::Time { seconds } => seconds.checked_mul(NANOS_PER_SEC).is_some(),
            _ => true,
        }
    }

    /// The rule that a request asks for. Sizes arrive as decimal strings rather
    /// than numbers: routing a quantity through a float is exactly the mistake
    /// fixed point exists to prevent.
    pub fn to_spec(&self) -> (r: Result<BarSpec, ParseFixedError>)
        requires
            self.length_fits(),
        ensures
            r == self.rule(),
    {
        match self {
            BarSpecRequest::Time { seconds } => Ok(BarSpec::seconds(*seconds)),
            BarSpecRequest::Tick { count } => Ok(BarSpec::Tick { count: *count }),
            BarSpecRequest::Volume { threshold } => match Qty::parse(threshold.as_str()) {
                Ok(threshold) => Ok(BarSpec::Volume { threshold }),
                Err(e) => Err(e),
            },
            BarSpecRequest::Range { ticks } => Ok(BarSpec::Range { ticks: *ticks }),
            BarSpecRequest::Delta { threshold } => match Qty::parse(threshold.as_str()) {
                Ok(threshold) => Ok(BarSpec::Delta { threshold }),
                Err(e) => Err(e),
            },
        }
    }
}

/// The side that the UI names.
pub fn side_named(name: &str) -> (r: Option<Side>)
    ensures
        r == if name@ == "buy"@ {
            Some(Side::Buy)
        } else if name@ == "sell"@ {
            Some(Side::Sell)
        } else {
            None
        },
{
    if same_text(name, "buy") {
        Some(Side::Buy)
    } else if same_text(name, "sell") {
        Some(Side::Sell)
    } else {
        None
    }
}

} // verus!
