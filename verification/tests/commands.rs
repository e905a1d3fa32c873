//! Settings and requests in plain values.

use atas::engine::aggregator::BarSpec;
use atas::primitives::fixed::{ParseFixedError, Price, Qty};
use atas::primitives::instrument::{InstrumentKind, Venue};
use atas::primitives::market::Side;
use atas::session::commands::{side_named, BarSpecRequest, ChoiceWarning, FeedChoice};

#[test]
fn an_unset_feed_is_the_simulator() {
    assert_eq!(FeedChoice::from_value(None), (FeedChoice::Synthetic, None));
    assert_eq!(FeedChoice::from_value(Some(" SIM ")), (FeedChoice::Synthetic, None));
    assert_eq!(FeedChoice::from_value(Some("Synthetic")), (FeedChoice::Synthetic, None));
}

#[test]
fn a_venue_is_named_with_or_without_a_symbol() {
    assert_eq!(
        FeedChoice::from_value(Some("Binance")),
        (FeedChoice::Binance("BTCUSDT".to_string()), None)
    );
    assert_eq!(
        FeedChoice::from_value(Some("  binance: ethusdt ")),
        (FeedChoice::Binance("ETHUSDT".to_string()), None)
    );
}

#[test]
fn a_setting_that_cannot_be_followed_falls_back_to_the_simulator() {
    assert_eq!(
        FeedChoice::from_value(Some("binance:")),
        (FeedChoice::Synthetic, Some(ChoiceWarning::NoSymbol))
    );
    assert_eq!(
        FeedChoice::from_value(Some("kraken:XBT")),
        (FeedChoice::Synthetic, Some(ChoiceWarning::Unrecognised))
    );
    // The prefix is matched as it is written.
    assert_eq!(
        FeedChoice::from_value(Some("BINANCE:ETHUSDT")),
        (FeedChoice::Synthetic, Some(ChoiceWarning::Unrecognised))
    );
}

#[test]
fn a_choice_names_its_instrument() {
    let simulated = FeedChoice::Synthetic.instrument();
    assert_eq!(simulated.key(), "sim:BTCUSDT");
    assert_eq!(simulated.venue, Venue::Sim);

    let live = FeedChoice::Binance("ETHUSDT".to_string()).instrument();
    assert_eq!(live.key(), "binance:ETHUSDT");
    assert_eq!(live.kind, InstrumentKind::Spot);
    assert_eq!(live.tick_size, Price::parse("0.01").unwrap());
    assert_eq!(live.qty_step, Qty::parse("0.00001").unwrap());
    assert_eq!((live.price_decimals, live.qty_decimals), (2, 5));
    assert_eq!(live.contract_multiplier, 1);
}

#[test]
fn requests_become_bar_rules() {
    assert_eq!(
        BarSpecRequest::Time { seconds: 5 }.to_spec(),
        Ok(BarSpec::Time { interval_nanos: 5_000_000_000 })
    );
    assert_eq!(
        BarSpecRequest::Tick { count: 9 }.to_spec(),
        Ok(BarSpec::Tick { count: 9 })
    );
    assert_eq!(
        BarSpecRequest::Volume { threshold: "1.5".to_string() }.to_spec(),
        Ok(BarSpec::Volume { threshold: Qty::from_minor(150_000_000) })
    );
    assert_eq!(
        BarSpecRequest::Range { ticks: 4 }.to_spec(),
        Ok(BarSpec::Range { ticks: 4 })
    );
    assert_eq!(
        BarSpecRequest::Delta { threshold: "2".to_string() }.to_spec(),
        Ok(BarSpec::Delta { threshold: Qty::from_units(2) })
    );
    assert_eq!(
        BarSpecRequest::Delta { threshold: "2x".to_string() }.to_spec(),
        Err(ParseFixedError::InvalidChar('x'))
    );
}

#[test]
fn a_length_beyond_the_clock_is_recognised() {
    assert!(BarSpecRequest::Time { seconds: 9_223_372_036 }.has_length());
    assert!(!BarSpecRequest::Time { seconds: 9_223_372_037 }.has_length());
    assert!(BarSpecRequest::Tick { count: 0 }.has_length());
}

#[test]
fn sides_are_named_exactly() {
    assert_eq!(side_named("buy"), Some(Side::Buy));
    assert_eq!(side_named("sell"), Some(Side::Sell));
    assert_eq!(side_named("Buy"), None);
    assert_eq!(side_named(""), None);
}
