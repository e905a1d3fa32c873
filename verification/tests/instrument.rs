use atas::primitives::fixed::{Price, Qty};
use atas::primitives::instrument::{Instrument, InstrumentKind, Venue};

fn btc() -> Instrument {
    Instrument::spot(
        "BTCUSDT",
        Venue::Binance,
        Price::parse("0.01").unwrap(),
        Qty::parse("0.00001").unwrap(),
    )
}

#[test]
fn infers_display_precision_from_increments() {
    let inst = btc();
    assert_eq!(inst.price_decimals, 2);
    assert_eq!(inst.qty_decimals, 5);

    let es = Instrument::spot(
        "ES",
        Venue::Sim,
        Price::parse("0.25").unwrap(),
        Qty::parse("1").unwrap(),
    );
    assert_eq!(es.price_decimals, 2);
    assert_eq!(es.qty_decimals, 0);
}

#[test]
fn maps_prices_to_ladder_rows() {
    let inst = btc();
    let p = Price::parse("95000.00").unwrap();
    let idx = inst.tick_index(p);
    assert_eq!(inst.price_at(idx), p);
    // One tick up is exactly one row up.
    assert_eq!(inst.price_at(idx + 1), Price::parse("95000.01").unwrap());
}

#[test]
fn detects_off_tick_prices() {
    let inst = btc();
    assert!(inst.is_on_tick(Price::parse("95000.01").unwrap()));
    assert!(!inst.is_on_tick(Price::parse("95000.015").unwrap()));
}

#[test]
fn formats_with_instrument_precision() {
    let inst = btc();
    assert_eq!(inst.format_price(Price::parse("95000.5").unwrap()), "95000.50");
    assert_eq!(inst.format_qty(Qty::parse("0.5").unwrap()), "0.50000");
}

#[test]
fn key_is_venue_qualified() {
    assert_eq!(btc().key(), "binance:BTCUSDT");
}

#[test]
fn settlement_currency_follows_contract_kind() {
    assert!(InstrumentKind::Spot.is_quote_settled());
    assert!(InstrumentKind::LinearPerp.is_quote_settled());
    assert!(!InstrumentKind::InversePerp.is_quote_settled());
}
