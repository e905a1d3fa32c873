use atas::primitives::fixed::{ParseFixedError, Price, Qty, Rounding, SCALE};

#[test]
fn parses_plain_decimals() {
    assert_eq!(Price::parse("1234.5678").unwrap().0, 123_456_780_000);
    assert_eq!(Price::parse("0.00000001").unwrap().0, 1);
    assert_eq!(Price::parse("-0.5").unwrap().0, -50_000_000);
    assert_eq!(Price::parse("42").unwrap().0, 42 * SCALE);
    assert_eq!(Price::parse("  7.25  ").unwrap().0, 725_000_000);
    assert_eq!(Price::parse("+3.5").unwrap().0, 350_000_000);
}

#[test]
fn rejects_malformed_input() {
    assert_eq!(Price::parse(""), Err(ParseFixedError::Empty));
    assert_eq!(Price::parse("-"), Err(ParseFixedError::Empty));
    assert_eq!(
        Price::parse("1.2.3"),
        Err(ParseFixedError::MultipleDecimalPoints)
    );
    assert_eq!(Price::parse("12a"), Err(ParseFixedError::InvalidChar('a')));
}

#[test]
fn rounds_excess_precision_rather_than_failing() {
    // A feed sending 9 decimals must not take the session down.
    assert_eq!(Price::parse("0.000000014").unwrap().0, 1);
    assert_eq!(Price::parse("0.000000016").unwrap().0, 2);
    assert_eq!(Price::parse("0.000000015").unwrap().0, 2);
}

#[test]
fn exact_decimal_arithmetic() {
    // The canonical float failure: 0.1 + 0.2 == 0.3 must hold exactly.
    let a = Price::parse("0.1").unwrap();
    let b = Price::parse("0.2").unwrap();
    assert_eq!(a + b, Price::parse("0.3").unwrap());
}

#[test]
fn round_trips_through_display() {
    for s in ["1234.5678", "0.00000001", "42", "-17.5"] {
        let p = Price::parse(s).unwrap();
        assert_eq!(Price::parse(&p.to_string()).unwrap(), p, "input {s}");
    }
    assert_eq!(Price::parse("42").unwrap().to_string(), "42.0");
    assert_eq!(Price::parse("1234.5678").unwrap().to_string(), "1234.5678");
}

#[test]
fn display_keeps_zeros_in_the_integer_part() {
    // Regression: trimming the whole string turned "100" into "1".
    assert_eq!(Price::parse("100").unwrap().to_string(), "100.0");
    assert_eq!(Price::parse("1000.10").unwrap().to_string(), "1000.1");
    assert_eq!(Price::parse("0").unwrap().to_string(), "0.0");
    assert_eq!(Price::parse("-100").unwrap().to_string(), "-100.0");
    assert_eq!(Price::parse("20500").unwrap().to_string(), "20500.0");
}

#[test]
fn formats_with_fixed_decimals() {
    let p = Price::parse("1234.5").unwrap();
    assert_eq!(p.format(2), "1234.50");
    assert_eq!(p.format(0), "1234");
    assert_eq!(Price::parse("-0.25").unwrap().format(2), "-0.25");
}

#[test]
fn snaps_to_tick_boundaries() {
    let tick = Price::parse("0.25").unwrap();
    let p = Price::parse("5312.63").unwrap();
    assert_eq!(p.round_to_tick(tick, Rounding::Down).to_string(), "5312.5");
    assert_eq!(p.round_to_tick(tick, Rounding::Up).to_string(), "5312.75");
    assert_eq!(
        p.round_to_tick(tick, Rounding::Nearest).to_string(),
        "5312.75"
    );

    // Exact boundaries stay put in every mode.
    let exact = Price::parse("5312.75").unwrap();
    for mode in [Rounding::Down, Rounding::Up, Rounding::Nearest] {
        assert_eq!(exact.round_to_tick(tick, mode), exact, "{mode:?}");
    }
}

#[test]
fn tick_index_is_stable_and_invertible() {
    let tick = Price::parse("0.25").unwrap();
    let a = Price::parse("5312.75").unwrap();
    let b = Price::parse("5312.75").unwrap();
    assert_eq!(a.tick_index(tick), b.tick_index(tick));

    let idx = a.tick_index(tick);
    assert_eq!(Price::from_tick_index(idx, tick), a);

    // Adjacent ticks differ by exactly one index.
    let next = a + tick;
    assert_eq!(next.tick_index(tick), idx + 1);
}

#[test]
fn notional_does_not_overflow_at_scale() {
    let price = Price::parse("95000").unwrap();
    let qty = Qty::parse("12.5").unwrap();
    assert_eq!(price.notional(qty), Qty::parse("1187500").unwrap());
}
