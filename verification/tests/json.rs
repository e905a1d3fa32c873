//! Reading fields of venue messages.

use atas::feed::error::FeedError;
use atas::feed::json::{int_field, level_array, parse_json, price_field, qty_field, uint_field};
use atas::primitives::fixed::{Price, Qty};


#[test]
fn reads_numbers_whether_quoted_or_not() {
    let v = parse_json(r#"{ "a": 42, "b": "42" }"#).unwrap();
    assert_eq!(int_field(&v, "a", "t").unwrap(), 42);
    assert_eq!(int_field(&v, "b", "t").unwrap(), 42);
    assert_eq!(uint_field(&v, "a", "t").unwrap(), 42);
    assert_eq!(uint_field(&v, "b", "t").unwrap(), 42);
}

#[test]
fn reads_decimals_without_touching_float() {
    let v = parse_json(r#"{ "p": "0.00000001", "q": "1.5" }"#).unwrap();
    assert_eq!(price_field(&v, "p", "t").unwrap(), Price::from_minor(1));
    assert_eq!(qty_field(&v, "q", "t").unwrap(), Qty::parse("1.5").unwrap());
}

#[test]
fn names_the_missing_field() {
    let v = parse_json(r#"{ "a": 1 }"#).unwrap();
    let err = int_field(&v, "b", "ctx").unwrap_err();
    assert!(
        matches!(err, FeedError::MissingField { field: "b", context: "ctx" }),
        "{err:?}"
    );
}

#[test]
fn rejects_unparseable_values() {
    let v = parse_json(r#"{ "a": "not-a-number", "p": "1.2.3" }"#).unwrap();
    assert!(matches!(
        int_field(&v, "a", "t"),
        Err(FeedError::BadField { .. })
    ));
    assert!(matches!(
        price_field(&v, "p", "t"),
        Err(FeedError::BadNumber { .. })
    ));
}

#[test]
fn parses_book_levels() {
    let v = parse_json(r#"{ "b": [["100.50", "3"], ["100.25", "1.5"]] }"#).unwrap();
    let levels = level_array(&v, "b", "t").unwrap();
    assert_eq!(levels.len(), 2);
    assert_eq!(levels[0].0, Price::parse("100.50").unwrap());
    assert_eq!(levels[1].1, Qty::parse("1.5").unwrap());
}

#[test]
fn an_absent_or_null_side_is_empty_not_an_error() {
    let v = parse_json(r#"{ "b": null }"#).unwrap();
    assert!(level_array(&v, "b", "t").unwrap().is_empty());
    assert!(level_array(&v, "a", "t").unwrap().is_empty());
}

#[test]
fn rejects_a_malformed_level() {
    let v = parse_json(r#"{ "b": [["100.50"]] }"#).unwrap();
    assert!(matches!(
        level_array(&v, "b", "t"),
        Err(FeedError::BadField { .. })
    ));
}
