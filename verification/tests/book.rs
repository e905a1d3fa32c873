use atas::primitives::book::{BookError, BookSide, OrderBook};
use atas::primitives::fixed::{Price, Qty};
use atas::primitives::time::Ts;

fn px(s: &str) -> Price {
    Price::parse(s).unwrap()
}

fn qty(s: &str) -> Qty {
    Qty::parse(s).unwrap()
}

fn seeded() -> OrderBook {
    let mut book = OrderBook::new();
    book.apply_snapshot(
        Ts::from_secs(1),
        &[(px("99.98"), qty("5")), (px("99.99"), qty("3"))],
        &[(px("100.01"), qty("4")), (px("100.02"), qty("7"))],
        10,
    );
    book
}

#[test]
fn snapshot_establishes_the_touch() {
    let book = seeded();
    assert!(book.is_initialised());
    assert_eq!(book.best_bid().unwrap().price, px("99.99"));
    assert_eq!(book.best_ask().unwrap().price, px("100.01"));
    assert_eq!(book.spread().unwrap(), px("0.02"));
    assert_eq!(book.mid().unwrap(), px("100.00"));
    assert_eq!(book.level_count(), (2, 2));
}

#[test]
fn snapshot_drops_zero_quantity_levels() {
    let mut book = OrderBook::new();
    book.apply_snapshot(
        Ts::from_secs(1),
        &[(px("99.99"), qty("3")), (px("99.98"), qty("0"))],
        &[(px("100.01"), qty("4"))],
        1,
    );
    assert_eq!(book.level_count(), (1, 1));
}

#[test]
fn delta_updates_and_removes_levels() {
    let mut book = seeded();
    book.apply_delta(
        Ts::from_secs(2),
        &[(px("99.99"), qty("8"))],          // resize
        &[(px("100.01"), qty("0"))],         // remove
        11,
    )
    .unwrap();

    assert_eq!(book.qty_at(BookSide::Bid, px("99.99")), qty("8"));
    assert_eq!(book.best_ask().unwrap().price, px("100.02"));
    assert_eq!(book.qty_at(BookSide::Ask, px("100.01")), Qty::zero());
    assert_eq!(book.sequence(), 11);
    assert_eq!(book.ts(), Ts::from_secs(2));
}

#[test]
fn delta_adds_new_levels() {
    let mut book = seeded();
    book.apply_delta(Ts::from_secs(2), &[(px("99.97"), qty("2"))], &[], 11)
        .unwrap();
    assert_eq!(book.level_count(), (3, 2));
    // A worse bid must not displace the best.
    assert_eq!(book.best_bid().unwrap().price, px("99.99"));
}

#[test]
fn rejects_stale_and_uninitialised_updates() {
    let mut book = seeded();
    assert_eq!(
        book.apply_delta(Ts::from_secs(2), &[], &[], 10),
        Err(BookError::StaleSequence {
            received: 10,
            current: 10
        })
    );
    // A rejected update must leave the book untouched.
    assert_eq!(book.sequence(), 10);
    assert_eq!(book.ts(), Ts::from_secs(1));

    let mut fresh = OrderBook::new();
    assert_eq!(
        fresh.apply_delta(Ts::from_secs(1), &[], &[], 1),
        Err(BookError::NotInitialised)
    );
}

#[test]
fn venues_without_sequences_skip_the_ordering_check() {
    let mut book = seeded();
    book.apply_delta(Ts::from_secs(2), &[(px("99.99"), qty("9"))], &[], 0)
        .unwrap();
    assert_eq!(book.qty_at(BookSide::Bid, px("99.99")), qty("9"));
    // Sequence is left as it was rather than reset to zero.
    assert_eq!(book.sequence(), 10);
}

#[test]
fn detects_a_crossed_book() {
    let mut book = seeded();
    assert!(!book.is_crossed());
    book.apply_delta(Ts::from_secs(2), &[(px("100.05"), qty("1"))], &[], 11)
        .unwrap();
    assert!(book.is_crossed());
}

#[test]
fn returns_depth_in_priority_order() {
    let book = seeded();
    let bids = book.bids(10);
    assert_eq!(bids[0].price, px("99.99"));
    assert_eq!(bids[1].price, px("99.98"));

    let asks = book.asks(10);
    assert_eq!(asks[0].price, px("100.01"));
    assert_eq!(asks[1].price, px("100.02"));

    // Depth caps the result.
    assert_eq!(book.bids(1).len(), 1);
}

#[test]
fn aggregates_depth_quantity() {
    let book = seeded();
    assert_eq!(book.depth_qty(BookSide::Bid, 2), qty("8"));
    assert_eq!(book.depth_qty(BookSide::Ask, 2), qty("11"));
    assert_eq!(book.depth_qty(BookSide::Bid, 1), qty("3"));
}

#[test]
fn imbalance_is_signed_and_bounded() {
    let book = seeded();
    // 8 bid vs 11 ask.
    let sides = book.imbalance(2).unwrap();
    let (bid, ask) = (sides.bid.minor() as f64, sides.ask.minor() as f64);
    let imb = (bid - ask) / (bid + ask);
    assert!((imb - (8.0 - 11.0) / 19.0).abs() < 1e-12);
    assert!((-1.0..=1.0).contains(&imb));

    assert_eq!(OrderBook::new().imbalance(5), None);
}

#[test]
fn clear_invalidates_the_book() {
    let mut book = seeded();
    book.clear();
    assert!(!book.is_initialised());
    assert_eq!(book.level_count(), (0, 0));
    assert_eq!(book.best_bid(), None);
    // And a delta is refused until a fresh snapshot arrives.
    assert_eq!(
        book.apply_delta(Ts::from_secs(3), &[], &[], 99),
        Err(BookError::NotInitialised)
    );
}
