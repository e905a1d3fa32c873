//! The remaining surface of the library, one exact value each.

use std::str::FromStr;

use atas::engine::aggregator::BarSpec;
use atas::engine::bar::Bar;
use atas::engine::cluster::ClusterLadder;
use atas::engine::ladder::LadderSpecError;
use atas::feed::synthetic::{SyntheticFeed, SyntheticStep};
use atas::indicators::scanners::ClusterCriteria;
use atas::indicators::tpo::TpoProfile;
use atas::primitives::fixed::{ParseFixedError, Price, Qty};
use atas::primitives::instrument::{Instrument, Venue};
use atas::primitives::market::{MarketEvent, Side, Trade};
use atas::primitives::time::Ts;
use atas::session::config::{ConfigError, SessionConfig};
use atas::session::dto::ts_nanos;
use atas::session::events::AppEvent;
use atas::session::state::Session;
use atas::store::record::{decode, encode, RECORD_SIZE};
use atas::store::segment::{record_count, whole_len};
use atas::trading::engine::{PaperEngine, TradingConfig};
use atas::trading::position::Position;

fn px(s: &str) -> Price {
    Price::parse(s).unwrap()
}
fn qty(s: &str) -> Qty {
    Qty::parse(s).unwrap()
}
fn instrument() -> Instrument {
    Instrument::spot("TEST", Venue::Sim, px("1"), qty("1"))
}
fn trade(nanos: i64, price: &str, q: &str) -> Trade {
    Trade::new(Ts(nanos), px(price), qty(q), Side::Buy, nanos as u64)
}
fn session() -> Session {
    let config = SessionConfig { bar_spec: BarSpec::Tick { count: 1 }, ..Default::default() };
    Session::new(instrument(), config).unwrap()
}

#[test]
fn numbers_are_read_from_text() {
    assert_eq!(Price::from_str("1.25"), Ok(px("1.25")));
    assert_eq!(Qty::from_str("x"), Err(ParseFixedError::InvalidChar('x')));
    assert_eq!(ts_nanos(Ts(7)), 7);
}

#[test]
fn half_hourly_brackets_last_thirty_minutes() {
    let minute = 60_000_000_000;
    let mut tpo = TpoProfile::half_hourly(px("1"));
    for at in [0, 29 * minute, 30 * minute] {
        tpo.add_bar(&Bar::open(Ts(at), &trade(at, "100", "1"), px("1")));
    }
    tpo.finish();
    assert_eq!(tpo.bracket_count(), 2);
    assert_eq!(tpo.count_at(px("100")), 2);
}

#[test]
fn a_ladder_takes_the_tick_of_its_instrument() {
    let ladder = ClusterLadder::for_instrument(&instrument());
    assert_eq!(ladder.tick_size(), px("1"));
    assert!(ladder.is_empty());
}

#[test]
fn a_fresh_position_is_long_only_after_a_buy() {
    let mut position = Position::new(&instrument());
    assert!(!position.is_long());
    position.apply_fill(Side::Buy, px("100"), qty("1"), qty("0"));
    assert!(position.is_long());
    assert!(!position.is_short());
}

#[test]
fn a_fresh_engine_has_a_total() {
    let engine = PaperEngine::new(instrument(), TradingConfig::default());
    assert!(engine.has_total_pnl());
    assert_eq!(engine.total_pnl(), qty("0"));
    assert_eq!(engine.unrealised(), qty("0"));
}

#[test]
fn rows_can_be_made_taller() {
    let mut session = session();
    session.on_market_event(&MarketEvent::Trade(trade(1, "100", "1")));
    assert_eq!(
        session.set_ticks_per_row(0),
        Err(ConfigError::Ladder(LadderSpecError::EmptyRow))
    );
    assert_eq!(session.bars().len(), 1);
    assert_eq!(session.set_ticks_per_row(4), Ok(()));
    assert_eq!(session.ladder().row_size(), px("4"));
    assert!(session.bars().is_empty());
}

#[test]
fn a_scanner_can_be_set_while_running() {
    let mut session = session();
    session.set_scanner(ClusterCriteria::new().min_volume(qty("5")));
    let shown = session.on_market_event(&MarketEvent::Trade(trade(1, "100", "4")));
    assert!(!shown.iter().any(|e| matches!(e, AppEvent::ScannerHit { .. })));
    let shown = session.on_market_event(&MarketEvent::Trade(trade(2, "100", "5")));
    assert!(shown.iter().any(|e| matches!(e, AppEvent::ScannerHit { stacks: 0, .. })));
    assert_eq!(session.scanner_hits().len(), 1);
}

#[test]
fn a_generator_starts_and_steps_as_it_is_told() {
    let mut feed = SyntheticFeed::new(&instrument(), 1, px("100"))
        .with_book_every(0)
        .starting_at(Ts(500))
        .with_step_nanos(7);
    let mut times = Vec::new();
    for _ in 0..3 {
        if let SyntheticStep::Draw(draw) = feed.next_step() {
            times.push(feed.make_trade(draw, 1).ts.nanos());
        }
    }
    assert_eq!(times, vec![500, 507, 514]);
}

#[test]
fn a_torn_tail_costs_one_record() {
    let trades = [trade(1, "100", "1"), trade(2, "101", "2")];
    let mut file = Vec::new();
    for t in &trades {
        file.extend_from_slice(&encode(t));
    }
    file.extend_from_slice(&encode(&trade(3, "102", "3"))[..39]);
    assert_eq!(record_count(file.len() as u64), 2);
    file.truncate(whole_len(file.len() as u64) as usize);
    for (i, t) in trades.iter().enumerate() {
        let mut record = [0u8; RECORD_SIZE];
        record.copy_from_slice(&file[i * RECORD_SIZE..(i + 1) * RECORD_SIZE]);
        assert_eq!(decode(&record), Ok(*t));
    }
}
