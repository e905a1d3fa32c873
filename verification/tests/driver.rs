//! Pumping a feed into a session.

use atas::engine::aggregator::BarSpec;
use atas::feed::error::FeedError;
use atas::feed::source::Feed;
use atas::primitives::fixed::{Price, Qty};
use atas::primitives::instrument::{Instrument, Venue};
use atas::primitives::market::{MarketEvent, Side, Trade};
use atas::primitives::time::Ts;
use atas::session::config::SessionConfig;
use atas::session::driver::{CollectingSink, SessionDriver};
use atas::session::events::AppEvent;
use atas::session::state::Session;

fn session() -> Session {
    let instrument = Instrument::spot(
        "TEST",
        Venue::Sim,
        Price::parse("0.25").unwrap(),
        Qty::parse("1").unwrap(),
    );
    Session::new(
        instrument,
        SessionConfig {
            bar_spec: BarSpec::Tick { count: 5 },
            ..Default::default()
        },
    )
    .unwrap()
}

/// A feed that always fails, for exercising error handling.
#[derive(Debug, Default)]
struct FailingFeed {
    /// How many errors to produce before going quiet.
    failures: usize,
}

impl Feed for FailingFeed {
    fn next_event(&mut self) -> Result<Option<MarketEvent>, FeedError> {
        if self.failures == 0 {
            return Ok(None);
        }
        self.failures -= 1;
        Err(FeedError::Unhandled("synthetic failure".to_string()))
    }
}

/// A feed of a fixed number of trades.
struct Trades {
    left: u64,
}

impl Feed for Trades {
    fn next_event(&mut self) -> Result<Option<MarketEvent>, FeedError> {
        if self.left == 0 {
            return Ok(None);
        }
        self.left -= 1;
        Ok(Some(MarketEvent::Trade(Trade::new(
            Ts::from_millis(1_000 - self.left as i64),
            Price::parse("100.00").unwrap(),
            Qty::parse("1").unwrap(),
            Side::Buy,
            self.left,
        ))))
    }
}

#[test]
fn a_feed_error_is_survived_not_fatal() {
    // A single malformed frame must not take the session down: the next
    // one is very likely fine, and an app that dies on one bad message is
    // worse than one that skips it.
    let feed = FailingFeed { failures: 3 };
    let mut driver = SessionDriver::new(session(), feed, CollectingSink::default());

    let report = driver.pump(10).unwrap();
    assert_eq!(driver.stats().errors, 3);
    assert!(report.drained, "the feed goes quiet after its failures");
    assert!(driver.last_error().is_some());
    assert!(driver.sink().events.is_empty(), "nothing valid arrived");
}

#[test]
fn errors_do_not_consume_the_budget_silently() {
    // Each failed read still counts as work, or a permanently failing feed
    // would spin inside one pump call for ever.
    let feed = FailingFeed { failures: 1_000 };
    let mut driver = SessionDriver::new(session(), feed, CollectingSink::default());

    let report = driver.pump(16).unwrap();
    assert_eq!(report.consumed, 16);
    assert!(report.budget_exhausted);
    assert!(!report.drained);
    assert_eq!(driver.stats().errors, 16);
}

#[test]
fn a_pass_is_bounded_and_publishes_every_event_in_order() {
    let mut driver = SessionDriver::new(session(), Trades { left: 7 }, CollectingSink::default());

    let first = driver.pump(5).unwrap();
    assert_eq!(first.consumed, 5);
    assert!(first.budget_exhausted);
    // A tape row and the forming bar for each of four trades, a tape row and
    // the closed bar for the fifth.
    assert_eq!(first.emitted, 10);
    let second = driver.pump(5).unwrap();
    assert_eq!(second.consumed, 2);
    assert!(second.drained);
    assert_eq!(driver.stats().consumed, 7);
    assert_eq!(driver.stats().emitted, 14);

    let events = &driver.sink().events;
    assert_eq!(events.len(), 14);
    assert!(matches!(events[0], AppEvent::TapeRow(_)));
    assert!(matches!(events[1], AppEvent::BarUpdated(_)));
    assert!(matches!(events[9], AppEvent::BarClosed(_)));
    assert_eq!(driver.session().bars().len(), 1);
}

#[test]
fn commands_reach_the_session_through_the_driver() {
    let mut driver = SessionDriver::new(session(), Trades { left: 1 }, CollectingSink::default());
    driver.pump(1).unwrap();
    driver.session_mut().reset_session();
    assert!(driver.session().forming_bar().is_none());
    assert_eq!(driver.stats().consumed, 1);
}

#[test]
fn a_finite_feed_runs_to_completion() {
    let mut driver = SessionDriver::new(session(), Trades { left: 900 }, CollectingSink::default());
    let report = driver.run_to_completion().unwrap();
    assert_eq!(report.consumed, 900);
    assert_eq!(report.emitted, 1_800);
    assert!(report.drained);
    assert!(!report.budget_exhausted);
    assert_eq!(driver.session().bars().len(), 180);

    let mut driver =
        SessionDriver::new(session(), FailingFeed { failures: 5_000 }, CollectingSink::default());
    let report = driver.run_to_completion().unwrap();
    assert_eq!(report.consumed, 5_000);
    assert_eq!(driver.stats().errors, 5_000);
}
