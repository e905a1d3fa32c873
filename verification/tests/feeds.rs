//! Behaviour of the network-free feeds.

use std::cell::RefCell;
use std::collections::BTreeMap;
use std::rc::Rc;

use atas::engine::aggregator::{Aggregator, BarSpec};
use atas::feed::error::FeedError;
use atas::feed::replay::ReplayFeed;
use atas::feed::source::{drain, Feed};
use atas::feed::synthetic::{SyntheticFeed, SyntheticStep};
use atas::primitives::fixed::{Price, Qty};
use atas::primitives::instrument::{Instrument, Venue};
use atas::primitives::market::{MarketEvent, Side, Trade};
use atas::primitives::time::Ts;
use atas::store::error::StoreError;
use atas::store::record::{decode_ts, encode, RECORD_SIZE};
use atas::store::segment::{
    parse_segment_name, record_count, segment_name, whole_len, Segment,
};
use atas::store::tick_store::{TickStore, FORMAT_VERSION};

/// The files of a store, held in memory.
#[derive(Clone, Default)]
struct Disk {
    files: Rc<RefCell<BTreeMap<String, Vec<u8>>>>,
}

impl Disk {
    fn write(&self, name: &str, bytes: &[u8]) {
        self.files
            .borrow_mut()
            .insert(name.to_string(), bytes.to_vec());
    }

    fn append(&self, name: &str, bytes: &[u8]) {
        self.files
            .borrow_mut()
            .entry(name.to_string())
            .or_default()
            .extend_from_slice(bytes);
    }

    fn len_of(&self, name: &str) -> u64 {
        self.files.borrow()[name].len() as u64
    }

    fn record(&self, name: &str, offset: u64) -> [u8; RECORD_SIZE] {
        let at = offset as usize;
        let mut buf = [0u8; RECORD_SIZE];
        buf.copy_from_slice(&self.files.borrow()[name][at..at + RECORD_SIZE]);
        buf
    }
}

/// A tick store over the files in memory.
struct Store {
    disk: Disk,
    store: TickStore,
}

const MARKER: &str = ".atas-tickstore";

impl Store {
    fn open_dir(disk: &Disk) -> Result<Store, StoreError> {
        let marker = disk
            .files
            .borrow()
            .get(MARKER)
            .map(|bytes| String::from_utf8(bytes.clone()).unwrap());
        let occupied = !disk.files.borrow().is_empty();
        if TickStore::check_marker(marker.as_deref(), occupied)? {
            disk.write(MARKER, FORMAT_VERSION.to_string().as_bytes());
        }

        let names: Vec<String> = disk.files.borrow().keys().cloned().collect();
        let mut found = Vec::new();
        for name in names {
            let Some(index) = parse_segment_name(&name) else {
                continue;
            };
            let len = disk.len_of(&name);
            let whole = whole_len(len) as usize;
            disk.files.borrow_mut().get_mut(&name).unwrap().truncate(whole);
            let records = record_count(len);
            let (first, last) = if records > 0 {
                (
                    decode_ts(&disk.record(&name, 0)),
                    decode_ts(&disk.record(&name, (records - 1) * RECORD_SIZE as u64)),
                )
            } else {
                (Ts::epoch(), Ts::epoch())
            };
            found.push(Segment::open(index, records, first, last));
        }
        let (store, removed) = TickStore::open_dir(&found);
        for segment in removed {
            disk.files.borrow_mut().remove(&segment_name(segment.index()));
        }
        Ok(Store {
            disk: disk.clone(),
            store,
        })
    }

    fn append_batch(&mut self, trades: &[Trade]) -> Result<(), StoreError> {
        self.store.append_batch(trades)?;
        let mut written = 0;
        while written < trades.len() {
            let write = self.store.next_write(written, trades.len());
            let name = segment_name(write.index);
            if write.create {
                self.disk.write(&name, b"");
            }
            for trade in &trades[write.from..write.to] {
                self.disk.append(&name, &encode(trade));
            }
            self.store.commit(&write, trades);
            written = write.to;
        }
        Ok(())
    }

    fn scan(&self, from: Ts, to: Ts, mut visit: impl FnMut(Trade)) -> Result<(), StoreError> {
        let mut at = 0;
        while let Some(i) = self.store.next_segment(at, from, to) {
            let segment = self.store.segment(i);
            let name = segment_name(segment.index());
            let mut search = segment.lower_bound(from);
            while let Some(position) = search.probe() {
                let offset = segment.record_at(position).unwrap();
                search.observe(decode_ts(&self.disk.record(&name, offset)));
            }
            let mut scan = segment.scan_from(search.found(), to);
            while let Some(position) = scan.position() {
                let offset = segment.record_at(position).unwrap();
                if let Some(trade) = scan.on_record(&self.disk.record(&name, offset))? {
                    visit(trade);
                }
            }
            if scan.reached_end() {
                break;
            }
            at = i + 1;
        }
        Ok(())
    }

    fn read(&self, from: Ts, to: Ts) -> Result<Vec<Trade>, StoreError> {
        let mut out = Vec::new();
        self.scan(from, to, |t| out.push(t))?;
        Ok(out)
    }
}

/// A replay that reads its windows from a store.
struct Replay {
    store: Store,
    feed: ReplayFeed,
}

impl Replay {
    fn new(store: Store, from: Ts, to: Ts) -> Replay {
        Replay {
            store,
            feed: ReplayFeed::new(from, to),
        }
    }

    fn all(store: Store) -> Replay {
        let feed = ReplayFeed::all(store.store.first_ts(), store.store.last_ts());
        Replay { store, feed }
    }

    fn with_chunk_nanos(self, nanos: i64) -> Replay {
        Replay {
            feed: self.feed.with_chunk_nanos(nanos),
            ..self
        }
    }

    fn progress(&self) -> f64 {
        let progress = self.feed.progress();
        progress.done as f64 / progress.total as f64
    }

    fn emitted(&self) -> u64 {
        self.feed.emitted()
    }

    fn is_finished(&self) -> bool {
        self.feed.is_finished()
    }

    fn window(&self) -> (Ts, Ts) {
        self.feed.window()
    }
}

impl Feed for Replay {
    fn next_event(&mut self) -> Result<Option<MarketEvent>, FeedError> {
        self.feed.begin_fill();
        while let Some((from, to)) = self.feed.next_window() {
            let trades = self.store.read(from, to).map_err(FeedError::Store)?;
            self.feed.fill(trades);
        }
        Ok(self.feed.next_event())
    }
}

/// A synthetic feed with its heavy-tailed sizes.
struct Synthetic(SyntheticFeed);

impl Synthetic {
    fn new(instrument: &Instrument, seed: u64, start: Price) -> Synthetic {
        Synthetic(SyntheticFeed::new(instrument, seed, start))
    }

    fn with_limit(self, count: u64) -> Synthetic {
        Synthetic(self.0.with_limit(count))
    }

    fn with_book_every(self, n: u64) -> Synthetic {
        Synthetic(self.0.with_book_every(n))
    }

    fn emitted(&self) -> u64 {
        self.0.emitted()
    }
}

fn size_of(draw: u64) -> i64 {
    let unit = (draw >> 20) as f64 / (u64::MAX >> 20) as f64;
    1 + (unit * unit * unit * 400.0) as i64
}

impl Feed for Synthetic {
    fn next_event(&mut self) -> Result<Option<MarketEvent>, FeedError> {
        match self.0.next_step() {
            SyntheticStep::Done => Ok(None),
            SyntheticStep::Book(event) => Ok(Some(event)),
            SyntheticStep::Draw(draw) => Ok(Some(MarketEvent::Trade(
                self.0.make_trade(draw, size_of(draw)),
            ))),
        }
    }
}

fn px(s: &str) -> Price {
    Price::parse(s).unwrap()
}
fn qty(s: &str) -> Qty {
    Qty::parse(s).unwrap()
}
fn instrument() -> Instrument {
    Instrument::spot("BTCUSDT", Venue::Binance, px("0.01"), qty("0.00001"))
}

fn trade(i: i64) -> Trade {
    Trade::new(
        Ts::from_millis(1_700_000_000_000 + i * 10),
        Price::from_minor(9_500_000_000_000 + i * 1_000_000),
        qty("1"),
        if i % 3 == 0 { Side::Sell } else { Side::Buy },
        i as u64,
    )
}

fn seeded_store(dir: &Disk, count: i64) -> Store {
    let mut store = Store::open_dir(dir).unwrap();
    store
        .append_batch(&(0..count).map(trade).collect::<Vec<_>>())
        .unwrap();
    store
}

// --- Replay ---------------------------------------------------------------

#[test]
fn replays_stored_history_in_order() {
    let dir = Disk::default();
    let store = seeded_store(&dir, 500);
    let mut feed = Replay::all(store);

    let events = drain(&mut feed).unwrap();
    assert_eq!(events.len(), 500, "every stored trade must be replayed");

    let mut previous = Ts::epoch();
    for (i, event) in events.iter().enumerate() {
        let MarketEvent::Trade(t) = event else {
            panic!("replay emits trades, got {event:?}");
        };
        assert_eq!(*t, trade(i as i64), "event {i}");
        assert!(t.ts >= previous, "replay came back out of order at {i}");
        previous = t.ts;
    }
    assert_eq!(feed.emitted(), 500);
    assert!(feed.is_finished());
}

#[test]
fn replay_respects_its_window() {
    let dir = Disk::default();
    let store = seeded_store(&dir, 200);
    let mut feed = Replay::new(store, trade(50).ts, trade(60).ts);

    let events = drain(&mut feed).unwrap();
    assert_eq!(events.len(), 10, "[50, 60) is ten trades");

    let MarketEvent::Trade(first) = &events[0] else {
        panic!()
    };
    let MarketEvent::Trade(last) = &events[9] else {
        panic!()
    };
    assert_eq!(*first, trade(50));
    assert_eq!(*last, trade(59));
    assert_eq!(feed.window(), (trade(50).ts, trade(60).ts));
}

#[test]
fn replay_chunk_size_does_not_change_the_output() {
    // The window size is an I/O detail; varying it must not add, drop or
    // reorder a single event.
    let dir = Disk::default();
    let reference = {
        let mut store = Store::open_dir(&dir).unwrap();
        store
            .append_batch(&(0..1_000).map(trade).collect::<Vec<_>>())
            .unwrap();
        drain(&mut Replay::all(store)).unwrap()
    };
    assert_eq!(reference.len(), 1_000);

    for chunk in [1, 1_000, 1_000_000, 10_000_000_000] {
        let store = Store::open_dir(&dir).unwrap();
        let mut feed = Replay::all(store).with_chunk_nanos(chunk);
        let events = drain(&mut feed).unwrap();
        assert_eq!(events, reference, "chunk size {chunk} changed the stream");
    }
}

#[test]
fn replay_skips_long_quiet_gaps_quickly() {
    // Regression: an empty window used to advance by exactly one chunk, so a
    // chunk small relative to the replay span looped effectively forever.
    // Real history has overnight gaps that hit the same path.
    let dir = Disk::default();
    let mut store = Store::open_dir(&dir).unwrap();

    let early = Trade::new(Ts::from_secs(0), px("95000.00"), qty("1"), Side::Buy, 1);
    // Twelve hours later, at a one-nanosecond chunk: 4.3e13 empty windows if
    // the skip is linear.
    let late = Trade::new(Ts::from_secs(43_200), px("95001.00"), qty("2"), Side::Sell, 2);
    store.append_batch(&[early, late]).unwrap();

    let started = std::time::Instant::now();
    let mut feed = Replay::all(store).with_chunk_nanos(1);
    let events = drain(&mut feed).unwrap();

    assert_eq!(events.len(), 2);
    assert!(
        started.elapsed() < std::time::Duration::from_secs(5),
        "skipping a 12-hour gap took {:?}",
        started.elapsed()
    );
}

#[test]
fn replaying_an_empty_store_yields_nothing() {
    let dir = Disk::default();
    let store = Store::open_dir(&dir).unwrap();
    let mut feed = Replay::all(store);

    assert!(drain(&mut feed).unwrap().is_empty());
    assert!(feed.is_finished());
    assert_eq!(feed.emitted(), 0);
}

#[test]
fn replay_progress_advances_to_completion() {
    let dir = Disk::default();
    let store = seeded_store(&dir, 300);
    let mut feed = Replay::all(store).with_chunk_nanos(50_000_000);

    assert_eq!(feed.progress(), 0.0);
    feed.next_event().unwrap().expect("first event");
    let partway = feed.progress();
    assert!(partway > 0.0 && partway <= 1.0, "got {partway}");

    drain(&mut feed).unwrap();
    assert_eq!(feed.progress(), 1.0);
}

#[test]
fn an_inverted_replay_window_is_empty() {
    let dir = Disk::default();
    let store = seeded_store(&dir, 100);
    let mut feed = Replay::new(store, trade(80).ts, trade(20).ts);
    assert!(drain(&mut feed).unwrap().is_empty());
    assert_eq!(feed.progress(), 1.0, "a degenerate window reads as done");
}

#[test]
fn replay_drives_the_aggregator_end_to_end() {
    // The point of replay: the same engine code runs off disk as off a socket.
    let dir = Disk::default();
    let store = seeded_store(&dir, 1_000);
    let mut feed = Replay::all(store);
    let mut agg = Aggregator::new(&instrument(), BarSpec::Tick { count: 100 }).unwrap();

    let mut bars = 0;
    let mut volume = Qty::zero();
    while let Some(event) = feed.next_event().unwrap() {
        if let MarketEvent::Trade(t) = event {
            for bar in agg.on_trade(&t) {
                bars += 1;
                volume = volume + bar.volume;
            }
        }
    }
    if let Some(bar) = agg.flush() {
        bars += 1;
        volume = volume + bar.volume;
    }

    assert_eq!(bars, 10, "1000 trades at 100 per bar");
    assert_eq!(volume, qty("1000"));
    assert_eq!(agg.dropped_out_of_order(), 0);
    // Delta must survive the round trip through disk unchanged.
    let expected: Qty = (0..1_000).fold(Qty::zero(), |sum, i| sum + trade(i).signed_qty());
    assert_eq!(agg.cum_delta(), expected);
}

// --- Synthetic ------------------------------------------------------------

#[test]
fn synthetic_is_reproducible_for_a_seed() {
    let make = || {
        let mut feed = Synthetic::new(&instrument(), 42, px("95000.00")).with_limit(500);
        drain(&mut feed).unwrap()
    };
    assert_eq!(make(), make(), "same seed must give the same stream");
}

#[test]
fn different_seeds_diverge() {
    let mut a = Synthetic::new(&instrument(), 1, px("95000.00")).with_limit(200);
    let mut b = Synthetic::new(&instrument(), 2, px("95000.00")).with_limit(200);
    assert_ne!(drain(&mut a).unwrap(), drain(&mut b).unwrap());
}

#[test]
fn a_zero_seed_still_produces_a_varying_stream() {
    // Zero is a fixed point of xorshift; the constructor must substitute.
    let mut feed = Synthetic::new(&instrument(), 0, px("95000.00")).with_limit(100);
    let events = drain(&mut feed).unwrap();
    assert_eq!(events.len(), 100);

    let prices: std::collections::HashSet<_> = events
        .iter()
        .filter_map(|e| match e {
            MarketEvent::Trade(t) => Some(t.price),
            _ => None,
        })
        .collect();
    assert!(prices.len() > 1, "a zero seed produced a frozen price");
}

#[test]
fn synthetic_respects_its_limit_then_stops() {
    let mut feed = Synthetic::new(&instrument(), 7, px("95000.00")).with_limit(37);
    assert_eq!(drain(&mut feed).unwrap().len(), 37);
    assert_eq!(feed.emitted(), 37);
    assert!(feed.next_event().unwrap().is_none(), "stays exhausted");
}

#[test]
fn synthetic_timestamps_are_monotonic_and_on_tick() {
    let inst = instrument();
    let mut feed = Synthetic::new(&inst, 99, px("95000.00")).with_limit(2_000);
    let events = drain(&mut feed).unwrap();

    let mut previous = Ts::epoch();
    let mut trades = 0;
    for event in &events {
        assert!(event.ts() >= previous, "timestamps went backwards");
        previous = event.ts();
        if let MarketEvent::Trade(t) = event {
            trades += 1;
            assert!(t.qty.is_positive(), "a trade had non-positive size");
            assert!(
                inst.is_on_tick(t.price),
                "generated an off-tick price {:?}",
                t.price
            );
        }
    }
    assert!(trades > 0);
}

#[test]
fn synthetic_emits_books_on_the_configured_cadence() {
    let mut feed = Synthetic::new(&instrument(), 3, px("95000.00"))
        .with_book_every(10)
        .with_limit(100);
    let events = drain(&mut feed).unwrap();

    let books = events
        .iter()
        .filter(|e| matches!(e, MarketEvent::BookSnapshot { .. }))
        .count();
    assert_eq!(books, 10, "one book per ten events");

    // Books must be usable: sorted sides that do not cross.
    for event in &events {
        if let MarketEvent::BookSnapshot { bids, asks, .. } = event {
            let best_bid = bids.iter().map(|(p, _)| *p).max().unwrap();
            let best_ask = asks.iter().map(|(p, _)| *p).min().unwrap();
            assert!(best_bid < best_ask, "generated a crossed book");
            assert!(bids.iter().all(|(_, q)| q.is_positive()));
        }
    }
}

#[test]
fn book_output_can_be_disabled() {
    let mut feed = Synthetic::new(&instrument(), 5, px("95000.00"))
        .with_book_every(0)
        .with_limit(50);
    let events = drain(&mut feed).unwrap();
    assert_eq!(events.len(), 50);
    assert!(events.iter().all(|e| e.is_trade()));
}

#[test]
fn synthetic_price_stays_near_its_anchor() {
    // The walk is mean-reverting; over a long run it must not drift away or
    // reach zero, which would make it useless for UI development.
    let anchor = px("95000.00");
    let mut feed = Synthetic::new(&instrument(), 11, anchor)
        .with_book_every(0)
        .with_limit(100_000);
    let events = drain(&mut feed).unwrap();

    let mut low = Price::max_value();
    let mut high = Price::min_value();
    for event in &events {
        if let MarketEvent::Trade(t) = event {
            low = low.min(t.price);
            high = high.max(t.price);
            assert!(t.price.is_positive(), "price walked to or below zero");
        }
    }
    let drift = (high - anchor).max(anchor - low);
    assert!(
        drift < px("500.00"),
        "walked {drift:?} from the anchor over 100k trades"
    );
}

#[test]
fn synthetic_feeds_the_aggregator_without_dropped_trades() {
    let inst = instrument();
    let mut feed = Synthetic::new(&inst, 21, px("95000.00")).with_limit(20_000);
    let mut agg = Aggregator::new(&inst, BarSpec::seconds(1)).unwrap();

    let mut bars = 0;
    while let Some(event) = feed.next_event().unwrap() {
        if let MarketEvent::Trade(t) = event {
            bars += agg.on_trade(&t).len();
        }
    }
    assert!(bars > 0, "20k synthetic trades produced no bars");
    assert_eq!(
        agg.dropped_out_of_order(),
        0,
        "the generator emitted out-of-order trades"
    );
}

#[test]
fn synthetic_output_can_be_stored_and_replayed_identically() {
    // Round trip: generate, persist, replay. Any encoding bug shows up here.
    let dir = Disk::default();
    let inst = instrument();

    let mut feed = Synthetic::new(&inst, 77, px("95000.00"))
        .with_book_every(0)
        .with_limit(5_000);
    let generated: Vec<Trade> = drain(&mut feed)
        .unwrap()
        .into_iter()
        .filter_map(|e| match e {
            MarketEvent::Trade(t) => Some(t),
            _ => None,
        })
        .collect();

    let mut store = Store::open_dir(&dir).unwrap();
    store.append_batch(&generated).unwrap();

    let replayed: Vec<Trade> = drain(&mut Replay::all(store))
        .unwrap()
        .into_iter()
        .filter_map(|e| match e {
            MarketEvent::Trade(t) => Some(t),
            _ => None,
        })
        .collect();

    assert_eq!(replayed, generated, "storage round trip altered the stream");
}
