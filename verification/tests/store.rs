//! Behaviour of the tick store, including durability and repair.

use std::cell::RefCell;
use std::collections::BTreeMap;
use std::rc::Rc;

use atas::primitives::fixed::{Price, Qty};
use atas::primitives::market::{Side, Trade};
use atas::primitives::time::Ts;
use atas::store::error::StoreError;
use atas::store::record::{decode_ts, encode, RECORD_SIZE};
use atas::store::segment::{
    parse_segment_name, record_count, segment_name, whole_len, Segment,
};
use atas::store::tick_store::{TickStore, FORMAT_VERSION};

/// The files of a store, held in memory.
#[derive(Clone, Default)]
struct Disk {
    files: Rc<RefCell<BTreeMap<String, Vec<u8>>>>,
}

impl Disk {
    fn write(&self, name: &str, bytes: &[u8]) {
        self.files
            .borrow_mut()
            .insert(name.to_string(), bytes.to_vec());
    }

    fn append(&self, name: &str, bytes: &[u8]) {
        self.files
            .borrow_mut()
            .entry(name.to_string())
            .or_default()
            .extend_from_slice(bytes);
    }

    fn len_of(&self, name: &str) -> u64 {
        self.files.borrow()[name].len() as u64
    }

    fn holds(&self, name: &str) -> bool {
        self.files.borrow().contains_key(name)
    }

    fn record(&self, name: &str, offset: u64) -> [u8; RECORD_SIZE] {
        let at = offset as usize;
        let mut buf = [0u8; RECORD_SIZE];
        buf.copy_from_slice(&self.files.borrow()[name][at..at + RECORD_SIZE]);
        buf
    }
}

/// A tick store over the files in memory.
struct Store {
    disk: Disk,
    store: TickStore,
}

const MARKER: &str = ".atas-tickstore";

impl Store {
    fn open_dir(disk: &Disk) -> Result<Store, StoreError> {
        let marker = disk
            .files
            .borrow()
            .get(MARKER)
            .map(|bytes| String::from_utf8(bytes.clone()).unwrap());
        let occupied = !disk.files.borrow().is_empty();
        if TickStore::check_marker(marker.as_deref(), occupied)? {
            disk.write(MARKER, FORMAT_VERSION.to_string().as_bytes());
        }

        let names: Vec<String> = disk.files.borrow().keys().cloned().collect();
        let mut found = Vec::new();
        for name in names {
            let Some(index) = parse_segment_name(&name) else {
                continue;
            };
            let len = disk.len_of(&name);
            let whole = whole_len(len) as usize;
            disk.files.borrow_mut().get_mut(&name).unwrap().truncate(whole);
            let records = record_count(len);
            let (first, last) = if records > 0 {
                (
                    decode_ts(&disk.record(&name, 0)),
                    decode_ts(&disk.record(&name, (records - 1) * RECORD_SIZE as u64)),
                )
            } else {
                (Ts::epoch(), Ts::epoch())
            };
            found.push(Segment::open(index, records, first, last));
        }
        let (store, removed) = TickStore::open_dir(&found);
        for segment in removed {
            disk.files.borrow_mut().remove(&segment_name(segment.index()));
        }
        Ok(Store {
            disk: disk.clone(),
            store,
        })
    }

    fn with_segment_records(self, records: u64) -> Store {
        Store {
            store: self.store.with_segment_records(records),
            ..self
        }
    }

    fn append_batch(&mut self, trades: &[Trade]) -> Result<(), StoreError> {
        self.store.append_batch(trades)?;
        let mut written = 0;
        while written < trades.len() {
            let write = self.store.next_write(written, trades.len());
            let name = segment_name(write.index);
            if write.create {
                self.disk.write(&name, b"");
            }
            for trade in &trades[write.from..write.to] {
                self.disk.append(&name, &encode(trade));
            }
            self.store.commit(&write, trades);
            written = write.to;
        }
        Ok(())
    }

    fn scan(&self, from: Ts, to: Ts, mut visit: impl FnMut(Trade)) -> Result<(), StoreError> {
        let mut at = 0;
        while let Some(i) = self.store.next_segment(at, from, to) {
            let segment = self.store.segment(i);
            let name = segment_name(segment.index());
            let mut search = segment.lower_bound(from);
            while let Some(position) = search.probe() {
                let offset = segment.record_at(position).unwrap();
                search.observe(decode_ts(&self.disk.record(&name, offset)));
            }
            let mut scan = segment.scan_from(search.found(), to);
            while let Some(position) = scan.position() {
                let offset = segment.record_at(position).unwrap();
                if let Some(trade) = scan.on_record(&self.disk.record(&name, offset))? {
                    visit(trade);
                }
            }
            if scan.reached_end() {
                break;
            }
            at = i + 1;
        }
        Ok(())
    }

    fn read(&self, from: Ts, to: Ts) -> Result<Vec<Trade>, StoreError> {
        let mut out = Vec::new();
        self.scan(from, to, |t| out.push(t))?;
        Ok(out)
    }

    fn append(&mut self, trade: &Trade) -> Result<(), StoreError> {
        self.append_batch(std::slice::from_ref(trade))
    }

    fn read_all(&self) -> Result<Vec<Trade>, StoreError> {
        match self.store.read_all() {
            Some((from, to)) => self.read(from, to),
            None => Ok(Vec::new()),
        }
    }

    fn len(&self) -> u64 {
        self.store.len()
    }

    fn is_empty(&self) -> bool {
        self.store.is_empty()
    }

    fn segment_count(&self) -> usize {
        self.store.segment_count()
    }

    fn first_ts(&self) -> Option<Ts> {
        self.store.first_ts()
    }

    fn last_ts(&self) -> Option<Ts> {
        self.store.last_ts()
    }
}

fn px(s: &str) -> Price {
    Price::parse(s).unwrap()
}
fn qty(s: &str) -> Qty {
    Qty::parse(s).unwrap()
}

/// Trade `i`, at a price that encodes its index so reads are identifiable.
fn trade(i: i64) -> Trade {
    Trade::new(
        Ts::from_millis(1_700_000_000_000 + i),
        Price::from_minor(100_000_000 + i),
        qty("1"),
        if i % 2 == 0 { Side::Buy } else { Side::Sell },
        i as u64,
    )
}

fn seeded(dir: &Disk, count: i64) -> Store {
    let mut store = Store::open_dir(dir).unwrap();
    let trades: Vec<_> = (0..count).map(trade).collect();
    store.append_batch(&trades).unwrap();
    store
}

#[test]
fn writes_and_reads_back_every_trade() {
    let dir = Disk::default();
    let mut store = seeded(&dir, 1_000);

    assert_eq!(store.len(), 1_000);
    assert!(!store.is_empty());
    assert_eq!(store.first_ts(), Some(trade(0).ts));
    assert_eq!(store.last_ts(), Some(trade(999).ts));

    let all = store.read_all().unwrap();
    assert_eq!(all.len(), 1_000);
    for (i, got) in all.iter().enumerate() {
        assert_eq!(*got, trade(i as i64), "record {i}");
    }
}

#[test]
fn an_empty_store_reads_as_empty() {
    let dir = Disk::default();
    let mut store = Store::open_dir(&dir).unwrap();

    assert!(store.is_empty());
    assert_eq!(store.len(), 0);
    assert_eq!(store.first_ts(), None);
    assert_eq!(store.last_ts(), None);
    assert!(store.read_all().unwrap().is_empty());
    assert!(store
        .read(Ts::epoch(), Ts::max_value())
        .unwrap()
        .is_empty());
}

#[test]
fn range_queries_are_half_open() {
    let dir = Disk::default();
    let mut store = seeded(&dir, 100);

    let got = store.read(trade(10).ts, trade(20).ts).unwrap();
    assert_eq!(got.len(), 10, "[10, 20) is ten records");
    assert_eq!(got.first().unwrap().ts, trade(10).ts);
    assert_eq!(got.last().unwrap().ts, trade(19).ts);
}

#[test]
fn range_queries_clamp_to_stored_history() {
    let dir = Disk::default();
    let mut store = seeded(&dir, 100);

    // Entirely before history.
    assert!(store.read(Ts::from_millis(0), trade(0).ts).unwrap().is_empty());
    // Entirely after history.
    assert!(store
        .read(trade(100).ts, trade(200).ts)
        .unwrap()
        .is_empty());
    // Straddling both ends returns everything.
    assert_eq!(
        store.read(Ts::from_millis(0), trade(1_000).ts).unwrap().len(),
        100
    );
    // Inverted and empty ranges yield nothing.
    assert!(store.read(trade(50).ts, trade(10).ts).unwrap().is_empty());
    assert!(store.read(trade(50).ts, trade(50).ts).unwrap().is_empty());
}

#[test]
fn rolls_segments_and_reads_across_them() {
    let dir = Disk::default();
    let mut store = Store::open_dir(&dir)
        .unwrap()
        .with_segment_records(100);

    for i in 0..1_000 {
        store.append(&trade(i)).unwrap();
    }

    assert_eq!(store.segment_count(), 10);
    assert_eq!(store.len(), 1_000);

    // A range spanning three segments must stitch them seamlessly.
    let got = store.read(trade(150).ts, trade(350).ts).unwrap();
    assert_eq!(got.len(), 200);
    assert_eq!(got[0], trade(150));
    assert_eq!(got[199], trade(349));
    assert!(got.windows(2).all(|w| w[0].ts <= w[1].ts));
}

#[test]
fn a_batch_larger_than_a_segment_is_split() {
    let dir = Disk::default();
    let mut store = Store::open_dir(&dir)
        .unwrap()
        .with_segment_records(10);

    let trades: Vec<_> = (0..95).map(trade).collect();
    store.append_batch(&trades).unwrap();

    assert_eq!(store.len(), 95);
    assert_eq!(store.segment_count(), 10, "9 full segments plus a partial");
    assert_eq!(store.read_all().unwrap(), trades);
}

#[test]
fn reopening_recovers_all_history() {
    let dir = Disk::default();

    {
        let mut store = Store::open_dir(&dir).unwrap().with_segment_records(64);
        let trades: Vec<_> = (0..500).map(trade).collect();
        store.append_batch(&trades).unwrap();
        // Dropped without an explicit flush: the Drop impl must not lose data.
    }

    let mut reopened = Store::open_dir(&dir).unwrap();
    assert_eq!(reopened.len(), 500);
    assert_eq!(reopened.first_ts(), Some(trade(0).ts));
    assert_eq!(reopened.last_ts(), Some(trade(499).ts));
    assert_eq!(reopened.read_all().unwrap().len(), 500);
}

#[test]
fn appends_continue_after_reopening() {
    let dir = Disk::default();

    {
        let mut store = Store::open_dir(&dir).unwrap();
        store.append_batch(&(0..50).map(trade).collect::<Vec<_>>()).unwrap();
    }
    {
        let mut store = Store::open_dir(&dir).unwrap();
        store.append_batch(&(50..100).map(trade).collect::<Vec<_>>()).unwrap();
        assert_eq!(store.len(), 100);
    }

    let mut store = Store::open_dir(&dir).unwrap();
    let all = store.read_all().unwrap();
    assert_eq!(all.len(), 100);
    assert_eq!(all[99], trade(99));
}

#[test]
fn rejects_out_of_order_appends() {
    let dir = Disk::default();
    let mut store = seeded(&dir, 10);

    let err = store.append(&trade(5)).unwrap_err();
    assert!(
        matches!(err, StoreError::OutOfOrder { .. }),
        "expected OutOfOrder, got {err:?}"
    );
    assert_eq!(store.len(), 10, "a rejected append must not be written");
}

#[test]
fn a_bad_batch_is_rejected_whole() {
    let dir = Disk::default();
    let mut store = seeded(&dir, 10);

    // Valid, valid, then a step backwards. None of it may land.
    let batch = vec![trade(10), trade(11), trade(3)];
    assert!(store.append_batch(&batch).is_err());
    assert_eq!(store.len(), 10);
    assert_eq!(store.last_ts(), Some(trade(9).ts));
    assert_eq!(store.read_all().unwrap().len(), 10);
}

#[test]
fn equal_timestamps_are_accepted() {
    // Venues stamp a swept book with one millisecond across many prints.
    let dir = Disk::default();
    let mut store = Store::open_dir(&dir).unwrap();

    let same = Ts::from_millis(1_700_000_000_000);
    let batch: Vec<_> = (0..10)
        .map(|i| Trade::new(same, px("100"), qty("1"), Side::Buy, i))
        .collect();
    store.append_batch(&batch).unwrap();

    assert_eq!(store.len(), 10);
    assert_eq!(store.read(same, same + 1).unwrap().len(), 10);
}

#[test]
fn an_empty_batch_is_a_no_op() {
    let dir = Disk::default();
    let mut store = seeded(&dir, 5);
    store.append_batch(&[]).unwrap();
    assert_eq!(store.len(), 5);
}

#[test]
fn repairs_a_torn_final_record() {
    let dir = Disk::default();

    {
        let mut store = Store::open_dir(&dir).unwrap();
        store.append_batch(&(0..20).map(trade).collect::<Vec<_>>()).unwrap();
    }

    // Simulate a process killed mid-write: append half a record.
    let segment = "seg-000000.tick";
    let before = dir.len_of(segment);
    dir.append(segment, &[0xAB; RECORD_SIZE / 2]);
    assert_ne!(dir.len_of(segment), before);

    // Opening must truncate the torn tail and keep every whole record.
    let mut store = Store::open_dir(&dir).unwrap();
    assert_eq!(store.len(), 20);
    assert_eq!(dir.len_of(segment), before);
    assert_eq!(store.read_all().unwrap().len(), 20);

    // And the repaired store is still writable.
    store.append(&trade(100)).unwrap();
    assert_eq!(store.len(), 21);
}

#[test]
fn drops_an_empty_trailing_segment_on_open() {
    let dir = Disk::default();
    {
        let mut store = Store::open_dir(&dir).unwrap();
        store.append_batch(&(0..5).map(trade).collect::<Vec<_>>()).unwrap();
    }
    // A crash right after rolling leaves a zero-length segment behind.
    dir.write("seg-000001.tick", b"");

    let store = Store::open_dir(&dir).unwrap();
    assert_eq!(store.segment_count(), 1);
    assert!(!dir.holds("seg-000001.tick"));
}

#[test]
fn refuses_a_directory_that_is_not_a_store() {
    let dir = Disk::default();
    dir.write("readme.txt", b"unrelated");

    let err = Store::open_dir(&dir).err().unwrap();
    assert!(
        matches!(err, StoreError::NotAStore),
        "expected NotAStore, got {err:?}"
    );
}

#[test]
fn refuses_an_incompatible_format_version() {
    let dir = Disk::default();
    dir.write(MARKER, b"999");

    let err = Store::open_dir(&dir).err().unwrap();
    assert!(
        matches!(
            err,
            StoreError::UnsupportedVersion {
                found: 999,
                expected: 1
            }
        ),
        "got {err:?}"
    );
}

#[test]
fn scan_sees_buffered_records_without_an_explicit_flush() {
    let dir = Disk::default();
    let mut store = Store::open_dir(&dir).unwrap();
    store.append_batch(&(0..10).map(trade).collect::<Vec<_>>()).unwrap();

    // No flush() call: scan must flush for itself or silently miss records.
    assert_eq!(store.read_all().unwrap().len(), 10);
}

#[test]
fn binary_search_lands_exactly_on_boundaries() {
    let dir = Disk::default();
    let mut store = Store::open_dir(&dir)
        .unwrap()
        .with_segment_records(37); // deliberately not a round number

    let trades: Vec<_> = (0..500).map(trade).collect();
    store.append_batch(&trades).unwrap();

    // Probe every offset: an off-by-one in the search shows up immediately.
    for i in 0..500i64 {
        let got = store.read(trade(i).ts, trade(i).ts + 1).unwrap();
        assert_eq!(got.len(), 1, "at {i}");
        assert_eq!(got[0], trade(i), "at {i}");
    }
}

#[test]
fn survives_a_large_history_with_correct_ordering() {
    let dir = Disk::default();
    let mut store = Store::open_dir(&dir)
        .unwrap()
        .with_segment_records(10_000);

    let trades: Vec<_> = (0..250_000).map(trade).collect();
    store.append_batch(&trades).unwrap();

    assert_eq!(store.len(), 250_000);
    assert_eq!(store.segment_count(), 25);

    let mut seen = 0u64;
    let mut previous = Ts::epoch();
    store
        .scan(Ts::epoch(), Ts::max_value(), |t| {
            assert!(t.ts >= previous, "history came back out of order");
            previous = t.ts;
            seen += 1;
        })
        .unwrap();
    assert_eq!(seen, 250_000);

    // A narrow window deep in history must not read the whole file.
    let window = store.read(trade(199_000).ts, trade(199_010).ts).unwrap();
    assert_eq!(window.len(), 10);
    assert_eq!(window[0], trade(199_000));
}
