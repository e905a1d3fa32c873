//! The depth handshake.

use atas::feed::sync::{DepthSynchroniser, SyncAction, SyncError, SyncState};


/// Payloads are just labels; the synchroniser never looks inside them.
fn sync() -> DepthSynchroniser<&'static str> {
    DepthSynchroniser::new()
}

#[test]
fn buffers_until_the_snapshot_arrives() {
    let mut s = sync();
    assert_eq!(s.state(), SyncState::AwaitingSnapshot);

    assert_eq!(s.on_delta(10, 12, "a").0, SyncAction::Buffer);
    assert_eq!(s.on_delta(13, 15, "b").0, SyncAction::Buffer);
    assert_eq!(s.buffered(), 2);
}

#[test]
fn a_snapshot_drops_what_it_already_contains() {
    let mut s = sync();
    s.on_delta(1, 5, "old");
    s.on_delta(6, 10, "boundary");
    s.on_delta(11, 15, "new");

    // Snapshot at 10 already contains everything up to and including 10.
    let apply = s.on_snapshot(10).unwrap();
    assert_eq!(apply, vec!["new"], "only updates past the snapshot apply");
    assert_eq!(s.state(), SyncState::Live);
    assert_eq!(s.last_applied(), 15);
    assert_eq!(s.buffered(), 0);
}

#[test]
fn a_snapshot_mid_update_still_applies_that_update() {
    // The update straddling the snapshot must be applied: the snapshot
    // contains only part of its range.
    let mut s = sync();
    s.on_delta(6, 12, "straddles");
    let apply = s.on_snapshot(10).unwrap();
    assert_eq!(apply, vec!["straddles"]);
    assert_eq!(s.last_applied(), 12);
}

#[test]
fn buffered_updates_are_applied_in_sequence_order() {
    let mut s = sync();
    // Delivered out of order, as a reordering proxy could produce.
    s.on_delta(21, 25, "third");
    s.on_delta(11, 15, "first");
    s.on_delta(16, 20, "second");

    let apply = s.on_snapshot(10).unwrap();
    assert_eq!(apply, vec!["first", "second", "third"]);
}

#[test]
fn a_snapshot_older_than_the_buffer_is_rejected() {
    // Applying it would leave a hole between the snapshot and the first
    // buffered update, and the book would be silently wrong.
    let mut s = sync();
    s.on_delta(100, 110, "later");

    let err = s.on_snapshot(50).unwrap_err();
    assert_eq!(
        err,
        SyncError::SnapshotTooOld {
            snapshot: 50,
            first_buffered: 100
        }
    );
    assert_eq!(s.state(), SyncState::AwaitingSnapshot, "must retry");
    assert_eq!(s.resyncs(), 1);
}

#[test]
fn an_empty_buffer_accepts_any_snapshot() {
    let mut s = sync();
    assert!(s.on_snapshot(999).unwrap().is_empty());
    assert_eq!(s.state(), SyncState::Live);
    assert_eq!(s.last_applied(), 999);
}

#[test]
fn live_updates_that_join_on_are_applied() {
    let mut s = sync();
    s.on_snapshot(100).unwrap();

    let (action, payload) = s.on_delta(101, 105, "next");
    assert_eq!(action, SyncAction::Apply);
    assert_eq!(payload, Some("next"));
    assert_eq!(s.last_applied(), 105);

    // Contiguous continuation.
    assert_eq!(s.on_delta(106, 110, "more").0, SyncAction::Apply);
    assert_eq!(s.last_applied(), 110);
}

#[test]
fn an_overlapping_update_is_applied_not_dropped() {
    // Venues may resend a range that starts before the book's position;
    // as long as it reaches past it, it carries new information.
    let mut s = sync();
    s.on_snapshot(100).unwrap();
    assert_eq!(s.on_delta(98, 104, "overlaps").0, SyncAction::Apply);
    assert_eq!(s.last_applied(), 104);
}

#[test]
fn a_duplicate_update_is_discarded_without_a_resync() {
    // REST and websocket overlap at startup routinely. This is normal
    // traffic, not a gap, and must not tear the book down.
    let mut s = sync();
    s.on_snapshot(100).unwrap();
    s.on_delta(101, 110, "applied");

    assert_eq!(s.on_delta(101, 110, "again").0, SyncAction::Discard);
    assert_eq!(s.on_delta(95, 99, "ancient").0, SyncAction::Discard);
    assert_eq!(s.state(), SyncState::Live, "duplicates are not gaps");
    assert_eq!(s.resyncs(), 0);
    assert_eq!(s.last_applied(), 110);
}

#[test]
fn a_gap_forces_a_resync_and_latches() {
    let mut s = sync();
    s.on_snapshot(100).unwrap();
    s.on_delta(101, 105, "ok");

    // 107 skips 106: updates were lost.
    assert_eq!(s.on_delta(107, 110, "gap").0, SyncAction::Resync);
    assert_eq!(s.state(), SyncState::Gapped);
    assert_eq!(s.resyncs(), 1);

    // Nothing may be applied until a fresh snapshot, even a perfect one.
    assert_eq!(s.on_delta(106, 108, "would fit").0, SyncAction::Resync);
    assert_eq!(s.resyncs(), 1, "the gap is only counted once");
}

#[test]
fn restart_returns_to_the_handshake() {
    let mut s = sync();
    s.on_snapshot(100).unwrap();
    s.on_delta(107, 110, "gap");
    assert_eq!(s.state(), SyncState::Gapped);

    s.restart();
    assert_eq!(s.state(), SyncState::AwaitingSnapshot);
    assert_eq!(s.last_applied(), 0);
    assert_eq!(s.on_delta(1, 2, "fresh").0, SyncAction::Buffer);
}

#[test]
fn a_snapshot_that_never_arrives_does_not_leak() {
    let mut s = DepthSynchroniser::<&str>::new().with_buffer_limit(4);
    for _ in 0..4 {
        assert_eq!(s.on_delta(1, 2, "x").0, SyncAction::Buffer);
    }
    // The fifth gives up rather than buffering without bound.
    assert_eq!(s.on_delta(1, 2, "x").0, SyncAction::Resync);
    assert_eq!(s.buffered(), 0);
    assert_eq!(s.resyncs(), 1);
}

#[test]
fn a_full_handshake_then_a_gap_then_recovery() {
    let mut s = sync();

    // Buffer while the snapshot request is in flight.
    s.on_delta(98, 100, "stale");
    s.on_delta(101, 103, "bridge");
    let apply = s.on_snapshot(100).unwrap();
    assert_eq!(apply, vec!["bridge"]);
    assert_eq!(s.state(), SyncState::Live);

    // Run cleanly.
    assert_eq!(s.on_delta(104, 106, "a").0, SyncAction::Apply);

    // Lose updates.
    assert_eq!(s.on_delta(200, 210, "jump").0, SyncAction::Resync);

    // Recover with a fresh handshake.
    s.restart();
    s.on_delta(215, 218, "buffered");
    let apply = s.on_snapshot(214).unwrap();
    assert_eq!(apply, vec!["buffered"]);
    assert_eq!(s.state(), SyncState::Live);
    assert_eq!(s.last_applied(), 218);
}
