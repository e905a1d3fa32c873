//! Order book synchronisation.
//!
//! A websocket depth stream is useless on its own: it sends *changes*, and a
//! client that starts applying them to an empty book produces depth that looks
//! plausible and is wrong. Every venue therefore specifies a handshake: open
//! the stream, buffer, fetch a REST snapshot, discard the buffered updates the
//! snapshot already contains, and verify the remainder joins on exactly.
//!
//! That handshake is a state machine with several ways to be subtly wrong, and
//! all of them fail silently: the book simply drifts.

use vstd::prelude::*;

verus! {

/// What the caller should do with an update.
#[derive(Debug, Clone, Copy, PartialEq, Eq, Structural)]
pub enum SyncAction {
    /// Hold it until the snapshot arrives.
    Buffer,
    /// Apply it to the book now.
    Apply,
    /// The snapshot already includes it. Drop it.
    Discard,
    /// A gap was detected. Discard the book and start the handshake again.
    Resync,
}

/// Where the handshake has got to.
#[derive(Debug, Clone, Copy, PartialEq, Eq, Structural)]
pub enum SyncState {
    /// Buffering updates while waiting for the REST snapshot.
    AwaitingSnapshot,
    /// Snapshot applied and updates joining on cleanly.
    Live,
    /// A gap was detected; nothing may be applied until a fresh snapshot.
    Gapped,
}

/// Why a snapshot could not be reconciled with the buffered updates.
#[derive(Debug, Clone, Copy, PartialEq, Eq, Structural)]
pub enum SyncError {
    /// The snapshot predates the buffered updates, leaving a hole between
    /// them. Fetch a newer snapshot.
    SnapshotTooOld {
        /// Sequence id the snapshot was taken at.
        snapshot: u64,
        /// First sequence id still buffered.
        first_buffered: u64,
    },
}

/// How far a handshake has come. An update is its first id, its final id and
/// its payload.
#[verifier::ext_equal]
pub struct SyncView<T> {
    pub state: SyncState,
    pub last_applied: u64,
    pub buffer: Seq<(u64, u64, T)>,
    pub buffer_limit: nat,
    pub resyncs: u64,
}

/// A handshake that waits for its first snapshot.
pub open spec fn fresh_sync<T>() -> SyncView<T> {
    SyncView {
        state: SyncState::AwaitingSnapshot,
        last_applied: 0,
        buffer: Seq::<(u64, u64, T)>::empty(),
        buffer_limit: 4096,
        resyncs: 0,
    }
}

/// The updates that a snapshot does not contain yet.
pub open spec fn beyond<T>(buffer: Seq<(u64, u64, T)>, snapshot: u64) -> Seq<(u64, u64, T)>
    decreases buffer.len(),
{
    if buffer.len() == 0 {
        buffer
    } else if buffer.last().1 > snapshot {
        beyond(buffer.drop_last(), snapshot).push(buffer.last())
    } else {
        beyond(buffer.drop_last(), snapshot)
    }
}

/// An update put in its place: behind every one that does not start later.
pub open spec fn placed_update<T>(updates: Seq<(u64, u64, T)>, update: (u64, u64, T)) -> Seq<
    (u64, u64, T),
>
    decreases updates.len(),
{
    if updates.len() == 0 || updates.last().0 <= update.0 {
        updates.push(update)
    } else {
        placed_update(updates.drop_last(), update).push(updates.last())
    }
}

/// Updates in the order in which they start; those that start together keep
/// their order.
pub open spec fn in_sequence<T>(updates: Seq<(u64, u64, T)>) -> Seq<(u64, u64, T)>
    decreases updates.len(),
{
    if updates.len() == 0 {
        updates
    } else {
        placed_update(in_sequence(updates.drop_last()), updates.last())
    }
}

/// The updates that have to follow a snapshot.
pub open spec fn pending_after<T>(buffer: Seq<(u64, u64, T)>, snapshot: u64) -> Seq<(u64, u64, T)> {
    in_sequence(beyond(buffer, snapshot))
}

/// The highest id that a snapshot and the updates after it reach.
pub open spec fn reached<T>(snapshot: u64, updates: Seq<(u64, u64, T)>) -> u64
    decreases updates.len(),
{
    if updates.len() == 0 {
        snapshot
    } else {
        let before = reached(snapshot, updates.drop_last());
        if updates.last().1 > before {
            updates.last().1
        } else {
            before
        }
    }
}

impl<T> SyncView<T> {
    /// What to do with an update.
    pub open spec fn action(self, first_id: u64, final_id: u64) -> SyncAction {
        match self.state {
            SyncState::AwaitingSnapshot => if self.buffer.len() >= self.buffer_limit {
                SyncAction::Resync
            } else {
                SyncAction::Buffer
            },
            SyncState::Gapped => SyncAction::Resync,
            SyncState::Live => if final_id <= self.last_applied {
                SyncAction::Discard
            } else if first_id > self.last_applied + 1 {
                SyncAction::Resync
            } else {
                SyncAction::Apply
            },
        }
    }

    /// Whether an update makes the handshake start over. A gap that is already
    /// known is not counted again.
    pub open spec fn starts_over(self, first_id: u64, final_id: u64) -> bool {
        self.action(first_id, final_id) is Resync && !(self.state is Gapped)
    }

    /// The handshake after an update.
    pub open spec fn offered(self, first_id: u64, final_id: u64, payload: T) -> SyncView<T> {
        match self.action(first_id, final_id) {
            SyncAction::Buffer => SyncView {
                buffer: self.buffer.push((first_id, final_id, payload)),
                ..self
            },
            SyncAction::Apply => SyncView { last_applied: final_id, ..self },
            SyncAction::Discard => self,
            SyncAction::Resync => match self.state {
                SyncState::AwaitingSnapshot => SyncView {
                    buffer: Seq::<(u64, u64, T)>::empty(),
                    resyncs: (self.resyncs + 1) as u64,
                    ..self
                },
                SyncState::Gapped => self,
                SyncState::Live => SyncView {
                    state: SyncState::Gapped,
                    resyncs: (self.resyncs + 1) as u64,
                    ..self
                },
            },
        }
    }

    /// Whether there is a hole between a snapshot and the buffered updates, or
    /// among them.
    pub open spec fn has_hole(self, snapshot: u64) -> bool {
        hole_in(pending_after(self.buffer, snapshot), snapshot)
    }

    /// The handshake after a snapshot.
    pub open spec fn snapped(self, snapshot: u64) -> SyncView<T> {
        let pending = pending_after(self.buffer, snapshot);
        if self.has_hole(snapshot) {
            SyncView {
                state: SyncState::AwaitingSnapshot,
                buffer: Seq::<(u64, u64, T)>::empty(),
                resyncs: (self.resyncs + 1) as u64,
                ..self
            }
        } else {
            SyncView {
                state: SyncState::Live,
                last_applied: reached(snapshot, pending),
                buffer: Seq::<(u64, u64, T)>::empty(),
                ..self
            }
        }
    }
}

/// Whether an update starts later than right behind a snapshot and the updates
/// before it.
pub open spec fn opens_hole<T>(updates: Seq<(u64, u64, T)>, snapshot: u64, i: int) -> bool {
    updates[i].0 > reached(snapshot, updates.take(i)) + 1
}

/// Whether any of some updates does not join on.
pub open spec fn hole_in<T>(updates: Seq<(u64, u64, T)>, snapshot: u64) -> bool {
    exists|i: int| 0 <= i < updates.len() && #[trigger] opens_hole(updates, snapshot, i)
}

/// The payloads of some updates.
pub open spec fn payloads<T>(updates: Seq<(u64, u64, T)>) -> Seq<T> {
    Seq::new(updates.len(), |i: int| updates[i].2)
}

/// Drives a venue's depth handshake.
///
/// `T` is the venue's own delta payload; the synchroniser only ever looks at
/// the sequence range, never the contents.
#[derive(Debug, Clone)]
pub struct DepthSynchroniser<T> {
    state: SyncState,
    /// Final sequence id of the last update applied.
    last_applied: u64,
    buffer: Vec<(u64, u64, T)>,
    /// Cap on buffered updates, so a snapshot that never arrives cannot
    /// consume memory without bound.
    buffer_limit: usize,
    resyncs: u64,
}

impl<T> View for DepthSynchroniser<T> {
    type V = SyncView<T>;

    closed spec fn view(&self) -> SyncView<T> {
        SyncView {
            state: self.state,
            last_applied: self.last_applied,
            buffer: self.buffer@,
            buffer_limit: self.buffer_limit as nat,
            resyncs: self.resyncs,
        }
    }
}

impl<T> Default for DepthSynchroniser<T> {
    fn default() -> (r: Self)
        ensures
            r@ == fresh_sync::<T>(),
    {
        DepthSynchroniser::new()
    }
}

fn place_update<T>(updates: &mut Vec<(u64, u64, T)>, update: (u64, u64, T))
    ensures
        final(updates)@ == placed_update(old(updates)@, update),
{
    let ghost before = updates@;
    let mut at: usize = updates.len();
    assert(before.take(at as int) =~= before);
    assert(before.skip(at as int) =~= Seq::<(u64, u64, T)>::empty());
    assert(placed_update(before.take(at as int), update) + before.skip(at as int)
        =~= placed_update(before, update));
    while at > 0 && updates[at - 1].0 > update.0
        invariant
            updates@ == before,
            at <= before.len(),
            placed_update(before.take(at as int), update) + before.skip(at as int)
                == placed_update(before, update),
        decreases at,
    {
        let ghost here = before.take(at as int);
        assert(here.drop_last() =~= before.take(at - 1));
        assert(here.last() == before[at - 1]);
        assert(placed_update(before.take(at - 1), update) + before.skip(at - 1)
            =~= placed_update(here, update) + before.skip(at as int));
        at -= 1;
    }
    proof {
        let here = before.take(at as int);
        if at > 0 {
            assert(here.last() == before[at - 1]);
        }
        assert(placed_update(here, update) == here.push(update));
        assert(before.insert(at as int, update) =~= here.push(update) + before.skip(at as int));
    }
    updates.insert(at, update);
}

impl<T> DepthSynchroniser<T> {
    /// A synchroniser waiting for its first snapshot.
    pub fn new() -> (r: Self)
        ensures
            r@ == fresh_sync::<T>(),
    {
        DepthSynchroniser {
            state: SyncState::AwaitingSnapshot,
            last_applied: 0,
            buffer: Vec::new(),
            buffer_limit: 4_096,
            resyncs: 0,
        }
    }

    /// Set how many updates may be buffered before the handshake is abandoned.
    pub fn with_buffer_limit(self, limit: usize) -> (r: Self)
        requires
            limit > 0,
        ensures
            r@ == (SyncView { buffer_limit: limit as nat, ..self@ }),
    {
        DepthSynchroniser { buffer_limit: limit, ..self }
    }

    /// Current state.
    pub fn state(&self) -> (r: SyncState)
        ensures
            r == self@.state,
    {
        self.state
    }

    /// How many updates are buffered.
    pub fn buffered(&self) -> (r: usize)
        ensures
            r == self@.buffer.len(),
    {
        self.buffer.len()
    }

    /// Final sequence id of the last applied update.
    pub fn last_applied(&self) -> (r: u64)
        ensures
            r == self@.last_applied,
    {
        self.last_applied
    }

    /// How many times a gap has forced a resync. Persistently non-zero means
    /// the connection is dropping updates.
    pub fn resyncs(&self) -> (r: u64)
        ensures
            r == self@.resyncs,
    {
        self.resyncs
    }

    /// Offer an update covering sequence ids `[first_id, final_id]`.
    ///
    /// While awaiting a snapshot the payload is buffered and
    /// [`SyncAction::Buffer`] returned. Once live, an update that joins on
    /// exactly returns [`SyncAction::Apply`]; one the book already contains
    /// returns [`SyncAction::Discard`]; a gap returns [`SyncAction::Resync`]
    /// and moves to [`SyncState::Gapped`].
    pub fn on_delta(&mut self, first_id: u64, final_id: u64, payload: T) -> (r: (
        SyncAction,
        Option<T>,
    ))
        requires
            old(self)@.starts_over(first_id, final_id) ==> old(self)@.resyncs < u64::MAX,
        ensures
            r.0 == old(self)@.action(first_id, final_id),
            r.1 == if r.0 is Apply {
                Some(payload)
            } else {
                None
            },
            final(self)@ == old(self)@.offered(first_id, final_id, payload),
    {
        let ghost before = self@;
        match self.state {
            SyncState::AwaitingSnapshot => {
                if self.buffer.len() >= self.buffer_limit {
                    // The snapshot is not coming. Start over rather than
                    // buffering for ever.
                    self.buffer.clear();
                    self.resyncs = self.resyncs + 1;
                    assert(self@ =~= before.offered(first_id, final_id, payload));
                    return (SyncAction::Resync, None);
                }
                self.buffer.push((first_id, final_id, payload));
                assert(self@ =~= before.offered(first_id, final_id, payload));
                (SyncAction::Buffer, None)
            },
            SyncState::Gapped => (SyncAction::Resync, None),
            SyncState::Live => {
                // Entirely behind the book: a duplicate from stream overlap.
                if final_id <= self.last_applied {
                    return (SyncAction::Discard, None);
                }
                // Must begin at or before the next id the book expects.
                // A later start means updates were dropped in between.
                if first_id > self.last_applied + 1 {
                    self.state = SyncState::Gapped;
                    self.resyncs = self.resyncs + 1;
                    return (SyncAction::Resync, None);
                }
                self.last_applied = final_id;
                (SyncAction::Apply, Some(payload))
            },
        }
    }

    /// Apply a snapshot at `last_update_id`, returning the buffered updates
    /// that must now be applied, in order.
    ///
    /// Returns `Err` when the buffer cannot bridge to the snapshot: the
    /// snapshot is older than everything buffered, or updates are missing among
    /// the buffered ones, so the caller must fetch a newer one rather than apply
    /// a book with a hole in it.
    pub fn on_snapshot(&mut self, last_update_id: u64) -> (r: Result<Vec<T>, SyncError>)
        requires
            old(self)@.has_hole(last_update_id) ==> old(self)@.resyncs < u64::MAX,
        ensures
            final(self)@ == old(self)@.snapped(last_update_id),
            if old(self)@.has_hole(last_update_id) {
                r == Err::<Vec<T>, SyncError>(
                    SyncError::SnapshotTooOld {
                        snapshot: last_update_id,
                        first_buffered: pending_after(old(self)@.buffer, last_update_id)[0].0,
                    },
                )
            } else {
                r matches Ok(updates) && updates@ == payloads(
                    pending_after(old(self)@.buffer, last_update_id),
                )
            },
    {
        let ghost before = self@;
        let ghost all = self.buffer@;
        // Take the buffer apart from the back, so that it can be walked from
        // the front.
        let mut reversed: Vec<(u64, u64, T)> = Vec::new();
        assert(all.skip(all.len() as int).reverse() =~= reversed@);
        while self.buffer.len() > 0
            invariant
                self.buffer@.len() <= all.len(),
                self.buffer@ == all.take(self.buffer@.len() as int),
                reversed@ == all.skip(self.buffer@.len() as int).reverse(),
                self@ == (SyncView { buffer: self.buffer@, ..before }),
            decreases self.buffer@.len(),
        {
            let ghost n = self.buffer@.len();
            if let Some(update) = self.buffer.pop() {
                reversed.push(update);
            }
            assert(self.buffer@ =~= all.take(n - 1));
            assert(reversed@ =~= all.skip(n - 1).reverse());
        }
        assert(reversed@ =~= all.reverse());
        // Drop everything the snapshot already contains.
        let mut pending: Vec<(u64, u64, T)> = Vec::new();
        assert(all.take(0) =~= Seq::<(u64, u64, T)>::empty());
        while reversed.len() > 0
            invariant
                reversed@.len() <= all.len(),
                reversed@ == all.skip(all.len() - reversed@.len()).reverse(),
                pending@ == pending_after(
                    all.take(all.len() - reversed@.len()),
                    last_update_id,
                ),
            decreases reversed@.len(),
        {
            let ghost k = all.len() - reversed@.len();
            let ghost next = all.take(k + 1);
            assert(next.drop_last() =~= all.take(k));
            assert(reversed@.last() == all[k]);
            if let Some(update) = reversed.pop() {
                assert(update == all[k]);
                assert(reversed@ =~= all.skip(k + 1).reverse());
                if update.1 > last_update_id {
                    proof {
                        let kept = beyond(all.take(k), last_update_id);
                        assert(beyond(next, last_update_id) == kept.push(update));
                        assert(beyond(next, last_update_id).drop_last() =~= kept);
                    }
                    place_update(&mut pending, update);
                }
            }
        }
        assert(all.take(all.len() as int) =~= all);
        // Every surviving update must cover the id right after the snapshot and
        // the updates before it, or there is a hole in the book.
        let mut highest: u64 = last_update_id;
        let ghost todo = pending@;
        let mut i: usize = 0;
        assert(todo.take(0) =~= Seq::<(u64, u64, T)>::empty());
        while i < pending.len()
            invariant
                i <= pending@.len(),
                todo == pending@,
                before == old(self)@,
                todo == pending_after(before.buffer, last_update_id),
                highest == reached(last_update_id, todo.take(i as int)),
                forall|k: int| 0 <= k < i ==> !#[trigger] opens_hole(todo, last_update_id, k),
                self@ == (SyncView { buffer: Seq::<(u64, u64, T)>::empty(), ..before }),
                before.has_hole(last_update_id) ==> before.resyncs < u64::MAX,
            decreases pending@.len() - i,
        {
            assert(todo.take(i + 1).drop_last() =~= todo.take(i as int));
            let first_id: u64 = pending[i].0;
            if first_id > 0 && first_id - 1 > highest {
                assert(opens_hole(todo, last_update_id, i as int));
                assert(before.has_hole(last_update_id));
                self.state = SyncState::AwaitingSnapshot;
                self.resyncs = self.resyncs + 1;
                assert(self@ =~= before.snapped(last_update_id));
                return Err(
                    SyncError::SnapshotTooOld {
                        snapshot: last_update_id,
                        first_buffered: pending[0].0,
                    },
                );
            }
            assert(!opens_hole(todo, last_update_id, i as int));
            if pending[i].1 > highest {
                highest = pending[i].1;
            }
            i += 1;
        }
        assert(todo.take(i as int) =~= todo);
        assert(!before.has_hole(last_update_id));
        self.state = SyncState::Live;
        self.last_applied = highest;
        assert(self@ =~= before.snapped(last_update_id));
        let out = strip(pending);
        Ok(out)
    }

    /// Begin the handshake again, discarding buffered state.
    ///
    /// Call after a reconnect, or after acting on [`SyncAction::Resync`].
    pub fn restart(&mut self)
        ensures
            final(self)@ == old(self)@.begun_again(),
    {
        self.state = SyncState::AwaitingSnapshot;
        self.last_applied = 0;
        self.buffer.clear();
    }
}

/// Keep the payloads alone.
fn strip<T>(updates: Vec<(u64, u64, T)>) -> (r: Vec<T>)
    ensures
        r@ == payloads(updates@),
{
    let ghost all = updates@;
    let mut rest = updates;
    let mut reversed: Vec<T> = Vec::new();
    assert(reversed@ =~= payloads(all.skip(all.len() as int)).reverse());
    while rest.len() > 0
        invariant
            rest@.len() <= all.len(),
            rest@ == all.take(rest@.len() as int),
            reversed@ == payloads(all.skip(rest@.len() as int)).reverse(),
        decreases rest@.len(),
    {
        let ghost n = rest@.len();
        if let Some((_, _, payload)) = rest.pop() {
            reversed.push(payload);
        }
        assert(rest@ =~= all.take(n - 1));
        assert(reversed@ =~= payloads(all.skip(n - 1)).reverse());
    }
    assert(all.skip(0) =~= all);
    let ghost backwards = reversed@;
    let mut out: Vec<T> = Vec::new();
    while reversed.len() > 0
        invariant
            reversed@.len() <= backwards.len(),
            backwards == payloads(all).reverse(),
            reversed@ == backwards.take(reversed@.len() as int),
            out@ == payloads(all).take(backwards.len() - reversed@.len()),
        decreases reversed@.len(),
    {
        let ghost n = reversed@.len();
        if let Some(payload) = reversed.pop() {
            out.push(payload);
        }
        assert(reversed@ =~= backwards.take(n - 1));
        assert(out@ =~= payloads(all).take(backwards.len() - (n - 1)));
    }
    assert(out@ =~= payloads(all));
    out
}

/// A gap latches: once it is known, every update asks for a resync and nothing
/// is applied until a fresh snapshot.
pub proof fn law_a_gap_latches<T>(sync: SyncView<T>, first_id: u64, final_id: u64, payload: T)
    requires
        sync.state is Gapped,
    ensures
        sync.action(first_id, final_id) is Resync,
        sync.offered(first_id, final_id, payload) == sync,
{
}

/// A live book never goes back and never skips: an update that is applied ends
/// beyond the book and starts no later than right behind it, and one that the
/// book already contains is no gap.
pub proof fn law_applied_updates_join_on<T>(
    sync: SyncView<T>,
    first_id: u64,
    final_id: u64,
    payload: T,
)
    requires
        sync.state is Live,
    ensures
        sync.action(first_id, final_id) is Apply ==> first_id <= sync.last_applied + 1 && final_id
            > sync.last_applied && sync.offered(first_id, final_id, payload).last_applied
            == final_id,
        sync.offered(first_id, final_id, payload).last_applied >= sync.last_applied,
        final_id <= sync.last_applied ==> sync.action(first_id, final_id) is Discard
            && sync.offered(first_id, final_id, payload) == sync,
{
}

/// The buffer never grows past its limit.
pub proof fn law_the_buffer_is_bounded<T>(
    sync: SyncView<T>,
    first_id: u64,
    final_id: u64,
    payload: T,
)
    requires
        sync.buffer.len() <= sync.buffer_limit,
    ensures
        sync.offered(first_id, final_id, payload).buffer.len() <= sync.buffer_limit,
{
}

/// Whether an update carries an id.
pub open spec fn covers<T>(update: (u64, u64, T), id: int) -> bool {
    update.0 <= id <= update.1
}

proof fn lemma_covered<T>(updates: Seq<(u64, u64, T)>, snapshot: u64, id: int)
    requires
        !hole_in(updates, snapshot),
        snapshot < id <= reached(snapshot, updates),
    ensures
        exists|i: int| 0 <= i < updates.len() && #[trigger] covers(updates[i], id),
    decreases updates.len(),
{
    if updates.len() > 0 {
        let less = updates.drop_last();
        let last = updates.len() - 1;
        assert(updates.take(last) =~= less);
        assert(!opens_hole(updates, snapshot, last));
        if id <= reached(snapshot, less) {
            assert forall|i: int| 0 <= i < less.len() implies !#[trigger] opens_hole(
                less,
                snapshot,
                i,
            ) by {
                assert(less.take(i) =~= updates.take(i));
                assert(!opens_hole(updates, snapshot, i));
            }
            lemma_covered(less, snapshot, id);
            let i = choose|i: int| 0 <= i < less.len() && #[trigger] covers(less[i], id);
            assert(covers(updates[i], id));
        } else {
            assert(covers(updates[last], id));
        }
    }
}

/// What a snapshot releases joins on without a gap: a handshake goes live only
/// where every id from right behind the snapshot up to the last one applied is
/// carried by a released update. Otherwise nothing is kept and another snapshot
/// is awaited.
pub proof fn law_released_updates_leave_no_gap<T>(sync: SyncView<T>, snapshot: u64)
    ensures
        sync.snapped(snapshot).buffer.len() == 0,
        sync.snapped(snapshot).state is Live <==> !sync.has_hole(snapshot),
        sync.has_hole(snapshot) ==> sync.snapped(snapshot).state is AwaitingSnapshot,
        sync.snapped(snapshot).state is Live ==> forall|id: int|
            snapshot < id <= sync.snapped(snapshot).last_applied ==> #[trigger] is_covered(
                pending_after(sync.buffer, snapshot),
                id,
            ),
{
    if !sync.has_hole(snapshot) {
        let pending = pending_after(sync.buffer, snapshot);
        assert forall|id: int| snapshot < id <= sync.snapped(snapshot).last_applied implies
            #[trigger] is_covered(pending, id) by {
            lemma_covered(pending, snapshot, id);
        }
    }
}

/// Whether one of some updates carries an id.
pub open spec fn is_covered<T>(updates: Seq<(u64, u64, T)>, id: int) -> bool {
    exists|i: int| 0 <= i < updates.len() && #[trigger] covers(updates[i], id)
}

/// A call that changes a handshake.
pub enum SyncCall<T> {
    Delta(u64, u64, T),
    Snapshot(u64),
    Restart,
}

impl<T> SyncView<T> {
    /// The handshake when it begins again.
    pub open spec fn begun_again(self) -> SyncView<T> {
        SyncView {
            state: SyncState::AwaitingSnapshot,
            last_applied: 0,
            buffer: Seq::<(u64, u64, T)>::empty(),
            ..self
        }
    }

    /// The handshake after a call.
    pub open spec fn called(self, call: SyncCall<T>) -> SyncView<T> {
        match call {
            SyncCall::Delta(first_id, final_id, payload) => self.offered(
                first_id,
                final_id,
                payload,
            ),
            SyncCall::Snapshot(snapshot) => self.snapped(snapshot),
            SyncCall::Restart => self.begun_again(),
        }
    }

    /// The handshake after several calls in turn.
    pub open spec fn after_calls(self, calls: Seq<SyncCall<T>>) -> SyncView<T>
        decreases calls.len(),
    {
        if calls.len() == 0 {
            self
        } else {
            self.after_calls(calls.drop_last()).called(calls.last())
        }
    }
}

/// A snapshot that never arrives does not leak: whatever calls are made, the
/// buffer stays within its limit. While a snapshot is awaited, an update is
/// buffered as long as there is room, and an update without room empties the
/// buffer and starts over.
pub proof fn law_no_run_of_calls_outgrows_the_buffer<T>(sync: SyncView<T>, calls: Seq<SyncCall<T>>)
    requires
        sync.buffer.len() <= sync.buffer_limit,
    ensures
        sync.after_calls(calls).buffer.len() <= sync.buffer_limit,
        sync.after_calls(calls).buffer_limit == sync.buffer_limit,
        forall|first_id: u64, final_id: u64, payload: T|
            sync.after_calls(calls).state is AwaitingSnapshot ==> (#[trigger] sync.after_calls(
                calls,
            ).offered(first_id, final_id, payload)).buffer.len() == if sync.after_calls(
                calls,
            ).buffer.len() < sync.buffer_limit {
                sync.after_calls(calls).buffer.len() + 1
            } else {
                0
            },
        forall|first_id: u64, final_id: u64|
            sync.after_calls(calls).state is AwaitingSnapshot ==> (#[trigger] sync.after_calls(
                calls,
            ).action(first_id, final_id)) == if sync.after_calls(calls).buffer.len()
                < sync.buffer_limit {
                SyncAction::Buffer
            } else {
                SyncAction::Resync
            },
        forall|first_id: u64, final_id: u64, payload: T|
            sync.after_calls(calls).state is AwaitingSnapshot && sync.after_calls(
                calls,
            ).resyncs < u64::MAX ==> (#[trigger] sync.after_calls(calls).offered(
                first_id,
                final_id,
                payload,
            )).resyncs == sync.after_calls(calls).resyncs + if sync.after_calls(calls).buffer.len()
                < sync.buffer_limit {
                0int
            } else {
                1
            },
    decreases calls.len(),
{
    if calls.len() > 0 {
        law_no_run_of_calls_outgrows_the_buffer(sync, calls.drop_last());
    }
}

proof fn lemma_placed<T>(updates: Seq<(u64, u64, T)>, update: (u64, u64, T))
    requires
        forall|i: int, j: int|
            0 <= i <= j < updates.len() ==> (#[trigger] updates[i]).0 <= (#[trigger] updates[j]).0,
    ensures
        forall|i: int, j: int|
            0 <= i <= j < placed_update(updates, update).len() ==> (#[trigger] placed_update(
                updates,
                update,
            )[i]).0 <= (#[trigger] placed_update(updates, update)[j]).0,
        placed_update(updates, update).to_multiset() == updates.to_multiset().insert(update),
        forall|i: int|
            0 <= i < placed_update(updates, update).len() ==> (#[trigger] placed_update(
                updates,
                update,
            )[i]) == update || updates.contains(placed_update(updates, update)[i]),
    decreases updates.len(),
{
    broadcast use vstd::seq_lib::group_to_multiset_ensures;

    let all = placed_update(updates, update);
    if updates.len() > 0 && updates.last().0 > update.0 {
        let before = updates.drop_last();
        let part = placed_update(before, update);
        assert forall|i: int, j: int| 0 <= i <= j < before.len() implies (
        #[trigger] before[i]).0 <= (#[trigger] before[j]).0 by {
            assert(before[i] == updates[i]);
            assert(before[j] == updates[j]);
        }
        lemma_placed(before, update);
        assert(updates =~= before.push(updates.last()));
        assert forall|i: int| 0 <= i < all.len() implies (#[trigger] all[i]) == update
            || updates.contains(all[i]) by {
            if i < part.len() {
                assert(all[i] == part[i]);
                if part[i] != update {
                    let k = before.index_of(part[i]);
                    assert(updates[k] == part[i]);
                }
            } else {
                assert(updates[updates.len() - 1] == all[i]);
            }
        }
        assert forall|i: int, j: int| 0 <= i <= j < all.len() implies (#[trigger] all[i]).0 <= (
        #[trigger] all[j]).0 by {
            if j < part.len() {
                assert(all[i] == part[i]);
                assert(all[j] == part[j]);
            } else if i < part.len() {
                assert(all[i] == part[i]);
                if part[i] != update {
                    let k = before.index_of(part[i]);
                    assert(updates[k] == part[i]);
                    assert(updates[k].0 <= updates[updates.len() - 1].0);
                }
            }
        }
        assert(all.to_multiset() =~= updates.to_multiset().insert(update));
    } else {
        assert forall|i: int| 0 <= i < all.len() implies (#[trigger] all[i]) == update
            || updates.contains(all[i]) by {
            if i < updates.len() {
                assert(updates[i] == all[i]);
            }
        }
        assert forall|i: int, j: int| 0 <= i <= j < all.len() implies (#[trigger] all[i]).0 <= (
        #[trigger] all[j]).0 by {
            if j < updates.len() {
                assert(all[i] == updates[i]);
                assert(all[j] == updates[j]);
            } else if i < updates.len() {
                assert(updates[i].0 <= updates[updates.len() - 1].0);
            }
        }
    }
}

/// Buffered updates are applied in the order of their ids, each of them once,
/// and none that the snapshot contains.
pub proof fn law_pending_updates_are_in_sequence<T>(buffer: Seq<(u64, u64, T)>, snapshot: u64)
    ensures
        forall|i: int, j: int|
            0 <= i <= j < pending_after(buffer, snapshot).len() ==> (#[trigger] pending_after(
                buffer,
                snapshot,
            )[i]).0 <= (#[trigger] pending_after(buffer, snapshot)[j]).0,
        pending_after(buffer, snapshot).to_multiset() == beyond(buffer, snapshot).to_multiset(),
{
    lemma_in_sequence(beyond(buffer, snapshot));
}

pub proof fn lemma_in_sequence<T>(updates: Seq<(u64, u64, T)>)
    ensures
        forall|i: int, j: int|
            0 <= i <= j < in_sequence(updates).len() ==> (#[trigger] in_sequence(updates)[i]).0 <= (
            #[trigger] in_sequence(updates)[j]).0,
        in_sequence(updates).to_multiset() == updates.to_multiset(),
    decreases updates.len(),
{
    broadcast use vstd::seq_lib::group_to_multiset_ensures;

    if updates.len() > 0 {
        lemma_in_sequence(updates.drop_last());
        lemma_placed(in_sequence(updates.drop_last()), updates.last());
        assert(updates =~= updates.drop_last().push(updates.last()));
    }
}

} // verus!
