//! Process-local server seam.
//!
//! A server receives presence updates, manages expiry against an internal
//! store, and provides watcher polling helpers. It does not own transport,
//! authentication, or push delivery. The `PresenceIngress` and
//! `PresenceWatch` traits give runtimes a narrow contract that does not
//! depend on the concrete `PresenceServer` type.

use vstd::prelude::*;

use crate::beacon::saturating_sum;
use crate::presence::{ExtensionFacet, Never, Timestamp, Visibility};
use crate::store::change::{same_changes, StoreChange};
use crate::store::cursor::{
    lemma_poll_catches_up, lemma_poll_pending, lemma_polled_changes, lemma_visible_poll_catches_up,
    position_after, WatcherCursor,
};
use crate::store::laws::lemma_expiry_partitions;
use crate::store::retained::{RetainedResult, RetainedStatus};
use crate::store::visibility::VisibilityPolicy;
use crate::store::model::{
    after_sequence, entries_after_publish, expired_at, expiry_records, gap_at,
    lemma_visible_status_is_permitted_status, live_at, permitted_status_at, records_publication,
    saturating_offset, status_at, visible_after, visible_status_at, StoreView,
};
use crate::store::{InMemoryStore, StoreUpdate};

verus! {

/// A small process-local server over an internal in-memory store.
#[derive(Debug)]
pub struct PresenceServer<V, E: ExtensionFacet = Never> {
    store: InMemoryStore<V, E>,
}

impl<V, E: ExtensionFacet> PresenceServer<V, E> {
    #[verifier::type_invariant]
    spec fn store_is_well_formed(&self) -> bool {
        self.store.wf()
    }
}

impl<V, E: ExtensionFacet> View for PresenceServer<V, E> {
    type V = StoreView<V, E>;

    closed spec fn view(&self) -> StoreView<V, E> {
        self.store@
    }
}

impl<V: Copy, E: ExtensionFacet> Clone for PresenceServer<V, E> {
    /// Copies the server and its store.
    fn clone(&self) -> (copy: Self)
        ensures
            copy@.last_sequence == self@.last_sequence,
            copy@.retained_floor == self@.retained_floor,
            copy@.entries == self@.entries,
            same_changes(copy@.changes, self@.changes),
    {
        proof {
            use_type_invariant(self);
        }
        PresenceServer { store: self.store.clone() }
    }
}

impl<V, E: ExtensionFacet> Default for PresenceServer<V, E> {
    fn default() -> (server: Self)
        ensures
            server@.last_sequence == 0,
            server@.retained_floor == 0,
            server@.changes.len() == 0,
            server@.entries.len() == 0,
    {
        PresenceServer { store: InMemoryStore::new() }
    }
}

/// The entries after publishing `updates` in order.
pub open spec fn entries_after_all<V, E: ExtensionFacet>(
    entries: Seq<crate::store::model::EntryView<V, E>>,
    updates: Seq<StoreUpdate<V, E>>,
) -> Seq<crate::store::model::EntryView<V, E>>
    decreases updates.len(),
{
    if updates.len() == 0 {
        entries
    } else {
        entries_after_publish(entries_after_all(entries, updates.drop_last()), updates.last())
    }
}

impl<V, E: ExtensionFacet> PresenceServer<V, E> {
    /// Creates an empty process-local server.
    pub fn new() -> (server: Self)
        ensures
            server@.last_sequence == 0,
            server@.retained_floor == 0,
            server@.changes.len() == 0,
            server@.entries.len() == 0,
    {
        PresenceServer { store: InMemoryStore::new() }
    }

    /// Returns the number of stored entries.
    pub fn len(&self) -> (count: usize)
        ensures
            count == self@.entries.len(),
    {
        self.store.len()
    }

    /// Returns `true` when the server currently has no stored entries.
    pub fn is_empty(&self) -> (empty: bool)
        ensures
            empty == (self@.entries.len() == 0),
    {
        self.store.is_empty()
    }

    /// Returns the most recently assigned store sequence.
    pub fn last_sequence(&self) -> (sequence: u64)
        ensures
            sequence == self@.last_sequence,
    {
        self.store.last_sequence()
    }

    /// Returns the oldest cursor position that retained changes can still
    /// answer exactly.
    pub fn retained_floor_sequence(&self) -> (sequence: u64)
        ensures
            sequence == self@.retained_floor,
    {
        self.store.retained_floor_sequence()
    }

    /// Returns a read-only view of the underlying store.
    pub fn store(&self) -> (store: &InMemoryStore<V, E>)
        ensures
            store@ == self@,
            store.wf(),
    {
        proof {
            use_type_invariant(self);
        }
        &self.store
    }

    /// Consumes the server and returns the underlying store.
    pub fn into_store(self) -> (store: InMemoryStore<V, E>)
        ensures
            store@ == self@,
            store.wf(),
    {
        proof {
            use_type_invariant(&self);
        }
        self.store
    }

    /// Returns a watcher cursor that starts at the beginning of the retained
    /// change log: the current retained-log floor.
    pub fn watcher_cursor(&self) -> (cursor: WatcherCursor)
        ensures
            cursor.position() == self@.retained_floor,
    {
        WatcherCursor::from_sequence(self.retained_floor_sequence())
    }

    /// Returns a watcher cursor positioned at the current sequence tail.
    pub fn watcher_cursor_from_current(&self) -> (cursor: WatcherCursor)
        ensures
            cursor.position() == self@.last_sequence,
    {
        WatcherCursor::from_sequence(self.last_sequence())
    }

    /// Returns the retained-log status for one watcher cursor.
    pub fn pending_status(&self, cursor: WatcherCursor) -> (status: RetainedStatus)
        ensures
            status == status_at(self@, cursor.position()),
    {
        cursor.status(&self.store)
    }

    /// Returns the retained-log status for visible changes at one watcher
    /// cursor.
    pub fn pending_status_visible<P: VisibilityPolicy<V>>(&self, cursor: WatcherCursor, visibility: &P) -> (status:
        RetainedStatus)
        ensures
            status == visible_status_at(self@, cursor.position(), *visibility),
    {
        cursor.status_visible(&self.store, visibility)
    }

    /// Returns `true` when the server has retained changes beyond the cursor,
    /// or a gap that requires a rebuild.
    pub fn has_pending(&self, cursor: WatcherCursor) -> (pending: bool)
        ensures
            pending == !(status_at(self@, cursor.position()) is UpToDate),
    {
        cursor.has_pending(&self.store)
    }

    /// Returns `true` when the server has retained visible changes beyond the
    /// cursor, or a gap that requires a rebuild.
    pub fn has_pending_visible<P: VisibilityPolicy<V>>(&self, cursor: WatcherCursor, visibility: &P) -> (pending:
        bool)
        ensures
            pending == !(visible_status_at(self@, cursor.position(), *visibility) is UpToDate),
    {
        cursor.has_pending_visible(&self.store, visibility)
    }
}

impl<V: Copy, E: ExtensionFacet> PresenceServer<V, E> {
    /// Receives one presence update and returns the assigned sequence.
    pub fn receive(&mut self, update: StoreUpdate<V, E>) -> (sequence: u64)
        ensures
            sequence == saturating_sum(old(self)@.last_sequence, 1),
            final(self)@.last_sequence == sequence,
            final(self)@.retained_floor == old(self)@.retained_floor,
            final(self)@.entries == entries_after_publish(old(self)@.entries, update),
            final(self)@.changes.drop_last() == old(self)@.changes,
            final(self)@.changes.len() == old(self)@.changes.len() + 1,
            records_publication(final(self)@.changes.last(), sequence, update),
    {
        proof {
            use_type_invariant(&*self);
        }
        let mut store = InMemoryStore::new();
        core::mem::swap(&mut store, &mut self.store);
        let sequence = store.publish(update);
        self.store = store;
        sequence
    }

    /// Receives multiple presence updates in order and returns the assigned
    /// sequences.
    pub fn receive_all(&mut self, updates: Vec<StoreUpdate<V, E>>) -> (sequences: Vec<u64>)
        ensures
            sequences@.len() == updates@.len(),
            forall|k: int|
                0 <= k < sequences@.len() ==> #[trigger] sequences@[k] == saturating_offset(
                    old(self)@.last_sequence,
                    k + 1,
                ),
            final(self)@.last_sequence == saturating_offset(old(self)@.last_sequence, updates@.len() as int),
            final(self)@.retained_floor == old(self)@.retained_floor,
            final(self)@.entries == entries_after_all(old(self)@.entries, updates@),
            final(self)@.changes.len() == old(self)@.changes.len() + updates@.len(),
            final(self)@.changes.take(old(self)@.changes.len() as int) == old(self)@.changes,
            forall|k: int|
                0 <= k < updates@.len() ==> records_publication(
                    #[trigger] final(self)@.changes[old(self)@.changes.len() + k],
                    saturating_offset(old(self)@.last_sequence, k + 1),
                    updates@[k],
                ),
    {
        let ghost start = self@;
        let ghost all = updates@;
        let mut sequences: Vec<u64> = Vec::new();
        assert(all.take(0) =~= Seq::<StoreUpdate<V, E>>::empty());
        assert(start.changes.take(start.changes.len() as int) =~= start.changes);
        for update in it: updates
            invariant
                it.seq() == all,
                sequences@.len() == it.index(),
                forall|k: int|
                    0 <= k < sequences@.len() ==> #[trigger] sequences@[k] == saturating_offset(
                        start.last_sequence,
                        k + 1,
                    ),
                self@.last_sequence == saturating_offset(start.last_sequence, it.index() as int),
                self@.retained_floor == start.retained_floor,
                self@.entries == entries_after_all(start.entries, all.take(it.index() as int)),
                self@.changes.len() == start.changes.len() + it.index(),
                self@.changes.take(start.changes.len() as int) == start.changes,
                forall|k: int|
                    0 <= k < it.index() ==> records_publication(
                        #[trigger] self@.changes[start.changes.len() + k],
                        saturating_offset(start.last_sequence, k + 1),
                        all[k],
                    ),
        {
            let ghost i = it.index();
            let ghost before = self@;
            let sequence = self.receive(update);
            sequences.push(sequence);
            proof {
                assert(all.take(i + 1).drop_last() =~= all.take(i as int));
                assert(all.take(i + 1).last() == all[i as int]);
                assert(self@.changes.take(start.changes.len() as int) =~= before.changes.take(start.changes.len() as int));
                assert forall|k: int| 0 <= k < i + 1 implies records_publication(
                    #[trigger] self@.changes[start.changes.len() + k],
                    saturating_offset(start.last_sequence, k + 1),
                    all[k],
                ) by {
                    if k < i {
                        assert(self@.changes[start.changes.len() + k] == before.changes[start.changes.len() + k]);
                    }
                }
            }
        }
        assert(all.take(all.len() as int) =~= all);
        sequences
    }

    /// Applies expiry and returns how many entries were removed.
    pub fn expire(&mut self, now: Timestamp) -> (removed: usize)
        ensures
            final(self)@.entries == old(self)@.entries.filter(live_at(now)),
            removed == old(self)@.entries.filter(expired_at(now)).len(),
            final(self)@.changes == old(self)@.changes + expiry_records(
                old(self)@.entries.filter(expired_at(now)),
                old(self)@.last_sequence,
            ),
            final(self)@.last_sequence == saturating_offset(old(self)@.last_sequence, removed as int),
            final(self)@.retained_floor == old(self)@.retained_floor,
    {
        proof {
            use_type_invariant(&*self);
        }
        let mut store = InMemoryStore::new();
        core::mem::swap(&mut store, &mut self.store);
        let removed = store.expire(now);
        self.store = store;
        removed
    }

    /// Compacts retained changes through `sequence` (held at the last
    /// assigned sequence) and returns how many changes were removed.
    pub fn compact_changes_through(&mut self, sequence: u64) -> (removed: usize)
        ensures
            final(self)@.entries == old(self)@.entries,
            final(self)@.last_sequence == old(self)@.last_sequence,
            ({
                let target = if sequence < old(self)@.last_sequence {
                    sequence
                } else {
                    old(self)@.last_sequence
                };
                if target <= old(self)@.retained_floor {
                    &&& removed == 0
                    &&& final(self)@.changes == old(self)@.changes
                    &&& final(self)@.retained_floor == old(self)@.retained_floor
                } else {
                    &&& final(self)@.retained_floor == target
                    &&& removed <= old(self)@.changes.len()
                    &&& final(self)@.changes == old(self)@.changes.skip(removed as int)
                    &&& forall|i: int| 0 <= i < removed ==> (#[trigger] old(self)@.changes[i]).sequence <= target
                    &&& forall|i: int|
                        removed <= i < old(self)@.changes.len() ==> (#[trigger] old(self)@.changes[i]).sequence
                            > target
                }
            }),
    {
        proof {
            use_type_invariant(&*self);
        }
        let mut store = InMemoryStore::new();
        core::mem::swap(&mut store, &mut self.store);
        let removed = store.compact_changes_through(sequence);
        self.store = store;
        removed
    }

    /// Drains retained changes beyond the cursor and advances it, or returns
    /// a retained-gap error without moving it.
    pub fn poll(&self, cursor: &mut WatcherCursor) -> (changes: RetainedResult<Vec<StoreChange<V, E>>>)
        ensures
            match changes {
                Err(gap) => {
                    &&& old(cursor).position() < self@.retained_floor
                    &&& gap == gap_at(self@, old(cursor).position())
                    &&& *final(cursor) == *old(cursor)
                },
                Ok(found) => {
                    &&& old(cursor).position() >= self@.retained_floor
                    &&& same_changes(found@, self@.changes.filter(after_sequence(old(cursor).position())))
                    &&& final(cursor).position() == position_after(old(cursor).position(), found@)
                },
            },
    {
        cursor.poll(&self.store)
    }

    /// Drains retained visible changes beyond the cursor and advances it, or
    /// returns a retained-gap error without moving it.
    pub fn poll_visible<P: VisibilityPolicy<V>>(&self, cursor: &mut WatcherCursor, visibility: &P) -> (changes:
        RetainedResult<Vec<StoreChange<V, E>>>)
        ensures
            match changes {
                Err(gap) => {
                    &&& old(cursor).position() < self@.retained_floor
                    &&& gap == gap_at(self@, old(cursor).position())
                    &&& *final(cursor) == *old(cursor)
                },
                Ok(found) => {
                    &&& old(cursor).position() >= self@.retained_floor
                    &&& same_changes(
                        found@,
                        self@.changes.filter(visible_after(old(cursor).position(), *visibility)),
                    )
                    &&& final(cursor).position() == position_after(old(cursor).position(), found@)
                },
            },
    {
        cursor.poll_visible(&self.store, visibility)
    }
}

/// Write-side ingest and lifecycle contract for a presence server.
///
/// This trait captures the narrow "server receives updates and advances local
/// lifecycle state" seam without taking ownership of transport, auth, or
/// richer query behavior.
pub trait PresenceIngress<V, E: ExtensionFacet = Never> {
    /// The most recently assigned server-local sequence.
    spec fn last_assigned(&self) -> u64;

    /// The sequence assigned after `last`.
    spec fn successor(last: u64) -> u64;

    /// The number of entries the server currently stores.
    spec fn stored_count(&self) -> nat;

    /// Receives one presence update and returns the assigned server-local
    /// sequence, which becomes the most recently assigned one.
    fn receive(&mut self, update: StoreUpdate<V, E>) -> (sequence: u64)
        ensures
            sequence == Self::successor(old(self).last_assigned()),
            final(self).last_assigned() == sequence,
    ;

    /// Returns the most recently assigned server-local sequence.
    fn last_sequence(&self) -> (sequence: u64)
        ensures
            sequence == self.last_assigned(),
    ;

    /// Applies expiry at `now` and returns how many entries were removed.
    fn expire(&mut self, now: Timestamp) -> (removed: usize)
        ensures
            removed + final(self).stored_count() == old(self).stored_count(),
    ;

    /// Receives multiple presence updates in order and returns the assigned
    /// sequences: each update is received once, in order, and the result
    /// holds what each receipt returned.
    fn receive_all(&mut self, updates: Vec<StoreUpdate<V, E>>) -> (sequences: Vec<u64>)
        ensures
            sequences@.len() == updates@.len(),
            forall|k: int|
                0 <= k < sequences@.len() ==> #[trigger] sequences@[k] == repeat_step(
                    |last: u64| Self::successor(last),
                    old(self).last_assigned(),
                    (k + 1) as nat,
                ),
            final(self).last_assigned() == repeat_step(
                |last: u64| Self::successor(last),
                old(self).last_assigned(),
                updates@.len(),
            ),
    {
        let ghost all = updates@;
        let ghost start = self.last_assigned();
        let mut sequences: Vec<u64> = Vec::new();
        for update in it: updates
            invariant
                it.seq() == all,
                sequences@.len() == it.index(),
                forall|k: int|
                    0 <= k < sequences@.len() ==> #[trigger] sequences@[k] == repeat_step(
                        |last: u64| Self::successor(last),
                        start,
                        (k + 1) as nat,
                    ),
                self.last_assigned() == repeat_step(|last: u64| Self::successor(last), start, it.index() as nat),
        {
            let sequence = self.receive(update);
            sequences.push(sequence);
        }
        sequences
    }
}

/// `step` applied `count` times to `start`.
pub open spec fn repeat_step(step: spec_fn(u64) -> u64, start: u64, count: nat) -> u64
    decreases count,
{
    if count == 0 {
        start
    } else {
        step(repeat_step(step, start, (count - 1) as nat))
    }
}

/// Watch-side polling contract for a presence server.
///
/// This trait captures retained-change polling over server-local watcher
/// cursors without implying push delivery or observer identity.
pub trait PresenceWatch<V, E: ExtensionFacet = Never> {
    /// The retained-log status the server reports for a cursor.
    spec fn status_for(&self, cursor: WatcherCursor) -> RetainedStatus;

    /// The retained-log status the server reports for a cursor, counting only
    /// the changes whose visibility labels `permits` admits.
    spec fn visible_status_for(&self, cursor: WatcherCursor, permits: spec_fn(Visibility<V>) -> bool) -> RetainedStatus;

    /// The oldest cursor position the server can still answer exactly.
    spec fn retained_floor_of(&self) -> u64;

    /// The most recently assigned sequence.
    spec fn tail_sequence(&self) -> u64;

    /// Returns a watcher cursor that starts at the current retained-log floor.
    fn watcher_cursor(&self) -> (cursor: WatcherCursor)
        ensures
            cursor.position() == self.retained_floor_of(),
    ;

    /// Returns a watcher cursor positioned at the current sequence tail.
    fn watcher_cursor_from_current(&self) -> (cursor: WatcherCursor)
        ensures
            cursor.position() == self.tail_sequence(),
    ;

    /// Returns the retained-log status for one watcher cursor.
    fn pending_status(&self, cursor: WatcherCursor) -> (status: RetainedStatus)
        ensures
            status == self.status_for(cursor),
    ;

    /// Returns the retained-log status for visible changes at one watcher
    /// cursor.
    fn pending_status_visible<P: VisibilityPolicy<V>>(&self, cursor: WatcherCursor, visibility: &P) -> (status:
        RetainedStatus)
        ensures
            status == self.visible_status_for(cursor, |label: Visibility<V>| visibility.permits(label)),
    ;

    /// Drains retained changes beyond the cursor and advances it, or returns a
    /// retained-gap error without moving it.
    fn poll(&self, cursor: &mut WatcherCursor) -> (changes: RetainedResult<Vec<StoreChange<V, E>>>)
        ensures
            match changes {
                Err(gap) => {
                    &&& self.status_for(*old(cursor)) == RetainedStatus::Gap(gap)
                    &&& *final(cursor) == *old(cursor)
                },
                Ok(found) => {
                    &&& !(self.status_for(*old(cursor)) is Gap)
                    &&& (found@.len() > 0 <==> self.status_for(*old(cursor)) is Pending)
                    &&& forall|i: int| 0 <= i < found@.len() ==> (#[trigger] found@[i]).sequence > old(cursor).position()
                    &&& final(cursor).position() == position_after(old(cursor).position(), found@)
                    &&& self.status_for(*final(cursor)) is UpToDate
                },
            },
    ;

    /// Drains retained visible changes beyond the cursor and advances it, or
    /// returns a retained-gap error without moving it.
    fn poll_visible<P: VisibilityPolicy<V>>(&self, cursor: &mut WatcherCursor, visibility: &P) -> (changes:
        RetainedResult<Vec<StoreChange<V, E>>>)
        ensures
            match changes {
                Err(gap) => {
                    &&& self.visible_status_for(*old(cursor), |label: Visibility<V>| visibility.permits(label))
                        == RetainedStatus::Gap(gap)
                    &&& *final(cursor) == *old(cursor)
                },
                Ok(found) => {
                    &&& !(self.visible_status_for(*old(cursor), |label: Visibility<V>| visibility.permits(label)) is Gap)
                    &&& (found@.len() > 0 <==> self.visible_status_for(
                        *old(cursor),
                        |label: Visibility<V>| visibility.permits(label),
                    ) is Pending)
                    &&& forall|i: int|
                        0 <= i < found@.len() ==> (#[trigger] found@[i]).sequence > old(cursor).position()
                            && visibility.permits(found@[i].change_visibility())
                    &&& final(cursor).position() == position_after(old(cursor).position(), found@)
                    &&& self.visible_status_for(*final(cursor), |label: Visibility<V>| visibility.permits(label))
                        is UpToDate
                },
            },
    ;

    /// Returns `true` unless the cursor is up to date: there are retained
    /// changes beyond it, or a gap that requires a rebuild.
    fn has_pending(&self, cursor: WatcherCursor) -> (pending: bool)
        ensures
            pending == !(self.status_for(cursor) is UpToDate),
    {
        match self.pending_status(cursor) {
            RetainedStatus::UpToDate => false,
            _ => true,
        }
    }

    /// Returns `true` unless the cursor is up to date for visible changes:
    /// there are visible retained changes beyond it, or a gap that requires a
    /// rebuild.
    fn has_pending_visible<P: VisibilityPolicy<V>>(&self, cursor: WatcherCursor, visibility: &P) -> (pending: bool)
        ensures
            pending == !(self.visible_status_for(cursor, |label: Visibility<V>| visibility.permits(label)) is UpToDate),
    {
        match self.pending_status_visible(cursor, visibility) {
            RetainedStatus::UpToDate => false,
            _ => true,
        }
    }
}

impl<V: Copy, E: ExtensionFacet> PresenceIngress<V, E> for PresenceServer<V, E> {
    open spec fn last_assigned(&self) -> u64 {
        self@.last_sequence
    }

    open spec fn successor(last: u64) -> u64 {
        saturating_sum(last, 1)
    }

    open spec fn stored_count(&self) -> nat {
        self@.entries.len()
    }

    fn receive(&mut self, update: StoreUpdate<V, E>) -> (sequence: u64)
        ensures
            sequence == saturating_sum(old(self)@.last_sequence, 1),
            final(self)@.retained_floor == old(self)@.retained_floor,
            final(self)@.entries == entries_after_publish(old(self)@.entries, update),
            final(self)@.changes.drop_last() == old(self)@.changes,
            final(self)@.changes.len() == old(self)@.changes.len() + 1,
            records_publication(final(self)@.changes.last(), sequence, update),
    {
        PresenceServer::receive(self, update)
    }

    fn last_sequence(&self) -> u64 {
        PresenceServer::last_sequence(self)
    }

    fn expire(&mut self, now: Timestamp) -> (removed: usize)
        ensures
            final(self)@.entries == old(self)@.entries.filter(live_at(now)),
            removed == old(self)@.entries.filter(expired_at(now)).len(),
            final(self)@.changes == old(self)@.changes + expiry_records(
                old(self)@.entries.filter(expired_at(now)),
                old(self)@.last_sequence,
            ),
            final(self)@.last_sequence == saturating_offset(old(self)@.last_sequence, removed as int),
            final(self)@.retained_floor == old(self)@.retained_floor,
    {
        proof {
            lemma_expiry_partitions(self@.entries, now);
        }
        PresenceServer::expire(self, now)
    }
}

impl<V: Copy, E: ExtensionFacet> PresenceWatch<V, E> for PresenceServer<V, E> {
    open spec fn status_for(&self, cursor: WatcherCursor) -> RetainedStatus {
        status_at(self@, cursor.position())
    }

    open spec fn visible_status_for(&self, cursor: WatcherCursor, permits: spec_fn(Visibility<V>) -> bool) -> RetainedStatus {
        permitted_status_at(self@, cursor.position(), permits)
    }

    open spec fn retained_floor_of(&self) -> u64 {
        self@.retained_floor
    }

    open spec fn tail_sequence(&self) -> u64 {
        self@.last_sequence
    }

    fn watcher_cursor(&self) -> (cursor: WatcherCursor) {
        PresenceServer::watcher_cursor(self)
    }

    fn watcher_cursor_from_current(&self) -> (cursor: WatcherCursor) {
        PresenceServer::watcher_cursor_from_current(self)
    }

    fn pending_status(&self, cursor: WatcherCursor) -> RetainedStatus {
        PresenceServer::pending_status(self, cursor)
    }

    fn pending_status_visible<P: VisibilityPolicy<V>>(&self, cursor: WatcherCursor, visibility: &P) -> (status:
        RetainedStatus)
        ensures
            status == visible_status_at(self@, cursor.position(), *visibility),
    {
        proof {
            lemma_visible_status_is_permitted_status(self@, cursor.position(), *visibility);
        }
        PresenceServer::pending_status_visible(self, cursor, visibility)
    }

    fn has_pending(&self, cursor: WatcherCursor) -> (pending: bool) {
        PresenceServer::has_pending(self, cursor)
    }

    fn has_pending_visible<P: VisibilityPolicy<V>>(&self, cursor: WatcherCursor, visibility: &P) -> (pending: bool)
        ensures
            pending == !(visible_status_at(self@, cursor.position(), *visibility) is UpToDate),
    {
        proof {
            lemma_visible_status_is_permitted_status(self@, cursor.position(), *visibility);
        }
        PresenceServer::has_pending_visible(self, cursor, visibility)
    }

    fn poll(&self, cursor: &mut WatcherCursor) -> (changes: RetainedResult<Vec<StoreChange<V, E>>>)
        ensures
            match changes {
                Err(gap) => {
                    &&& old(cursor).position() < self@.retained_floor
                    &&& gap == gap_at(self@, old(cursor).position())
                    &&& *final(cursor) == *old(cursor)
                },
                Ok(found) => {
                    &&& old(cursor).position() >= self@.retained_floor
                    &&& same_changes(found@, self@.changes.filter(after_sequence(old(cursor).position())))
                    &&& final(cursor).position() == position_after(old(cursor).position(), found@)
                },
            },
    {
        let ghost since = cursor.position();
        let changes = PresenceServer::poll(self, cursor);
        proof {
            use_type_invariant(self);
            if changes is Ok {
                let found = changes->Ok_0;
                lemma_poll_pending(&self.store, since);
                lemma_poll_catches_up(&self.store, since);
                lemma_polled_changes(self@.changes, after_sequence::<V, E>(since), found@, since);
            }
        }
        changes
    }

    fn poll_visible<P: VisibilityPolicy<V>>(&self, cursor: &mut WatcherCursor, visibility: &P) -> (changes:
        RetainedResult<Vec<StoreChange<V, E>>>)
        ensures
            match changes {
                Err(gap) => {
                    &&& old(cursor).position() < self@.retained_floor
                    &&& gap == gap_at(self@, old(cursor).position())
                    &&& *final(cursor) == *old(cursor)
                },
                Ok(found) => {
                    &&& old(cursor).position() >= self@.retained_floor
                    &&& same_changes(
                        found@,
                        self@.changes.filter(visible_after(old(cursor).position(), *visibility)),
                    )
                    &&& final(cursor).position() == position_after(old(cursor).position(), found@)
                },
            },
    {
        let ghost since = cursor.position();
        let changes = PresenceServer::poll_visible(self, cursor, visibility);
        proof {
            use_type_invariant(self);
            lemma_visible_status_is_permitted_status(self@, since, *visibility);
            if changes is Ok {
                let found = changes->Ok_0;
                let next = position_after(since, found@);
                lemma_visible_status_is_permitted_status(self@, next, *visibility);
                lemma_visible_poll_catches_up(&self.store, since, *visibility);
                lemma_polled_changes(self@.changes, visible_after::<V, E, P>(since, *visibility), found@, since);
            }
        }
        changes
    }
}

} // verus!
