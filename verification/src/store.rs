//! In-memory runtime store for presence updates.
//!
//! The store owns sequencing, reduction, expiry, a retained change log with
//! compaction, visibility-filtered reads, subject projection and watcher
//! cursors. Subjects, contexts, resources and origins are `u64` keys.

use vstd::prelude::*;

use crate::beacon::saturating_sum;
use crate::presence::{
    Expiry, ExtensionFacet, Never, PresenceAddress, PresenceFacet, PresenceSnapshot,
    PresenceUpdate, Timestamp, Visibility,
};
use crate::store::change::{
    copy_update, same_changes, StoreChange, StoreChangeKind, StoreExpired,
};
use crate::store::index::{
    entry_index_contents, subject_index_contents, EntryIndex, EntrySlotKey, SubjectIndex,
};
use crate::store::model::{
    after_sequence, at_address, entries_after_publish, entries_well_formed, entry_for_key,
    expired_at, expiry_records, gap_at, in_context, lemma_filter_nonempty, lemma_filter_none,
    lemma_filter_prefix_step, lemma_filter_twice, lemma_log_push, live_at, log_well_formed,
    materializes, materializes_all, records_publication, saturating_offset, slot_of_key,
    status_at, visible_after, visible_at_address, visible_in_context, visible_status_at,
    EntryView, StoreView,
};
use crate::store::projection::{
    distinct_subjects, has_subject, lemma_distinct_subjects, summarize_subject, summarizes,
    DefaultSubjectProjectionPolicy, SubjectPresenceSummary, SubjectProjectionAccumulator,
    SubjectProjectionPolicy,
};
use crate::store::reduction::{apply_facet_changes, unique_kinds};
use crate::store::retained::{RetainedGap, RetainedResult, RetainedStatus};
use crate::store::visibility::{AllowAll, VisibilityPolicy};

pub mod change;
pub mod cursor;
mod index;
pub mod laws;
pub mod model;
pub mod projection;
pub mod reduction;
pub mod retained;
pub mod visibility;

verus! {

/// A fully qualified key for one stored presence entry.
///
/// The store keeps state per addressed scope and origin so concurrent
/// publishers do not overwrite one another accidentally.
#[derive(Clone, Copy, Debug, Eq, Hash, Ord, PartialEq, PartialOrd)]
pub struct PresenceEntryKey<S, C, R, I> {
    /// The addressed presence scope.
    pub address: PresenceAddress<S, C, R>,
    /// The origin that produced the stored facts.
    pub origin: I,
}

impl<S, C, R, I> PresenceEntryKey<S, C, R, I> {
    /// Creates a new store entry key.
    pub fn new(address: PresenceAddress<S, C, R>, origin: I) -> (key: Self)
        ensures
            key.address == address,
            key.origin == origin,
    {
        PresenceEntryKey { address, origin }
    }
}

/// The scope of a stored entry, with `u64` subjects, contexts and resources.
pub type StoreAddress = PresenceAddress<u64, u64, u64>;

/// The key of a stored entry, with `u64` subjects, contexts, resources and
/// origins.
pub type EntryKey = PresenceEntryKey<u64, u64, u64, u64>;

/// An update the store accepts.
pub type StoreUpdate<V, E> = PresenceUpdate<u64, u64, u64, u64, V, E>;

/// A snapshot the store materializes.
pub type StoreSnapshot<V, E> = PresenceSnapshot<u64, u64, u64, u64, V, E>;

/// The result of a retained-change query: the changes, or the gap that
/// compaction left.
pub type RetainedChanges<V, E> = RetainedResult<Vec<StoreChange<V, E>>>;

/// The index key of an entry key.
pub open spec fn slot_key_of(key: EntryKey) -> EntrySlotKey {
    (key.address.subject, key.address.context, key.address.resource, key.origin)
}

fn slot_key(key: &EntryKey) -> (slot: EntrySlotKey)
    ensures
        slot == slot_key_of(*key),
{
    (key.address.subject, key.address.context, key.address.resource, key.origin)
}

/// Copies a vector of copyable values.
pub(crate) fn copy_vec<T: Copy>(values: &Vec<T>) -> (copy: Vec<T>)
    ensures
        copy@ == values@,
{
    let mut copy = Vec::new();
    let mut i: usize = 0;
    while i < values.len()
        invariant
            i <= values@.len(),
            copy@ == values@.take(i as int),
        decreases values@.len() - i,
    {
        copy.push(values[i]);
        i += 1;
        assert(copy@ =~= values@.take(i as int));
    }
    assert(copy@ =~= values@);
    copy
}

fn same_address(left: &StoreAddress, right: &StoreAddress) -> (same: bool)
    ensures
        same == (*left == *right),
{
    let same_resource = match (left.resource, right.resource) {
        (Some(a), Some(b)) => a == b,
        (None, None) => true,
        _ => false,
    };
    left.subject == right.subject && left.context == right.context && same_resource
}

/// Which entries a snapshot query reads.
enum SnapshotScope {
    Address(StoreAddress),
    Context(u64),
    Subject(u64, u64),
}

impl SnapshotScope {
    spec fn admits<V, E: ExtensionFacet>(self, entry: EntryView<V, E>) -> bool {
        match self {
            SnapshotScope::Address(address) => entry.key.address == address,
            SnapshotScope::Context(context) => entry.key.address.context == context,
            SnapshotScope::Subject(subject, context) => entry.key.address.context == context
                && entry.key.address.subject == subject,
        }
    }

    fn admits_key(&self, key: &EntryKey) -> (admitted: bool)
        ensures
            admitted == match *self {
                SnapshotScope::Address(address) => key.address == address,
                SnapshotScope::Context(context) => key.address.context == context,
                SnapshotScope::Subject(subject, context) => key.address.context == context
                    && key.address.subject == subject,
            },
    {
        match self {
            SnapshotScope::Address(address) => same_address(&key.address, address),
            SnapshotScope::Context(context) => key.address.context == *context,
            SnapshotScope::Subject(subject, context) => key.address.context == *context
                && key.address.subject == *subject,
        }
    }
}

/// Copies a snapshot field by field.
fn copy_snapshot<V: Copy, E: ExtensionFacet>(snapshot: &StoreSnapshot<V, E>) -> (copy: StoreSnapshot<
    V,
    E,
>)
    ensures
        copy.same_snapshot(snapshot),
{
    PresenceSnapshot {
        address: snapshot.address,
        origin: snapshot.origin,
        visibility: snapshot.visibility,
        observed_at: snapshot.observed_at,
        expiry: snapshot.expiry,
        facets: copy_vec(&snapshot.facets),
    }
}

#[derive(Debug)]
struct StoredEntry<V, E: ExtensionFacet> {
    key: EntryKey,
    visibility: Visibility<V>,
    observed_at: Timestamp,
    expiry: Expiry,
    facets: Vec<PresenceFacet<E>>,
}

impl<V, E: ExtensionFacet> StoredEntry<V, E> {
    spec fn entry_view(&self) -> EntryView<V, E> {
        EntryView {
            key: self.key,
            visibility: self.visibility,
            observed_at: self.observed_at,
            expiry: self.expiry,
            facets: self.facets@,
        }
    }
}

impl<V: Copy, E: ExtensionFacet> StoredEntry<V, E> {
    fn materialize(&self) -> (snapshot: StoreSnapshot<V, E>)
        ensures
            materializes(snapshot, self.entry_view()),
    {
        PresenceSnapshot {
            address: self.key.address,
            origin: self.key.origin,
            visibility: self.visibility,
            observed_at: self.observed_at,
            expiry: self.expiry,
            facets: copy_vec(&self.facets),
        }
    }
}

/// An in-memory store for presence updates and snapshots.
#[derive(Debug)]
pub struct InMemoryStore<V, E: ExtensionFacet = Never> {
    next_sequence: u64,
    retained_floor: u64,
    changes: Vec<StoreChange<V, E>>,
    entries: Vec<StoredEntry<V, E>>,
    index: EntryIndex,
}

impl<V, E: ExtensionFacet> View for InMemoryStore<V, E> {
    type V = StoreView<V, E>;

    closed spec fn view(&self) -> StoreView<V, E> {
        StoreView {
            last_sequence: self.next_sequence,
            retained_floor: self.retained_floor,
            changes: self.changes@,
            entries: self.entries@.map_values(|entry: StoredEntry<V, E>| entry.entry_view()),
        }
    }
}

impl<V, E: ExtensionFacet> InMemoryStore<V, E> {
    spec fn index_wf(&self) -> bool {
        let slots = entry_index_contents(self.index);
        &&& forall|i: int|
            0 <= i < self.entries@.len() ==> {
                &&& slots.contains_key(slot_key_of((#[trigger] self.entries@[i]).key))
                &&& slots[slot_key_of(self.entries@[i].key)] == i
            }
        &&& forall|k: EntrySlotKey| #[trigger]
            slots.contains_key(k) ==> {
                &&& slots[k] < self.entries@.len()
                &&& slot_key_of(self.entries@[slots[k] as int].key) == k
            }
    }

    /// The store's internal invariant: its view is well formed and its hash
    /// index maps every stored key to that key's position.
    pub closed spec fn wf(&self) -> bool {
        &&& self@.well_formed()
        &&& self.index_wf()
    }

    /// A store's invariant includes that its view is well formed.
    pub proof fn lemma_view_well_formed(&self)
        requires
            self.wf(),
        ensures
            self@.well_formed(),
    {
    }

    /// Creates an empty in-memory store.
    pub fn new() -> (store: Self)
        ensures
            store.wf(),
            store@.last_sequence == 0,
            store@.retained_floor == 0,
            store@.changes == Seq::<StoreChange<V, E>>::empty(),
            store@.entries == Seq::<EntryView<V, E>>::empty(),
    {
        let store = InMemoryStore {
            next_sequence: 0,
            retained_floor: 0,
            changes: Vec::new(),
            entries: Vec::new(),
            index: EntryIndex::new(),
        };
        assert(store@.entries =~= Seq::<EntryView<V, E>>::empty());
        store
    }

    /// Returns the number of stored presence entries.
    pub fn len(&self) -> (count: usize)
        ensures
            count == self@.entries.len(),
    {
        self.entries.len()
    }

    /// Returns `true` when the store has no entries.
    pub fn is_empty(&self) -> (empty: bool)
        ensures
            empty == (self@.entries.len() == 0),
    {
        self.entries.len() == 0
    }

    /// Returns the most recently assigned store sequence.
    pub fn last_sequence(&self) -> (sequence: u64)
        ensures
            sequence == self@.last_sequence,
    {
        self.next_sequence
    }

    /// Returns the oldest cursor position that retained changes can still
    /// answer exactly.
    pub fn retained_floor_sequence(&self) -> (sequence: u64)
        ensures
            sequence == self@.retained_floor,
    {
        self.retained_floor
    }

    /// Returns `true` when the store has assigned a sequence greater than
    /// `sequence`.
    pub fn has_changes_since(&self, sequence: u64) -> (pending: bool)
        ensures
            pending == (self@.last_sequence > sequence),
    {
        self.next_sequence > sequence
    }

    /// Finds the position of the entry stored under `key`.
    fn find_slot(&self, key: &EntryKey) -> (slot: Option<usize>)
        requires
            self.wf(),
        ensures
            match slot {
                Some(i) => slot_of_key(self@.entries, *key) == Some(i as int),
                None => slot_of_key(self@.entries, *key) is None,
            },
    {
        let found = self.index.get(&slot_key(key));
        proof {
            let entries = self@.entries;
            match found {
                Some(i) => {
                    assert(self.entries@[i as int].entry_view() == entries[i as int]);
                    assert(entries[i as int].key == *key);
                    let c = choose|j: int| 0 <= j < entries.len() && (#[trigger] entries[j]).key == *key;
                    assert(entries[c].key == *key);
                },
                None => {
                    assert forall|j: int| 0 <= j < entries.len() implies (#[trigger] entries[j]).key != *key by {
                        assert(self.entries@[j].entry_view() == entries[j]);
                    }
                },
            }
        }
        found
    }
}

impl<V: Copy, E: ExtensionFacet> InMemoryStore<V, E> {
    /// Publishes an update into the store and returns the assigned sequence.
    ///
    /// Publish order is authoritative within one store instance: the update's
    /// visibility, observation time and expiry replace those stored under its
    /// key, and its facet changes are applied in order to the stored facets.
    /// One `Published` change is retained under the new sequence.
    pub fn publish(&mut self, update: StoreUpdate<V, E>) -> (sequence: u64)
        requires
            old(self).wf(),
        ensures
            final(self).wf(),
            sequence == saturating_sum(old(self)@.last_sequence, 1),
            final(self)@.last_sequence == sequence,
            final(self)@.retained_floor == old(self)@.retained_floor,
            final(self)@.entries == entries_after_publish(old(self)@.entries, update),
            final(self)@.changes.drop_last() == old(self)@.changes,
            final(self)@.changes.len() == old(self)@.changes.len() + 1,
            records_publication(final(self)@.changes.last(), sequence, update),
    {
        let sequence = self.next_sequence.saturating_add(1);
        self.next_sequence = sequence;
        let record = copy_update(&update);
        self.changes.push(StoreChange { sequence, kind: StoreChangeKind::Published(record) });
        let key = PresenceEntryKey::new(update.address, update.origin);
        let ghost before = old(self)@.entries;
        match self.find_slot(&key) {
            Some(i) => {
                let ghost previous = self.entries@[i as int];
                let entry = &mut self.entries[i];
                entry.visibility = update.visibility;
                entry.observed_at = update.observed_at;
                entry.expiry = update.expiry;
                apply_facet_changes(&mut entry.facets, &update.changes);
                proof {
                    reduction::lemma_apply_changes_unique(previous.facets@, update.changes@);
                    assert forall|j: int| 0 <= j < self.entries@.len() implies (
                    #[trigger] self.entries@[j]).key == old(self).entries@[j].key by {}
                    assert(self.index_wf());
                }
            },
            None => {
                let mut facets = Vec::new();
                proof {
                    assert(unique_kinds(facets@));
                }
                apply_facet_changes(&mut facets, &update.changes);
                let slot = self.entries.len();
                self.entries.push(
                    StoredEntry {
                        key,
                        visibility: update.visibility,
                        observed_at: update.observed_at,
                        expiry: update.expiry,
                        facets,
                    },
                );
                self.index.insert(slot_key(&key), slot);
                proof {
                    let old_slots = entry_index_contents(old(self).index);
                    let k = slot_key_of(key);
                    if old_slots.contains_key(k) {
                        let j = old_slots[k] as int;
                        assert(slot_key_of(old(self).entries@[j].key) == k);
                        assert(old(self).entries@[j].entry_view() == before[j]);
                        assert(before[j].key == key);
                        assert(false);
                    }
                    assert forall|j: int| 0 <= j < old(self).entries@.len() implies (
                    #[trigger] self.entries@[j]).key == old(self).entries@[j].key by {}
                    assert(self.index_wf());
                }
            },
        }
        proof {
            assert(self@.entries =~= entries_after_publish(before, update));
            assert(self@.changes.drop_last() =~= old(self)@.changes);
            let v = self@;
            lemma_log_push(old(self)@.changes, old(self)@.last_sequence, old(self)@.retained_floor, v.changes.last());
            assert(v.changes == old(self)@.changes.push(v.changes.last()));
            assert forall|i: int, j: int|
                0 <= i < v.entries.len() && 0 <= j < v.entries.len() && i != j
                    implies (#[trigger] v.entries[i]).key != (#[trigger] v.entries[j]).key by {
                if i < before.len() && j < before.len() {
                    assert(v.entries[i].key == before[i].key);
                    assert(v.entries[j].key == before[j].key);
                }
            }
            assert forall|i: int| 0 <= i < v.entries.len() implies unique_kinds(#[trigger] v.entries[i].facets) by {
                if i < before.len() {
                    if v.entries[i] != before[i] {
                        reduction::lemma_apply_changes_unique(before[i].facets, update.changes@);
                    }
                } else {
                    reduction::lemma_apply_changes_unique(Seq::<PresenceFacet<E>>::empty(), update.changes@);
                }
            }
            assert(v.well_formed());
            assert(self.index_wf());
        }
        sequence
    }

    /// Returns a materialized snapshot for one stored entry.
    pub fn snapshot(&self, key: &EntryKey) -> (snapshot: Option<StoreSnapshot<V, E>>)
        requires
            self.wf(),
        ensures
            match entry_for_key(self@.entries, *key) {
                Some(entry) => snapshot matches Some(s) && materializes(s, entry),
                None => snapshot is None,
            },
    {
        match self.find_slot(key) {
            Some(i) => {
                let snapshot = self.entries[i].materialize();
                assert(self.entries@[i as int].entry_view() == self@.entries[i as int]);
                Some(snapshot)
            },
            None => None,
        }
    }

    /// Returns a materialized snapshot for one stored entry when the supplied
    /// visibility policy allows it.
    pub fn snapshot_visible<P: VisibilityPolicy<V>>(&self, key: &EntryKey, visibility: &P) -> (snapshot:
        Option<StoreSnapshot<V, E>>)
        requires
            self.wf(),
        ensures
            match entry_for_key(self@.entries, *key) {
                Some(entry) => if visibility.permits(entry.visibility) {
                    snapshot matches Some(s) && materializes(s, entry)
                } else {
                    snapshot is None
                },
                None => snapshot is None,
            },
    {
        match self.find_slot(key) {
            Some(i) => {
                assert(self.entries@[i as int].entry_view() == self@.entries[i as int]);
                if visibility.allows(&self.entries[i].visibility) {
                    Some(self.entries[i].materialize())
                } else {
                    None
                }
            },
            None => None,
        }
    }

    fn collect_snapshots<P: VisibilityPolicy<V>>(&self, scope: SnapshotScope, policy: &P) -> (snapshots:
        Vec<StoreSnapshot<V, E>>)
        ensures
            materializes_all(
                snapshots@,
                self@.entries.filter(
                    |entry: EntryView<V, E>| scope.admits(entry) && policy.permits(entry.visibility),
                ),
            ),
    {
        let ghost keep = |entry: EntryView<V, E>| scope.admits(entry) && policy.permits(entry.visibility);
        let ghost entries = self@.entries;
        let mut snapshots: Vec<StoreSnapshot<V, E>> = Vec::new();
        let mut i: usize = 0;
        assert(entries.take(0).filter(keep) =~= Seq::<EntryView<V, E>>::empty()) by {
            reveal(Seq::filter);
        }
        while i < self.entries.len()
            invariant
                i <= self.entries@.len(),
                entries == self@.entries,
                entries.len() == self.entries@.len(),
                keep == (|entry: EntryView<V, E>| scope.admits(entry) && policy.permits(entry.visibility)),
                materializes_all(snapshots@, entries.take(i as int).filter(keep)),
            decreases self.entries@.len() - i,
        {
            proof {
                lemma_filter_prefix_step(entries, i as int, keep);
            }
            let entry = &self.entries[i];
            assert(entry.entry_view() == entries[i as int]);
            if scope.admits_key(&entry.key) && policy.allows(&entry.visibility) {
                let snapshot = entry.materialize();
                snapshots.push(snapshot);
            }
            i += 1;
        }
        assert(entries.take(i as int) =~= entries);
        snapshots
    }

    /// Returns all stored snapshots for an addressed scope across origins, in
    /// store order.
    pub fn snapshots_for_address(&self, address: &StoreAddress) -> (snapshots: Vec<StoreSnapshot<V, E>>)
        ensures
            materializes_all(snapshots@, self@.entries.filter(at_address(*address))),
    {
        let scope = SnapshotScope::Address(*address);
        let snapshots = self.collect_snapshots(scope, &AllowAll);
        assert((|entry: EntryView<V, E>| scope.admits(entry) && AllowAll.permits(entry.visibility))
            =~= at_address::<V, E>(*address));
        snapshots
    }

    /// Returns all visible stored snapshots for an addressed scope across
    /// origins, in store order.
    pub fn snapshots_for_address_visible<P: VisibilityPolicy<V>>(
        &self,
        address: &StoreAddress,
        visibility: &P,
    ) -> (snapshots: Vec<StoreSnapshot<V, E>>)
        ensures
            materializes_all(snapshots@, self@.entries.filter(visible_at_address(*address, *visibility))),
    {
        let scope = SnapshotScope::Address(*address);
        let snapshots = self.collect_snapshots(scope, visibility);
        assert((|entry: EntryView<V, E>| scope.admits(entry) && visibility.permits(entry.visibility))
            =~= visible_at_address::<V, E, P>(*address, *visibility));
        snapshots
    }

    /// Returns all stored snapshots for a context across addresses and
    /// origins, in store order.
    pub fn snapshots_in_context(&self, context: &u64) -> (snapshots: Vec<StoreSnapshot<V, E>>)
        ensures
            materializes_all(snapshots@, self@.entries.filter(in_context(*context))),
    {
        let scope = SnapshotScope::Context(*context);
        let snapshots = self.collect_snapshots(scope, &AllowAll);
        assert((|entry: EntryView<V, E>| scope.admits(entry) && AllowAll.permits(entry.visibility))
            =~= in_context::<V, E>(*context));
        snapshots
    }

    /// Returns all visible stored snapshots for a context across addresses and
    /// origins, in store order.
    pub fn snapshots_in_context_visible<P: VisibilityPolicy<V>>(
        &self,
        context: &u64,
        visibility: &P,
    ) -> (snapshots: Vec<StoreSnapshot<V, E>>)
        ensures
            materializes_all(snapshots@, self@.entries.filter(visible_in_context(*context, *visibility))),
    {
        let scope = SnapshotScope::Context(*context);
        let snapshots = self.collect_snapshots(scope, visibility);
        assert((|entry: EntryView<V, E>| scope.admits(entry) && visibility.permits(entry.visibility))
            =~= visible_in_context::<V, E, P>(*context, *visibility));
        snapshots
    }

    fn collect_changes<P: VisibilityPolicy<V>>(&self, since: u64, policy: &P) -> (changes: Vec<
        StoreChange<V, E>,
    >)
        ensures
            same_changes(changes@, self@.changes.filter(visible_after(since, *policy))),
    {
        let ghost keep = visible_after::<V, E, P>(since, *policy);
        let ghost log = self@.changes;
        let mut out: Vec<StoreChange<V, E>> = Vec::new();
        let mut i: usize = 0;
        assert(log.take(0).filter(keep) =~= Seq::<StoreChange<V, E>>::empty()) by {
            reveal(Seq::filter);
        }
        while i < self.changes.len()
            invariant
                i <= self.changes@.len(),
                log == self.changes@,
                keep == visible_after::<V, E, P>(since, *policy),
                same_changes(out@, log.take(i as int).filter(keep)),
            decreases self.changes@.len() - i,
        {
            proof {
                lemma_filter_prefix_step(log, i as int, keep);
            }
            let change = &self.changes[i];
            let visibility = match &change.kind {
                StoreChangeKind::Published(update) => update.visibility,
                StoreChangeKind::Expired(expired) => expired.visibility,
            };
            if change.sequence > since && policy.allows(&visibility) {
                out.push(change.duplicate());
            }
            i += 1;
        }
        assert(log.take(i as int) =~= log);
        out
    }

    /// Returns all retained store changes with `sequence > since`, in
    /// sequence order, or the retained gap when compaction has removed part
    /// of that range.
    pub fn changes_since(&self, since: u64) -> (changes: RetainedResult<Vec<StoreChange<V, E>>>)
        ensures
            since < self@.retained_floor ==> changes == Err::<Vec<StoreChange<V, E>>, _>(gap_at(self@, since)),
            since >= self@.retained_floor ==> (changes matches Ok(found) && same_changes(
                found@,
                self@.changes.filter(after_sequence(since)),
            )),
    {
        if since < self.retained_floor {
            return Err(RetainedGap::new(since, self.retained_floor, self.next_sequence));
        }
        let found = self.collect_changes(since, &AllowAll);
        assert((visible_after::<V, E, AllowAll>(since, AllowAll)) =~= after_sequence::<V, E>(since));
        Ok(found)
    }

    /// Returns all retained changes with `sequence > since` that the policy
    /// allows, in sequence order, or the retained gap when compaction has
    /// removed part of that range.
    pub fn changes_since_visible<P: VisibilityPolicy<V>>(&self, since: u64, visibility: &P) -> (changes:
        RetainedResult<Vec<StoreChange<V, E>>>)
        ensures
            since < self@.retained_floor ==> changes == Err::<Vec<StoreChange<V, E>>, _>(gap_at(self@, since)),
            since >= self@.retained_floor ==> (changes matches Ok(found) && same_changes(
                found@,
                self@.changes.filter(visible_after(since, *visibility)),
            )),
    {
        if since < self.retained_floor {
            return Err(RetainedGap::new(since, self.retained_floor, self.next_sequence));
        }
        Ok(self.collect_changes(since, visibility))
    }

    /// Removes expired entries and returns how many were pruned.
    ///
    /// Expiry removes whole entries. Every entry whose expiry has elapsed by
    /// `now` is removed and retained as one `Expired` change, in store order,
    /// each under the next sequence.
    pub fn expire(&mut self, now: Timestamp) -> (removed: usize)
        requires
            old(self).wf(),
        ensures
            final(self).wf(),
            final(self)@.entries == old(self)@.entries.filter(live_at(now)),
            removed == old(self)@.entries.filter(expired_at(now)).len(),
            final(self)@.changes == old(self)@.changes + expiry_records(
                old(self)@.entries.filter(expired_at(now)),
                old(self)@.last_sequence,
            ),
            final(self)@.last_sequence == saturating_offset(old(self)@.last_sequence, removed as int),
            final(self)@.retained_floor == old(self)@.retained_floor,
    {
        let ghost entries = self@.entries;
        let ghost old_log = self@.changes;
        let ghost base = self@.last_sequence;
        let ghost floor = self@.retained_floor;
        let ghost live = live_at::<V, E>(now);
        let ghost gone = expired_at::<V, E>(now);
        let mut kept: Vec<StoredEntry<V, E>> = Vec::new();
        let mut index = EntryIndex::new();
        let mut removed: usize = 0;
        let mut i: usize = 0;
        assert(entries.take(0).filter(live) =~= Seq::<EntryView<V, E>>::empty()) by {
            reveal(Seq::filter);
        }
        assert(entries.take(0).filter(gone) =~= Seq::<EntryView<V, E>>::empty()) by {
            reveal(Seq::filter);
        }
        assert(old_log + expiry_records(Seq::<EntryView<V, E>>::empty(), base) =~= old_log);
        while i < self.entries.len()
            invariant
                i <= self.entries@.len(),
                entries == self.entries@.map_values(|entry: StoredEntry<V, E>| entry.entry_view()),
                entries_well_formed(entries),
                live == live_at::<V, E>(now),
                gone == expired_at::<V, E>(now),
                self.retained_floor == floor,
                kept@.map_values(|entry: StoredEntry<V, E>| entry.entry_view()) == entries.take(i as int).filter(live),
                removed == entries.take(i as int).filter(gone).len(),
                self.changes@ == old_log + expiry_records(entries.take(i as int).filter(gone), base),
                self.next_sequence == saturating_offset(base, removed as int),
                log_well_formed(self.changes@, self.next_sequence, floor),
                forall|a: int, t: int|
                    0 <= a < kept@.len() && i <= t < entries.len() ==> (#[trigger] kept@[a]).key
                        != (#[trigger] entries[t]).key,
                forall|a: int, b: int|
                    0 <= a < kept@.len() && 0 <= b < kept@.len() && a != b ==> (#[trigger] kept@[a]).key
                        != (#[trigger] kept@[b]).key,
                forall|a: int| 0 <= a < kept@.len() ==> unique_kinds((#[trigger] kept@[a]).facets@),
                forall|a: int|
                    0 <= a < kept@.len() ==> {
                        &&& entry_index_contents(index).contains_key(slot_key_of((#[trigger] kept@[a]).key))
                        &&& entry_index_contents(index)[slot_key_of(kept@[a].key)] == a
                    },
                forall|k: EntrySlotKey| #[trigger]
                    entry_index_contents(index).contains_key(k) ==> {
                        &&& entry_index_contents(index)[k] < kept@.len()
                        &&& slot_key_of(kept@[entry_index_contents(index)[k] as int].key) == k
                    },
            decreases self.entries@.len() - i,
        {
            proof {
                lemma_filter_prefix_step(entries, i as int, live);
                lemma_filter_prefix_step(entries, i as int, gone);
            }
            let entry = &self.entries[i];
            assert(entry.entry_view() == entries[i as int]);
            if entry.expiry.is_expired_by(now) {
                let sequence = self.next_sequence.saturating_add(1);
                let record = StoreChange {
                    sequence,
                    kind: StoreChangeKind::Expired(StoreExpired { key: entry.key, visibility: entry.visibility }),
                };
                proof {
                    lemma_log_push(self.changes@, self.next_sequence, floor, record);
                    let before = entries.take(i as int).filter(gone);
                    assert(expiry_records(before.push(entries[i as int]), base) =~= expiry_records(before, base).push(record));
                    assert(old_log + expiry_records(before, base).push(record) =~= (old_log + expiry_records(before, base)).push(record));
                }
                self.changes.push(record);
                self.next_sequence = sequence;
                removed += 1;
            } else {
                let copy = StoredEntry {
                    key: entry.key,
                    visibility: entry.visibility,
                    observed_at: entry.observed_at,
                    expiry: entry.expiry,
                    facets: copy_vec(&entry.facets),
                };
                let slot = kept.len();
                proof {
                    let k = slot_key_of(copy.key);
                    if entry_index_contents(index).contains_key(k) {
                        let a = entry_index_contents(index)[k] as int;
                        assert(kept@[a].key == entries[i as int].key);
                        assert(false);
                    }
                }
                index.insert(slot_key(&copy.key), slot);
                kept.push(copy);
                proof {
                    assert(kept@.map_values(|entry: StoredEntry<V, E>| entry.entry_view())
                        =~= entries.take(i as int).filter(live).push(entries[i as int]));
                    assert(unique_kinds(entries[i as int].facets));
                    assert forall|a: int| 0 <= a < kept@.len() implies unique_kinds((#[trigger] kept@[a]).facets@) by {
                        if a == kept@.len() - 1 {
                            assert(kept@[a].facets@ == entries[i as int].facets);
                        }
                    }
                    assert forall|a: int, t: int|
                        0 <= a < kept@.len() && i + 1 <= t < entries.len() implies (#[trigger] kept@[a]).key
                            != (#[trigger] entries[t]).key by {
                        if a == kept@.len() - 1 {
                            assert(kept@[a].key == entries[i as int].key);
                        }
                    }
                }
            }
            i += 1;
        }
        proof {
            assert(entries.take(i as int) =~= entries);
        }
        self.entries = kept;
        self.index = index;
        proof {
            assert(self@.entries == entries.filter(live));
            assert forall|a: int| 0 <= a < self@.entries.len() implies unique_kinds(#[trigger] self@.entries[a].facets) by {
                assert(self.entries@[a].entry_view() == self@.entries[a]);
            }
            assert forall|a: int, b: int|
                0 <= a < self@.entries.len() && 0 <= b < self@.entries.len() && a != b implies
                (#[trigger] self@.entries[a]).key != (#[trigger] self@.entries[b]).key by {
                assert(self.entries@[a].entry_view() == self@.entries[a]);
                assert(self.entries@[b].entry_view() == self@.entries[b]);
            }
            assert(self@.well_formed());
            assert(self.index_wf());
        }
        removed
    }

    /// Compacts retained changes through `sequence` (held at the last
    /// assigned sequence) and returns how many changes were removed.
    ///
    /// When that bound lies above the retained floor, every retained change
    /// numbered at or below it is dropped and the floor moves up to it;
    /// otherwise nothing changes.
    pub fn compact_changes_through(&mut self, sequence: u64) -> (removed: usize)
        requires
            old(self).wf(),
        ensures
            final(self).wf(),
            final(self)@.entries == old(self)@.entries,
            final(self)@.last_sequence == old(self)@.last_sequence,
            ({
                let target = if sequence < old(self)@.last_sequence {
                    sequence
                } else {
                    old(self)@.last_sequence
                };
                if target <= old(self)@.retained_floor {
                    &&& removed == 0
                    &&& final(self)@.changes == old(self)@.changes
                    &&& final(self)@.retained_floor == old(self)@.retained_floor
                } else {
                    &&& final(self)@.retained_floor == target
                    &&& removed <= old(self)@.changes.len()
                    &&& final(self)@.changes == old(self)@.changes.skip(removed as int)
                    &&& forall|i: int| 0 <= i < removed ==> (#[trigger] old(self)@.changes[i]).sequence <= target
                    &&& forall|i: int|
                        removed <= i < old(self)@.changes.len() ==> (#[trigger] old(self)@.changes[i]).sequence
                            > target
                }
            }),
    {
        let target = if sequence < self.next_sequence {
            sequence
        } else {
            self.next_sequence
        };
        if target <= self.retained_floor {
            return 0;
        }
        let ghost log = self@.changes;
        let mut k: usize = 0;
        while k < self.changes.len() && self.changes[k].sequence <= target
            invariant
                k <= self.changes@.len(),
                log == self.changes@,
                forall|i: int| 0 <= i < k ==> (#[trigger] log[i]).sequence <= target,
            decreases self.changes@.len() - k,
        {
            k += 1;
        }
        proof {
            assert forall|i: int| k <= i < log.len() implies (#[trigger] log[i]).sequence > target by {
                if i > k {
                    assert(log[k as int].sequence <= log[i].sequence);
                }
            }
        }
        let tail = self.changes.split_off(k);
        self.changes = tail;
        self.retained_floor = target;
        proof {
            assert(self@.changes =~= log.skip(k as int));
            assert(self@.entries == old(self)@.entries);
            let v = self@;
            assert forall|i: int| 0 <= i < v.changes.len() implies {
                &&& (#[trigger] v.changes[i]).sequence <= v.last_sequence
                &&& v.changes[i].sequence > v.retained_floor || v.changes[i].sequence == u64::MAX
            } by {
                assert(v.changes[i] == log[i + k]);
            }
            assert forall|i: int, j: int| 0 <= i < j < v.changes.len() implies {
                &&& (#[trigger] v.changes[i]).sequence <= (#[trigger] v.changes[j]).sequence
                &&& v.changes[i].sequence == v.changes[j].sequence ==> v.changes[j].sequence == u64::MAX
            } by {
                assert(v.changes[i] == log[i + k]);
                assert(v.changes[j] == log[j + k]);
            }
            if v.last_sequence > v.retained_floor {
                assert(log.len() > 0);
                assert(log[log.len() - 1].sequence == v.last_sequence);
            }
            assert(self.index_wf());
        }
        k
    }

    /// Groups the visible snapshots of `context` by subject, in order of each
    /// subject's first appearance.
    fn group_subjects<P: VisibilityPolicy<V>>(&self, context: u64, visibility: &P) -> (groups: Vec<
        SubjectProjectionAccumulator<V, E>,
    >)
        ensures
            ({
                let entries = self@.entries.filter(visible_in_context(context, *visibility));
                let subjects = distinct_subjects(entries);
                &&& groups@.len() == subjects.len()
                &&& forall|g: int|
                    0 <= g < groups@.len() ==> {
                        let group = entries.filter(has_subject((#[trigger] groups@[g]).subject));
                        &&& groups@[g].subject == subjects[g]
                        &&& group.len() > 0
                        &&& groups@[g].subject == group[0].key.address.subject
                        &&& groups@[g].context == group[0].key.address.context
                        &&& materializes_all(groups@[g].resources@, group)
                    }
            }),
    {
        let snapshots = self.snapshots_in_context_visible(&context, visibility);
        let ghost entries = self@.entries.filter(visible_in_context(context, *visibility));
        let mut groups: Vec<SubjectProjectionAccumulator<V, E>> = Vec::new();
        let mut index = SubjectIndex::new();
        let mut i: usize = 0;
        assert(entries.take(0) =~= Seq::<EntryView<V, E>>::empty());
        while i < snapshots.len()
            invariant
                i <= snapshots@.len(),
                materializes_all(snapshots@, entries),
                groups@.len() == distinct_subjects(entries.take(i as int)).len(),
                forall|g: int|
                    0 <= g < groups@.len() ==> {
                        let group = entries.take(i as int).filter(has_subject((#[trigger] groups@[g]).subject));
                        &&& groups@[g].subject == distinct_subjects(entries.take(i as int))[g]
                        &&& group.len() > 0
                        &&& groups@[g].subject == group[0].key.address.subject
                        &&& groups@[g].context == group[0].key.address.context
                        &&& materializes_all(groups@[g].resources@, group)
                    },
                forall|g: int|
                    0 <= g < groups@.len() ==> {
                        &&& subject_index_contents(index).contains_key((#[trigger] groups@[g]).subject)
                        &&& subject_index_contents(index)[groups@[g].subject] == g
                    },
                forall|subject: u64| #[trigger]
                    subject_index_contents(index).contains_key(subject) ==> {
                        &&& subject_index_contents(index)[subject] < groups@.len()
                        &&& groups@[subject_index_contents(index)[subject] as int].subject == subject
                    },
            decreases snapshots@.len() - i,
        {
            let snapshot = copy_snapshot(&snapshots[i]);
            let subject = snapshot.address.subject;
            let ghost prefix = entries.take(i as int);
            let ghost next = entries.take(i + 1);
            let ghost entry = entries[i as int];
            proof {
                assert(materializes(snapshots@[i as int], entry));
                assert(next.drop_last() =~= prefix);
                assert(next.last() == entry);
                assert(materializes(snapshot, entry));
            }
            match index.get(subject) {
                Some(g) => {
                    let ghost before = groups@;
                    groups[g].push(snapshot);
                    proof {
                        assert(distinct_subjects(prefix)[g as int] == subject);
                        assert(distinct_subjects(prefix).contains(subject));
                        assert(distinct_subjects(next) == distinct_subjects(prefix));
                        assert forall|h: int| 0 <= h < groups@.len() implies {
                            let group = next.filter(has_subject((#[trigger] groups@[h]).subject));
                            &&& groups@[h].subject == distinct_subjects(next)[h]
                            &&& group.len() > 0
                            &&& groups@[h].subject == group[0].key.address.subject
                            &&& groups@[h].context == group[0].key.address.context
                            &&& materializes_all(groups@[h].resources@, group)
                        } by {
                            let s = groups@[h].subject;
                            lemma_filter_prefix_step(entries, i as int, has_subject(s));
                            if h == g as int {
                                let group = next.filter(has_subject(s));
                                assert(group == prefix.filter(has_subject(s)).push(entry));
                                assert(group[0] == prefix.filter(has_subject(s))[0]);
                                assert(groups@[h].resources@ == before[h].resources@.push(snapshot));
                            } else {
                                assert(groups@[h] == before[h]);
                                assert(subject_index_contents(index)[s] == h);
                            }
                        }
                    }
                },
                None => {
                    let g = groups.len();
                    let ghost before = groups@;
                    groups.push(SubjectProjectionAccumulator::new(snapshot));
                    index.insert(subject, g);
                    proof {
                        lemma_distinct_subjects(prefix);
                        if distinct_subjects(prefix).contains(subject) {
                            let t = choose|t: int| 0 <= t < distinct_subjects(prefix).len()
                                && distinct_subjects(prefix)[t] == subject;
                            assert(before[t].subject == subject);
                            assert(false);
                        }
                        assert forall|j: int| 0 <= j < prefix.len() implies !(has_subject::<V, E>(subject))(
                            #[trigger] prefix[j],
                        ) by {
                            assert(distinct_subjects(prefix).contains(prefix[j].key.address.subject));
                        }
                        lemma_filter_none(prefix, has_subject::<V, E>(subject));
                        assert(distinct_subjects(next) == distinct_subjects(prefix).push(subject));
                        assert forall|h: int| 0 <= h < groups@.len() implies {
                            let group = next.filter(has_subject((#[trigger] groups@[h]).subject));
                            &&& groups@[h].subject == distinct_subjects(next)[h]
                            &&& group.len() > 0
                            &&& groups@[h].subject == group[0].key.address.subject
                            &&& groups@[h].context == group[0].key.address.context
                            &&& materializes_all(groups@[h].resources@, group)
                        } by {
                            let s = groups@[h].subject;
                            lemma_filter_prefix_step(entries, i as int, has_subject(s));
                            if h == g as int {
                                let group = next.filter(has_subject(s));
                                assert(group =~= seq![entry]);
                            } else {
                                assert(groups@[h] == before[h]);
                            }
                        }
                    }
                },
            }
            i += 1;
        }
        assert(entries.take(i as int) =~= entries);
        groups
    }

    /// Returns visible projected subject summaries for all subjects in a
    /// context using the provided projection and visibility policies, one
    /// per subject in order of each subject's first appearance in the store.
    pub fn subject_summaries_in_context_visible_with_policy<VP: VisibilityPolicy<V>, PP: SubjectProjectionPolicy>(
        &self,
        context: &u64,
        visibility: &VP,
        policy: &PP,
    ) -> (summaries: Vec<SubjectPresenceSummary<V, E>>)
        ensures
            ({
                let entries = self@.entries.filter(visible_in_context(*context, *visibility));
                let subjects = distinct_subjects(entries);
                &&& summaries@.len() == subjects.len()
                &&& forall|g: int|
                    0 <= g < summaries@.len() ==> (#[trigger] summaries@[g]).subject == subjects[g]
                        && summarizes(summaries@[g], *policy, entries.filter(has_subject(subjects[g])))
            }),
    {
        let groups = self.group_subjects(*context, visibility);
        let ghost entries = self@.entries.filter(visible_in_context(*context, *visibility));
        let ghost all = groups@;
        let mut summaries: Vec<SubjectPresenceSummary<V, E>> = Vec::new();
        for accumulator in it: groups
            invariant
                it.seq() == all,
                summaries@.len() == it.index(),
                forall|g: int|
                    0 <= g < all.len() ==> {
                        let group = entries.filter(has_subject((#[trigger] all[g]).subject));
                        &&& all[g].subject == distinct_subjects(entries)[g]
                        &&& group.len() > 0
                        &&& all[g].subject == group[0].key.address.subject
                        &&& all[g].context == group[0].key.address.context
                        &&& materializes_all(all[g].resources@, group)
                    },
                forall|g: int|
                    0 <= g < summaries@.len() ==> (#[trigger] summaries@[g]).subject == all[g].subject
                        && summarizes(summaries@[g], *policy, entries.filter(has_subject(all[g].subject))),
        {
            let ghost g = it.index();
            let ghost group = entries.filter(has_subject(all[g].subject));
            let summary = summarize_subject(accumulator, policy, Ghost(group));
            summaries.push(summary);
        }
        summaries
    }

    /// Returns visible projected subject summaries for all subjects in a
    /// context using the default subject projection policy.
    pub fn subject_summaries_in_context_visible<P: VisibilityPolicy<V>>(&self, context: &u64, visibility: &P) -> (summaries:
        Vec<SubjectPresenceSummary<V, E>>)
        ensures
            ({
                let entries = self@.entries.filter(visible_in_context(*context, *visibility));
                let subjects = distinct_subjects(entries);
                &&& summaries@.len() == subjects.len()
                &&& forall|g: int|
                    0 <= g < summaries@.len() ==> (#[trigger] summaries@[g]).subject == subjects[g]
                        && summarizes(
                        summaries@[g],
                        DefaultSubjectProjectionPolicy,
                        entries.filter(has_subject(subjects[g])),
                    )
            }),
    {
        self.subject_summaries_in_context_visible_with_policy(context, visibility, &DefaultSubjectProjectionPolicy)
    }

    /// Returns projected subject summaries for all subjects in a context using
    /// the provided subject projection policy.
    pub fn subject_summaries_in_context_with_policy<P: SubjectProjectionPolicy>(&self, context: &u64, policy: &P) -> (summaries:
        Vec<SubjectPresenceSummary<V, E>>)
        ensures
            ({
                let entries = self@.entries.filter(in_context(*context));
                let subjects = distinct_subjects(entries);
                &&& summaries@.len() == subjects.len()
                &&& forall|g: int|
                    0 <= g < summaries@.len() ==> (#[trigger] summaries@[g]).subject == subjects[g]
                        && summarizes(summaries@[g], *policy, entries.filter(has_subject(subjects[g])))
            }),
    {
        assert(visible_in_context::<V, E, AllowAll>(*context, AllowAll) =~= in_context::<V, E>(*context));
        self.subject_summaries_in_context_visible_with_policy(context, &AllowAll, policy)
    }

    /// Returns projected subject summaries for all subjects in a context using
    /// the default subject projection policy.
    pub fn subject_summaries_in_context(&self, context: &u64) -> (summaries: Vec<SubjectPresenceSummary<V, E>>)
        ensures
            ({
                let entries = self@.entries.filter(in_context(*context));
                let subjects = distinct_subjects(entries);
                &&& summaries@.len() == subjects.len()
                &&& forall|g: int|
                    0 <= g < summaries@.len() ==> (#[trigger] summaries@[g]).subject == subjects[g]
                        && summarizes(
                        summaries@[g],
                        DefaultSubjectProjectionPolicy,
                        entries.filter(has_subject(subjects[g])),
                    )
            }),
    {
        self.subject_summaries_in_context_with_policy(context, &DefaultSubjectProjectionPolicy)
    }

    /// Returns a visible projected summary for one subject in a context using
    /// the provided projection and visibility policies, or `None` when the
    /// subject has no visible snapshot there.
    pub fn subject_summary_in_context_visible_with_policy<VP: VisibilityPolicy<V>, PP: SubjectProjectionPolicy>(
        &self,
        subject: &u64,
        context: &u64,
        visibility: &VP,
        policy: &PP,
    ) -> (summary: Option<SubjectPresenceSummary<V, E>>)
        ensures
            ({
                let group = self@.entries.filter(visible_in_context(*context, *visibility)).filter(
                    has_subject(*subject),
                );
                &&& group.len() == 0 ==> summary is None
                &&& group.len() > 0 ==> (summary matches Some(found) && summarizes(found, *policy, group))
            }),
    {
        let scope = SnapshotScope::Subject(*subject, *context);
        let mut snapshots = self.collect_snapshots(scope, visibility);
        let ghost group = self@.entries.filter(visible_in_context(*context, *visibility)).filter(
            has_subject(*subject),
        );
        proof {
            lemma_filter_twice(self@.entries, visible_in_context::<V, E, VP>(*context, *visibility), has_subject::<V, E>(*subject));
            assert((|entry: EntryView<V, E>| scope.admits(entry) && visibility.permits(entry.visibility))
                =~= (|entry: EntryView<V, E>| (visible_in_context::<V, E, VP>(*context, *visibility))(entry)
                && (has_subject::<V, E>(*subject))(entry)));
        }
        if snapshots.len() == 0 {
            return None;
        }
        let first = copy_snapshot(&snapshots[0]);
        assert(materializes(snapshots@[0], group[0]));
        let mut accumulator = SubjectProjectionAccumulator::new(first);
        accumulator.resources = snapshots;
        Some(summarize_subject(accumulator, policy, Ghost(group)))
    }

    /// Returns a visible projected summary for one subject in a context using
    /// the default subject projection policy.
    pub fn subject_summary_in_context_visible<P: VisibilityPolicy<V>>(&self, subject: &u64, context: &u64, visibility: &P) -> (summary:
        Option<SubjectPresenceSummary<V, E>>)
        ensures
            ({
                let group = self@.entries.filter(visible_in_context(*context, *visibility)).filter(
                    has_subject(*subject),
                );
                &&& group.len() == 0 ==> summary is None
                &&& group.len() > 0 ==> (summary matches Some(found) && summarizes(
                    found,
                    DefaultSubjectProjectionPolicy,
                    group,
                ))
            }),
    {
        self.subject_summary_in_context_visible_with_policy(subject, context, visibility, &DefaultSubjectProjectionPolicy)
    }

    /// Returns a projected summary for one subject in a context using the
    /// provided subject projection policy, or `None` when the subject has no
    /// snapshot there.
    pub fn subject_summary_in_context_with_policy<P: SubjectProjectionPolicy>(&self, subject: &u64, context: &u64, policy: &P) -> (summary:
        Option<SubjectPresenceSummary<V, E>>)
        ensures
            ({
                let group = self@.entries.filter(in_context(*context)).filter(has_subject(*subject));
                &&& group.len() == 0 ==> summary is None
                &&& group.len() > 0 ==> (summary matches Some(found) && summarizes(found, *policy, group))
            }),
    {
        assert(visible_in_context::<V, E, AllowAll>(*context, AllowAll) =~= in_context::<V, E>(*context));
        self.subject_summary_in_context_visible_with_policy(subject, context, &AllowAll, policy)
    }

    /// Returns a projected summary for one subject in a context using the
    /// default subject projection policy.
    pub fn subject_summary_in_context(&self, subject: &u64, context: &u64) -> (summary: Option<
        SubjectPresenceSummary<V, E>,
    >)
        ensures
            ({
                let group = self@.entries.filter(in_context(*context)).filter(has_subject(*subject));
                &&& group.len() == 0 ==> summary is None
                &&& group.len() > 0 ==> (summary matches Some(found) && summarizes(
                    found,
                    DefaultSubjectProjectionPolicy,
                    group,
                ))
            }),
    {
        self.subject_summary_in_context_with_policy(subject, context, &DefaultSubjectProjectionPolicy)
    }
}

impl<V: Copy, E: ExtensionFacet> Clone for InMemoryStore<V, E> {
    /// Copies the store: the same sequences, retained floor, entries and
    /// (change for change) retained log.
    fn clone(&self) -> (copy: Self)
        ensures
            self.wf() ==> copy.wf(),
            copy@.last_sequence == self@.last_sequence,
            copy@.retained_floor == self@.retained_floor,
            copy@.entries == self@.entries,
            same_changes(copy@.changes, self@.changes),
    {
        let mut changes: Vec<StoreChange<V, E>> = Vec::new();
        let mut i: usize = 0;
        while i < self.changes.len()
            invariant
                i <= self.changes@.len(),
                changes@.len() == i,
                forall|k: int| 0 <= k < i ==> (#[trigger] changes@[k]).same_change(&self.changes@[k]),
            decreases self.changes@.len() - i,
        {
            changes.push(self.changes[i].duplicate());
            i += 1;
        }
        let ghost entries = self@.entries;
        let mut copied: Vec<StoredEntry<V, E>> = Vec::new();
        let mut index = EntryIndex::new();
        let mut j: usize = 0;
        while j < self.entries.len()
            invariant
                j <= self.entries@.len(),
                copied@.len() == j,
                entries == self.entries@.map_values(|entry: StoredEntry<V, E>| entry.entry_view()),
                copied@.map_values(|entry: StoredEntry<V, E>| entry.entry_view()) == entries.take(j as int),
                self.wf() ==> forall|a: int|
                    0 <= a < copied@.len() ==> {
                        &&& entry_index_contents(index).contains_key(slot_key_of((#[trigger] copied@[a]).key))
                        &&& entry_index_contents(index)[slot_key_of(copied@[a].key)] == a
                    },
                forall|k: EntrySlotKey| #[trigger]
                    entry_index_contents(index).contains_key(k) ==> {
                        &&& entry_index_contents(index)[k] < copied@.len()
                        &&& slot_key_of(copied@[entry_index_contents(index)[k] as int].key) == k
                    },
            decreases self.entries@.len() - j,
        {
            let entry = &self.entries[j];
            let copy = StoredEntry {
                key: entry.key,
                visibility: entry.visibility,
                observed_at: entry.observed_at,
                expiry: entry.expiry,
                facets: copy_vec(&entry.facets),
            };
            proof {
                if self.wf() {
                    let k = slot_key_of(copy.key);
                    if entry_index_contents(index).contains_key(k) {
                        let a = entry_index_contents(index)[k] as int;
                        assert(copied@.map_values(|entry: StoredEntry<V, E>| entry.entry_view())[a] == entries.take(j as int)[a]);
                        assert(copied@[a].entry_view() == entries[a]);
                        assert(entries[j as int] == self.entries@[j as int].entry_view());
                        assert(entries[a].key == entries[j as int].key);
                        assert(false);
                    }
                }
            }
            assert(copy.entry_view() == entries[j as int]);
            index.insert(slot_key(&copy.key), j);
            copied.push(copy);
            proof {
                assert(copied@.map_values(|entry: StoredEntry<V, E>| entry.entry_view()) =~= entries.take(j + 1));
            }
            j += 1;
        }
        assert(entries.take(j as int) =~= entries);
        let copy = InMemoryStore {
            next_sequence: self.next_sequence,
            retained_floor: self.retained_floor,
            changes,
            entries: copied,
            index,
        };
        proof {
            assert(copy@.entries == self@.entries);
            if self.wf() {
                assert forall|a: int| 0 <= a < copy@.changes.len() implies #[trigger] copy@.changes[a].sequence
                    == self@.changes[a].sequence by {
                    assert(copy@.changes[a].same_change(&self@.changes[a]));
                }
                assert(copy.index_wf());
            }
        }
        copy
    }
}

impl<V, E: ExtensionFacet> Default for InMemoryStore<V, E> {
    fn default() -> (store: Self)
        ensures
            store.wf(),
            store@.last_sequence == 0,
            store@.retained_floor == 0,
            store@.changes == Seq::<StoreChange<V, E>>::empty(),
            store@.entries == Seq::<EntryView<V, E>>::empty(),
    {
        Self::new()
    }
}

impl<V, E: ExtensionFacet> InMemoryStore<V, E> {
    /// Returns the retained-log status at `since`.
    pub fn change_status_since(&self, since: u64) -> (status: RetainedStatus)
        ensures
            status == status_at(self@, since),
    {
        if since < self.retained_floor {
            RetainedStatus::Gap(RetainedGap::new(since, self.retained_floor, self.next_sequence))
        } else if self.next_sequence > since {
            RetainedStatus::Pending
        } else {
            RetainedStatus::UpToDate
        }
    }

    /// Returns `true` when a retained change beyond `since` is visible under
    /// the policy.
    pub fn has_visible_changes_since<P: VisibilityPolicy<V>>(&self, since: u64, visibility: &P) -> (pending:
        bool)
        ensures
            pending == (self@.changes.filter(visible_after(since, *visibility)).len() > 0),
    {
        let ghost keep = visible_after::<V, E, P>(since, *visibility);
        let ghost log = self@.changes;
        let mut i: usize = 0;
        assert(log.take(0).filter(keep) =~= Seq::<StoreChange<V, E>>::empty()) by {
            reveal(Seq::filter);
        }
        while i < self.changes.len()
            invariant
                i <= self.changes@.len(),
                log == self.changes@,
                keep == visible_after::<V, E, P>(since, *visibility),
                log.take(i as int).filter(keep).len() == 0,
            decreases self.changes@.len() - i,
        {
            proof {
                lemma_filter_prefix_step(log, i as int, keep);
            }
            let change = &self.changes[i];
            let label: &Visibility<V> = match &change.kind {
                StoreChangeKind::Published(update) => &update.visibility,
                StoreChangeKind::Expired(expired) => &expired.visibility,
            };
            if change.sequence > since && visibility.allows(label) {
                proof {
                    lemma_filter_nonempty(log, i as int, keep);
                }
                return true;
            }
            i += 1;
        }
        assert(log.take(i as int) =~= log);
        false
    }

    /// Returns the retained-log status for visible changes at `since`.
    pub fn visible_change_status_since<P: VisibilityPolicy<V>>(&self, since: u64, visibility: &P) -> (status:
        RetainedStatus)
        ensures
            status == visible_status_at(self@, since, *visibility),
    {
        if since < self.retained_floor {
            RetainedStatus::Gap(RetainedGap::new(since, self.retained_floor, self.next_sequence))
        } else if self.has_visible_changes_since(since, visibility) {
            RetainedStatus::Pending
        } else {
            RetainedStatus::UpToDate
        }
    }
}

} // verus!
