//! The abstract state of a store and the spec functions its contracts are
//! written in.
//!
//! A store is seen as a sequence of entries, one per entry key, and a
//! retained change log. The spec functions here say what each operation
//! makes of that state.

use vstd::prelude::*;

use crate::beacon::saturating_sum;
use crate::presence::{Expiry, ExtensionFacet, PresenceFacet, Timestamp, Visibility};
use crate::store::change::{StoreChange, StoreChangeKind, StoreExpired};
use crate::store::reduction::{apply_changes, unique_kinds};
use crate::store::retained::{RetainedGap, RetainedStatus};
use crate::store::visibility::VisibilityPolicy;
use crate::store::{EntryKey, PresenceEntryKey, StoreAddress, StoreSnapshot, StoreUpdate};

verus! {

/// The stored state of one entry: its key, the metadata of the latest update
/// published under that key, and its materialized facets.
pub struct EntryView<V, E: ExtensionFacet> {
    /// The entry key.
    pub key: EntryKey,
    /// The visibility label of the latest update.
    pub visibility: Visibility<V>,
    /// The observation time of the latest update.
    pub observed_at: Timestamp,
    /// The expiry of the latest update.
    pub expiry: Expiry,
    /// The materialized facets, at most one per kind.
    pub facets: Seq<PresenceFacet<E>>,
}

/// The abstract state of an [`InMemoryStore`].
pub struct StoreView<V, E: ExtensionFacet> {
    /// The most recently assigned sequence.
    pub last_sequence: u64,
    /// The oldest cursor position that can still be answered exactly.
    pub retained_floor: u64,
    /// The retained change log, oldest first.
    pub changes: Seq<StoreChange<V, E>>,
    /// The stored entries, in the order in which their keys first arrived.
    pub entries: Seq<EntryView<V, E>>,
}

/// The key under which an update is stored: its address and origin.
pub open spec fn update_key<V, E: ExtensionFacet>(update: StoreUpdate<V, E>) -> EntryKey {
    PresenceEntryKey { address: update.address, origin: update.origin }
}

/// The position of the entry stored under `key`, if there is one.
pub open spec fn slot_of_key<V, E: ExtensionFacet>(
    entries: Seq<EntryView<V, E>>,
    key: EntryKey,
) -> Option<int> {
    if exists|i: int| 0 <= i < entries.len() && (#[trigger] entries[i]).key == key {
        Some(choose|i: int| 0 <= i < entries.len() && (#[trigger] entries[i]).key == key)
    } else {
        None
    }
}

/// The entry stored under `key`, if there is one.
pub open spec fn entry_for_key<V, E: ExtensionFacet>(
    entries: Seq<EntryView<V, E>>,
    key: EntryKey,
) -> Option<EntryView<V, E>> {
    match slot_of_key(entries, key) {
        Some(i) => Some(entries[i]),
        None => None,
    }
}

/// The entry that publishing `update` leaves under its key, given the facets
/// that were stored there before: the update's metadata replaces the old
/// metadata and its changes are applied in order to the old facets.
pub open spec fn entry_after_publish<V, E: ExtensionFacet>(
    previous: Seq<PresenceFacet<E>>,
    update: StoreUpdate<V, E>,
) -> EntryView<V, E> {
    EntryView {
        key: update_key(update),
        visibility: update.visibility,
        observed_at: update.observed_at,
        expiry: update.expiry,
        facets: apply_changes(previous, update.changes@),
    }
}

/// The entries after publishing `update`: the entry under its key is
/// rewritten in place, or a new entry is appended when the key is new.
pub open spec fn entries_after_publish<V, E: ExtensionFacet>(
    entries: Seq<EntryView<V, E>>,
    update: StoreUpdate<V, E>,
) -> Seq<EntryView<V, E>> {
    match slot_of_key(entries, update_key(update)) {
        Some(i) => entries.update(i, entry_after_publish(entries[i].facets, update)),
        None => entries.push(entry_after_publish(Seq::empty(), update)),
    }
}

/// Whether `change` records the publication of `update` at `sequence`.
pub open spec fn records_publication<V, E: ExtensionFacet>(
    change: StoreChange<V, E>,
    sequence: u64,
    update: StoreUpdate<V, E>,
) -> bool {
    &&& change.sequence == sequence
    &&& change.kind matches StoreChangeKind::Published(published) && published.same_update(&update)
}

/// Whether `snapshot` materializes `entry`.
pub open spec fn materializes<V, E: ExtensionFacet>(
    snapshot: StoreSnapshot<V, E>,
    entry: EntryView<V, E>,
) -> bool {
    &&& snapshot.address == entry.key.address
    &&& snapshot.origin == entry.key.origin
    &&& snapshot.visibility == entry.visibility
    &&& snapshot.observed_at == entry.observed_at
    &&& snapshot.expiry == entry.expiry
    &&& snapshot.facets@ == entry.facets
}

/// Whether `snapshots` materialize `entries`, one for one and in order.
pub open spec fn materializes_all<V, E: ExtensionFacet>(
    snapshots: Seq<StoreSnapshot<V, E>>,
    entries: Seq<EntryView<V, E>>,
) -> bool {
    &&& snapshots.len() == entries.len()
    &&& forall|i: int| 0 <= i < entries.len() ==> materializes(#[trigger] snapshots[i], entries[i])
}

/// Whether `left` and `right` hold the same snapshots, one for one and in
/// order.
pub open spec fn same_snapshots<V, E: ExtensionFacet>(
    left: Seq<StoreSnapshot<V, E>>,
    right: Seq<StoreSnapshot<V, E>>,
) -> bool {
    &&& left.len() == right.len()
    &&& forall|i: int| 0 <= i < left.len() ==> (#[trigger] left[i]).same_snapshot(&right[i])
}

/// Whether an entry is stored for `address`.
pub open spec fn at_address<V, E: ExtensionFacet>(address: StoreAddress) -> spec_fn(EntryView<V, E>) -> bool {
    |entry: EntryView<V, E>| entry.key.address == address
}

/// Whether an entry is stored for `address` and `policy` permits it.
pub open spec fn visible_at_address<V, E: ExtensionFacet, P: VisibilityPolicy<V>>(
    address: StoreAddress,
    policy: P,
) -> spec_fn(EntryView<V, E>) -> bool {
    |entry: EntryView<V, E>| entry.key.address == address && policy.permits(entry.visibility)
}

/// Whether an entry is stored in `context`.
pub open spec fn in_context<V, E: ExtensionFacet>(context: u64) -> spec_fn(EntryView<V, E>) -> bool {
    |entry: EntryView<V, E>| entry.key.address.context == context
}

/// Whether an entry is stored in `context` and `policy` permits it.
pub open spec fn visible_in_context<V, E: ExtensionFacet, P: VisibilityPolicy<V>>(
    context: u64,
    policy: P,
) -> spec_fn(EntryView<V, E>) -> bool {
    |entry: EntryView<V, E>| entry.key.address.context == context && policy.permits(entry.visibility)
}

/// Whether a change has a sequence greater than `since`.
pub open spec fn after_sequence<V, E: ExtensionFacet>(since: u64) -> spec_fn(StoreChange<V, E>) -> bool {
    |change: StoreChange<V, E>| change.sequence > since
}

/// Whether a change has a sequence greater than `since` and `policy`
/// permits its visibility.
pub open spec fn visible_after<V, E: ExtensionFacet, P: VisibilityPolicy<V>>(
    since: u64,
    policy: P,
) -> spec_fn(StoreChange<V, E>) -> bool {
    |change: StoreChange<V, E>| change.sequence > since && policy.permits(change.change_visibility())
}

/// The gap reported for a query at `since` that retention can no longer
/// answer exactly.
pub open spec fn gap_at<V, E: ExtensionFacet>(view: StoreView<V, E>, since: u64) -> RetainedGap {
    RetainedGap {
        requested_since: since,
        retained_floor_sequence: view.retained_floor,
        last_sequence: view.last_sequence,
    }
}

/// The retained-log status at `since`: a gap below the retained floor,
/// pending when a later sequence has been assigned, up to date otherwise.
pub open spec fn status_at<V, E: ExtensionFacet>(view: StoreView<V, E>, since: u64) -> RetainedStatus {
    if since < view.retained_floor {
        RetainedStatus::Gap(gap_at(view, since))
    } else if view.last_sequence > since {
        RetainedStatus::Pending
    } else {
        RetainedStatus::UpToDate
    }
}

/// The retained-log status for visible changes at `since`: a gap below the
/// retained floor, pending when a retained change beyond `since` is visible,
/// up to date otherwise.
pub open spec fn visible_status_at<V, E: ExtensionFacet, P: VisibilityPolicy<V>>(
    view: StoreView<V, E>,
    since: u64,
    policy: P,
) -> RetainedStatus {
    if since < view.retained_floor {
        RetainedStatus::Gap(gap_at(view, since))
    } else if view.changes.filter(visible_after(since, policy)).len() > 0 {
        RetainedStatus::Pending
    } else {
        RetainedStatus::UpToDate
    }
}

/// Whether a change has a sequence greater than `since` and `permits` admits
/// its visibility label.
pub open spec fn permitted_after<V, E: ExtensionFacet>(
    since: u64,
    permits: spec_fn(Visibility<V>) -> bool,
) -> spec_fn(StoreChange<V, E>) -> bool {
    |change: StoreChange<V, E>| change.sequence > since && permits(change.change_visibility())
}

/// The retained-log status at `since` for the changes whose labels `permits`
/// admits: a gap below the retained floor, pending when such a change lies
/// beyond `since`, up to date otherwise.
pub open spec fn permitted_status_at<V, E: ExtensionFacet>(
    view: StoreView<V, E>,
    since: u64,
    permits: spec_fn(Visibility<V>) -> bool,
) -> RetainedStatus {
    if since < view.retained_floor {
        RetainedStatus::Gap(gap_at(view, since))
    } else if view.changes.filter(permitted_after(since, permits)).len() > 0 {
        RetainedStatus::Pending
    } else {
        RetainedStatus::UpToDate
    }
}

/// The visible status under a policy is the status for the labels the
/// policy permits.
pub proof fn lemma_visible_status_is_permitted_status<V, E: ExtensionFacet, P: VisibilityPolicy<V>>(
    view: StoreView<V, E>,
    since: u64,
    policy: P,
)
    ensures
        visible_status_at(view, since, policy) == permitted_status_at(
            view,
            since,
            |label: Visibility<V>| policy.permits(label),
        ),
{
    assert(visible_after::<V, E, P>(since, policy) =~= permitted_after::<V, E>(
        since,
        |label: Visibility<V>| policy.permits(label),
    ));
}

/// `base + offset`, or `u64::MAX` when the sum does not fit.
pub open spec fn saturating_offset(base: u64, offset: int) -> u64 {
    if base + offset <= u64::MAX {
        (base + offset) as u64
    } else {
        u64::MAX
    }
}

/// Whether an entry has expired by `now`.
pub open spec fn expired_at<V, E: ExtensionFacet>(now: Timestamp) -> spec_fn(EntryView<V, E>) -> bool {
    |entry: EntryView<V, E>| entry.expiry.expired_by(now)
}

/// Whether an entry is still live at `now`.
pub open spec fn live_at<V, E: ExtensionFacet>(now: Timestamp) -> spec_fn(EntryView<V, E>) -> bool {
    |entry: EntryView<V, E>| !entry.expiry.expired_by(now)
}

/// The `Expired` changes retained for `removed` entries, numbered from
/// `base + 1` (saturating at `u64::MAX`).
pub open spec fn expiry_records<V, E: ExtensionFacet>(
    removed: Seq<EntryView<V, E>>,
    base: u64,
) -> Seq<StoreChange<V, E>> {
    Seq::new(
        removed.len(),
        |k: int|
            StoreChange {
                sequence: saturating_offset(base, k + 1),
                kind: StoreChangeKind::Expired(
                    StoreExpired { key: removed[k].key, visibility: removed[k].visibility },
                ),
            },
    )
}

/// One filtering step: filtering a prefix one element longer adds that
/// element exactly when the predicate holds of it.
pub proof fn lemma_filter_prefix_step<T>(items: Seq<T>, i: int, keep: spec_fn(T) -> bool)
    requires
        0 <= i < items.len(),
    ensures
        items.take(i + 1).filter(keep) == if keep(items[i]) {
            items.take(i).filter(keep).push(items[i])
        } else {
            items.take(i).filter(keep)
        },
{
    reveal(Seq::filter);
    assert(items.take(i + 1).drop_last() =~= items.take(i));
    assert(items.take(i + 1).last() == items[i]);
}

/// If the predicate holds of some element, the filter is not empty.
pub proof fn lemma_filter_nonempty<T>(items: Seq<T>, i: int, keep: spec_fn(T) -> bool)
    requires
        0 <= i < items.len(),
        keep(items[i]),
    ensures
        items.filter(keep).len() > 0,
{
    reveal(Seq::filter);
    items.lemma_filter_contains(keep, i);
}

/// The invariants of a store's entries: one entry per key and one facet per
/// kind.
pub open spec fn entries_well_formed<V, E: ExtensionFacet>(entries: Seq<EntryView<V, E>>) -> bool {
    &&& forall|i: int, j: int|
        0 <= i < entries.len() && 0 <= j < entries.len() && i != j ==> (#[trigger] entries[i]).key
            != (#[trigger] entries[j]).key
    &&& forall|i: int| 0 <= i < entries.len() ==> unique_kinds(#[trigger] entries[i].facets)
}

/// The invariants of a retained log: its sequences increase (they only
/// repeat at `u64::MAX`, where sequencing saturates), lie above the retained
/// floor and end at the last assigned sequence.
pub open spec fn log_well_formed<V, E: ExtensionFacet>(
    changes: Seq<StoreChange<V, E>>,
    last_sequence: u64,
    retained_floor: u64,
) -> bool {
    &&& retained_floor <= last_sequence
    &&& forall|i: int| 0 <= i < changes.len() ==> {
        &&& (#[trigger] changes[i]).sequence <= last_sequence
        &&& changes[i].sequence > retained_floor || changes[i].sequence == u64::MAX
    }
    &&& forall|i: int, j: int|
        0 <= i < j < changes.len() ==> {
            &&& (#[trigger] changes[i]).sequence <= (#[trigger] changes[j]).sequence
            &&& changes[i].sequence == changes[j].sequence ==> changes[j].sequence == u64::MAX
        }
    &&& changes.len() > 0 ==> changes.last().sequence == last_sequence
    &&& last_sequence > retained_floor ==> changes.len() > 0
}

/// Appending a change numbered one past the last sequence keeps a retained
/// log well formed.
pub proof fn lemma_log_push<V, E: ExtensionFacet>(
    changes: Seq<StoreChange<V, E>>,
    last_sequence: u64,
    retained_floor: u64,
    change: StoreChange<V, E>,
)
    requires
        log_well_formed(changes, last_sequence, retained_floor),
        change.sequence == saturating_sum(last_sequence, 1),
    ensures
        log_well_formed(changes.push(change), change.sequence, retained_floor),
{
    let after = changes.push(change);
    assert forall|i: int, j: int| 0 <= i < j < after.len() implies {
        &&& (#[trigger] after[i]).sequence <= (#[trigger] after[j]).sequence
        &&& after[i].sequence == after[j].sequence ==> after[j].sequence == u64::MAX
    } by {
        assert(after[i] == changes[i]);
        if j < changes.len() {
            assert(after[j] == changes[j]);
        }
    }
    assert forall|i: int| 0 <= i < after.len() implies {
        &&& (#[trigger] after[i]).sequence <= change.sequence
        &&& after[i].sequence > retained_floor || after[i].sequence == u64::MAX
    } by {
        if i < changes.len() {
            assert(after[i] == changes[i]);
        }
    }
}

impl<V, E: ExtensionFacet> StoreView<V, E> {
    /// The invariants every store keeps: well-formed entries and a
    /// well-formed retained log.
    pub open spec fn well_formed(self) -> bool {
        &&& entries_well_formed(self.entries)
        &&& log_well_formed(self.changes, self.last_sequence, self.retained_floor)
    }
}

/// Filtering by two predicates in turn is filtering by both at once.
pub proof fn lemma_filter_twice<T>(items: Seq<T>, first: spec_fn(T) -> bool, second: spec_fn(T) -> bool)
    ensures
        items.filter(first).filter(second) == items.filter(|item: T| first(item) && second(item)),
    decreases items.len(),
{
    reveal(Seq::filter);
    let both = |item: T| first(item) && second(item);
    if items.len() > 0 {
        let rest = items.drop_last();
        lemma_filter_twice(rest, first, second);
        if first(items.last()) {
            let once = rest.filter(first).push(items.last());
            assert(once.drop_last() =~= rest.filter(first));
            assert(once.last() == items.last());
        }
    } else {
        assert(items.filter(first).filter(second) =~= items.filter(both));
    }
}

/// Filtering a sequence in which nothing matches gives nothing.
pub proof fn lemma_filter_none<T>(items: Seq<T>, keep: spec_fn(T) -> bool)
    requires
        forall|j: int| 0 <= j < items.len() ==> !keep(#[trigger] items[j]),
    ensures
        items.filter(keep) == Seq::<T>::empty(),
    decreases items.len(),
{
    reveal(Seq::filter);
    if items.len() > 0 {
        let rest = items.drop_last();
        assert forall|j: int| 0 <= j < rest.len() implies !keep(#[trigger] rest[j]) by {
            assert(rest[j] == items[j]);
        }
        lemma_filter_none(rest, keep);
        assert(!keep(items[items.len() - 1]));
    }
    assert(items.filter(keep) =~= Seq::<T>::empty());
}

} // verus!
