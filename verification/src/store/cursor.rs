//! Local watcher cursors over retained store changes.

use vstd::prelude::*;

use crate::presence::ExtensionFacet;
use crate::store::change::{same_changes, StoreChange};
use crate::store::retained::{RetainedResult, RetainedStatus};
use crate::store::visibility::VisibilityPolicy;
use crate::store::model::{
    after_sequence, gap_at, lemma_filter_none, status_at, visible_after, visible_status_at,
};
use crate::store::InMemoryStore;

verus! {

/// A local watcher cursor over retained store changes.
///
/// The cursor owns only a store sequence position. It does not own watcher
/// identity, filtering policy, push delivery, or async behavior.
#[derive(Clone, Copy, Debug, Default, PartialEq, Eq, Structural, Hash, PartialOrd, Ord)]
pub struct WatcherCursor {
    sequence: u64,
}

/// The position a cursor at `since` moves to after receiving `changes`: the
/// newest returned sequence, or `since` when nothing was returned.
pub open spec fn position_after<V, E: ExtensionFacet>(since: u64, changes: Seq<StoreChange<V, E>>) -> u64 {
    if changes.len() > 0 {
        changes.last().sequence
    } else {
        since
    }
}

impl WatcherCursor {
    /// The sequence position of the cursor.
    pub closed spec fn position(self) -> u64 {
        self.sequence
    }

    /// Two cursors at the same position are the same cursor.
    pub proof fn lemma_position_determines(a: WatcherCursor, b: WatcherCursor)
        ensures
            a.position() == b.position() <==> a == b,
    {
    }

    /// Creates a watcher cursor that starts at sequence `0`.
    pub fn new() -> (cursor: Self)
        ensures
            cursor.position() == 0,
    {
        WatcherCursor { sequence: 0 }
    }

    /// Creates a watcher cursor that starts at the provided sequence.
    pub fn from_sequence(sequence: u64) -> (cursor: Self)
        ensures
            cursor.position() == sequence,
    {
        WatcherCursor { sequence }
    }

    /// Returns the current sequence position.
    pub fn sequence(self) -> (sequence: u64)
        ensures
            sequence == self.position(),
    {
        self.sequence
    }

    /// Resets the cursor to an explicit sequence position.
    pub fn reset_to(&mut self, sequence: u64)
        ensures
            final(self).position() == sequence,
    {
        self.sequence = sequence;
    }

    /// Returns the retained-log status for this cursor.
    pub fn status<V, E: ExtensionFacet>(self, store: &InMemoryStore<V, E>) -> (status: RetainedStatus)
        ensures
            status == status_at(store@, self.position()),
    {
        store.change_status_since(self.sequence)
    }

    /// Returns the retained-log status for visible changes at this cursor.
    pub fn status_visible<V, E: ExtensionFacet, P: VisibilityPolicy<V>>(
        self,
        store: &InMemoryStore<V, E>,
        visibility: &P,
    ) -> (status: RetainedStatus)
        ensures
            status == visible_status_at(store@, self.position(), *visibility),
    {
        store.visible_change_status_since(self.sequence, visibility)
    }

    /// Returns `true` when the store has something for this cursor: changes
    /// beyond it, or a gap that requires a rebuild.
    pub fn has_pending<V, E: ExtensionFacet>(self, store: &InMemoryStore<V, E>) -> (pending: bool)
        ensures
            pending == !(status_at(store@, self.position()) is UpToDate),
    {
        match store.change_status_since(self.sequence) {
            RetainedStatus::UpToDate => false,
            _ => true,
        }
    }

    /// Returns `true` when the store has something visible for this cursor:
    /// visible changes beyond it, or a gap that requires a rebuild.
    pub fn has_pending_visible<V, E: ExtensionFacet, P: VisibilityPolicy<V>>(
        self,
        store: &InMemoryStore<V, E>,
        visibility: &P,
    ) -> (pending: bool)
        ensures
            pending == !(visible_status_at(store@, self.position(), *visibility) is UpToDate),
    {
        match store.visible_change_status_since(self.sequence, visibility) {
            RetainedStatus::UpToDate => false,
            _ => true,
        }
    }
}

impl WatcherCursor {
    /// Drains retained changes beyond the cursor and advances to the newest
    /// returned sequence, or returns a retained-gap error without advancing the
    /// cursor.
    pub fn poll<V: Copy, E: ExtensionFacet>(&mut self, store: &InMemoryStore<V, E>) -> (changes:
        RetainedResult<Vec<StoreChange<V, E>>>)
        ensures
            match changes {
                Err(gap) => {
                    &&& old(self).position() < store@.retained_floor
                    &&& gap == gap_at(store@, old(self).position())
                    &&& *final(self) == *old(self)
                },
                Ok(found) => {
                    &&& old(self).position() >= store@.retained_floor
                    &&& same_changes(found@, store@.changes.filter(after_sequence(old(self).position())))
                    &&& final(self).position() == position_after(old(self).position(), found@)
                },
            },
    {
        let changes = store.changes_since(self.sequence);
        match changes {
            Ok(found) => {
                if found.len() > 0 {
                    self.sequence = found[found.len() - 1].sequence;
                }
                Ok(found)
            },
            Err(gap) => Err(gap),
        }
    }

    /// Drains retained visible changes beyond the cursor and advances to the
    /// newest visible sequence, or returns a retained-gap error without
    /// advancing the cursor.
    pub fn poll_visible<V: Copy, E: ExtensionFacet, P: VisibilityPolicy<V>>(
        &mut self,
        store: &InMemoryStore<V, E>,
        visibility: &P,
    ) -> (changes: RetainedResult<Vec<StoreChange<V, E>>>)
        ensures
            match changes {
                Err(gap) => {
                    &&& old(self).position() < store@.retained_floor
                    &&& gap == gap_at(store@, old(self).position())
                    &&& *final(self) == *old(self)
                },
                Ok(found) => {
                    &&& old(self).position() >= store@.retained_floor
                    &&& same_changes(
                        found@,
                        store@.changes.filter(visible_after(old(self).position(), *visibility)),
                    )
                    &&& final(self).position() == position_after(old(self).position(), found@)
                },
            },
    {
        let changes = store.changes_since_visible(self.sequence, visibility);
        match changes {
            Ok(found) => {
                if found.len() > 0 {
                    self.sequence = found[found.len() - 1].sequence;
                }
                Ok(found)
            },
            Err(gap) => Err(gap),
        }
    }
}

impl From<u64> for WatcherCursor {
    fn from(sequence: u64) -> (cursor: Self)
        ensures
            cursor.position() == sequence,
    {
        WatcherCursor::from_sequence(sequence)
    }
}

impl vstd::std_specs::convert::FromSpecImpl<u64> for WatcherCursor {
    open spec fn obeys_from_spec() -> bool {
        true
    }

    closed spec fn from_spec(sequence: u64) -> WatcherCursor {
        WatcherCursor { sequence }
    }
}

impl From<WatcherCursor> for u64 {
    fn from(cursor: WatcherCursor) -> (sequence: u64)
        ensures
            sequence == cursor.position(),
    {
        cursor.sequence()
    }
}

impl vstd::std_specs::convert::FromSpecImpl<WatcherCursor> for u64 {
    open spec fn obeys_from_spec() -> bool {
        true
    }

    open spec fn from_spec(cursor: WatcherCursor) -> u64 {
        cursor.position()
    }
}

/// In a log whose sequences never decrease, every change a filter keeps is
/// numbered at or below the last change it keeps, and a filter that keeps
/// the log's last change ends with it.
proof fn lemma_filter_last<V, E: ExtensionFacet>(
    log: Seq<StoreChange<V, E>>,
    keep: spec_fn(StoreChange<V, E>) -> bool,
)
    requires
        forall|i: int, j: int| 0 <= i < j < log.len() ==> (#[trigger] log[i]).sequence <= (#[trigger] log[j]).sequence,
    ensures
        log.len() > 0 && keep(log.last()) ==> log.filter(keep).len() > 0 && log.filter(keep).last() == log.last(),
        forall|j: int|
            0 <= j < log.len() && keep(#[trigger] log[j]) ==> log.filter(keep).len() > 0 && log[j].sequence
                <= log.filter(keep).last().sequence,
    decreases log.len(),
{
    reveal(Seq::filter);
    if log.len() > 0 {
        let rest = log.drop_last();
        assert forall|i: int, j: int| 0 <= i < j < rest.len() implies (#[trigger] rest[i]).sequence
            <= (#[trigger] rest[j]).sequence by {
            assert(rest[i] == log[i] && rest[j] == log[j]);
        }
        lemma_filter_last(rest, keep);
        assert forall|j: int|
            0 <= j < log.len() && keep(#[trigger] log[j]) implies log.filter(keep).len() > 0
                && log[j].sequence <= log.filter(keep).last().sequence by {
            if keep(log.last()) {
                if j < log.len() - 1 {
                    assert(log[j].sequence <= log[log.len() - 1].sequence);
                }
            } else {
                assert(j < log.len() - 1);
                assert(rest[j] == log[j]);
            }
        }
    }
}

/// Watcher catch-up law: after a poll that meets no gap, the cursor's new
/// position is up to date with the store.
pub proof fn lemma_poll_catches_up<V, E: ExtensionFacet>(store: &InMemoryStore<V, E>, since: u64)
    requires
        store.wf(),
        since >= store@.retained_floor,
    ensures
        status_at(store@, position_after(since, store@.changes.filter(after_sequence(since))))
            is UpToDate,
{
    store.lemma_view_well_formed();
    let log = store@.changes;
    let keep = after_sequence::<V, E>(since);
    lemma_filter_last(log, keep);
    if store@.last_sequence > since {
        assert(log.len() > 0);
        assert(keep(log.last()));
    } else if log.filter(keep).len() > 0 {
        let x = log.filter(keep).last();
        reveal(Seq::filter);
        log.lemma_filter_pred(keep, log.filter(keep).len() - 1);
    }
}

/// Visible catch-up law: after a visible poll that meets no gap, no further
/// visible change is pending at the cursor's new position.
pub proof fn lemma_visible_poll_catches_up<V, E: ExtensionFacet, P: VisibilityPolicy<V>>(
    store: &InMemoryStore<V, E>,
    since: u64,
    visibility: P,
)
    requires
        store.wf(),
        since >= store@.retained_floor,
    ensures
        visible_status_at(
            store@,
            position_after(since, store@.changes.filter(visible_after(since, visibility))),
            visibility,
        ) is UpToDate,
{
    store.lemma_view_well_formed();
    let log = store@.changes;
    let keep = visible_after::<V, E, P>(since, visibility);
    let found = log.filter(keep);
    let next = position_after(since, found);
    lemma_filter_last(log, keep);
    if found.len() > 0 {
        reveal(Seq::filter);
        log.lemma_filter_pred(keep, found.len() - 1);
    }
    assert forall|j: int| 0 <= j < log.len() implies !(visible_after::<V, E, P>(next, visibility))(
        #[trigger] log[j],
    ) by {
        if (visible_after::<V, E, P>(next, visibility))(log[j]) {
            assert(keep(log[j]));
        }
    }
    lemma_filter_none(log, visible_after::<V, E, P>(next, visibility));
}

/// Pending law: at a position that retention still answers, retained changes
/// lie beyond it exactly when a later sequence has been assigned.
pub proof fn lemma_poll_pending<V, E: ExtensionFacet>(store: &InMemoryStore<V, E>, since: u64)
    requires
        store.wf(),
        since >= store@.retained_floor,
    ensures
        store@.changes.filter(after_sequence(since)).len() > 0 <==> store@.last_sequence > since,
{
    store.lemma_view_well_formed();
    let log = store@.changes;
    let keep = after_sequence::<V, E>(since);
    lemma_filter_last(log, keep);
    if store@.last_sequence > since {
        assert(log.len() > 0);
        assert(keep(log.last()));
    }
    if log.filter(keep).len() > 0 {
        let x = log.filter(keep)[0];
        log.lemma_filter_pred(keep, 0);
        assert(log.filter(keep).contains(x));
        log.lemma_filter_contains_rev(keep, x);
        let j = choose|j: int| 0 <= j < log.len() && log[j] == x;
        assert(log[j].sequence <= store@.last_sequence);
    }
}

/// Changes that match a filtered log one for one carry its sequences and
/// labels, end at the same position, and each meets the filter.
pub proof fn lemma_polled_changes<V, E: ExtensionFacet>(
    log: Seq<StoreChange<V, E>>,
    keep: spec_fn(StoreChange<V, E>) -> bool,
    found: Seq<StoreChange<V, E>>,
    since: u64,
)
    requires
        same_changes(found, log.filter(keep)),
    ensures
        position_after(since, found) == position_after(since, log.filter(keep)),
        forall|i: int|
            0 <= i < found.len() ==> {
                &&& keep(log.filter(keep)[i])
                &&& (#[trigger] found[i]).sequence == log.filter(keep)[i].sequence
                &&& found[i].change_visibility() == log.filter(keep)[i].change_visibility()
            },
{
    assert forall|i: int| 0 <= i < found.len() implies {
        &&& keep(log.filter(keep)[i])
        &&& (#[trigger] found[i]).sequence == log.filter(keep)[i].sequence
        &&& found[i].change_visibility() == log.filter(keep)[i].change_visibility()
    } by {
        log.lemma_filter_pred(keep, i);
        assert(found[i].same_change(&log.filter(keep)[i]));
    }
    if found.len() > 0 {
        assert(found[found.len() - 1].same_change(&log.filter(keep)[found.len() - 1]));
    }
}

} // verus!
