//! Retained store changes.

use vstd::prelude::*;

use crate::presence::{ExtensionFacet, Never, Visibility};
use crate::store::{EntryKey, StoreUpdate};

verus! {

/// A retained store change with a store-assigned monotonic sequence.
#[derive(Clone, Debug, Eq, PartialEq)]
pub struct StoreChange<V, E: ExtensionFacet = Never> {
    /// The store-assigned sequence for this change.
    pub sequence: u64,
    /// The kind of retained store change.
    pub kind: StoreChangeKind<V, E>,
}

/// A retained store change kind.
#[derive(Clone, Debug, Eq, PartialEq)]
pub enum StoreChangeKind<V, E: ExtensionFacet = Never> {
    /// A published presence update.
    Published(StoreUpdate<V, E>),
    /// An entry removed by expiry.
    Expired(StoreExpired<V>),
}

/// Retained metadata for an entry removed by expiry.
#[derive(Clone, Copy, Debug, Eq, PartialEq)]
pub struct StoreExpired<V> {
    /// The removed entry key.
    pub key: EntryKey,
    /// The visibility label the entry had when it expired.
    pub visibility: Visibility<V>,
}

impl<V, E: ExtensionFacet> StoreChange<V, E> {
    /// The visibility label that decides whether a viewer sees this change:
    /// the published update's label, or the label the expired entry had.
    pub open spec fn change_visibility(&self) -> Visibility<V> {
        match self.kind {
            StoreChangeKind::Published(update) => update.visibility,
            StoreChangeKind::Expired(expired) => expired.visibility,
        }
    }

    /// Whether `self` and `other` are the same change: the same sequence and
    /// the same published update or expiry record.
    pub open spec fn same_change(&self, other: &Self) -> bool {
        &&& self.sequence == other.sequence
        &&& match (self.kind, other.kind) {
            (StoreChangeKind::Published(a), StoreChangeKind::Published(b)) => a.same_update(&b),
            (StoreChangeKind::Expired(a), StoreChangeKind::Expired(b)) => a == b,
            _ => false,
        }
    }
}

/// Whether `left` and `right` hold the same changes in the same order.
pub open spec fn same_changes<V, E: ExtensionFacet>(
    left: Seq<StoreChange<V, E>>,
    right: Seq<StoreChange<V, E>>,
) -> bool {
    &&& left.len() == right.len()
    &&& forall|i: int| 0 <= i < left.len() ==> (#[trigger] left[i]).same_change(&right[i])
}

/// Copies an update field by field.
pub fn copy_update<V: Copy, E: ExtensionFacet>(update: &StoreUpdate<V, E>) -> (copy: StoreUpdate<
    V,
    E,
>)
    ensures
        copy.same_update(update),
{
    let mut changes = Vec::new();
    let mut i: usize = 0;
    while i < update.changes.len()
        invariant
            i <= update.changes@.len(),
            changes@ == update.changes@.take(i as int),
        decreases update.changes@.len() - i,
    {
        changes.push(update.changes[i]);
        i += 1;
        assert(changes@ =~= update.changes@.take(i as int));
    }
    assert(changes@ =~= update.changes@);
    StoreUpdate {
        address: update.address,
        origin: update.origin,
        visibility: update.visibility,
        observed_at: update.observed_at,
        expiry: update.expiry,
        changes,
    }
}

impl<V: Copy, E: ExtensionFacet> StoreChange<V, E> {
    /// Copies this change field by field.
    pub fn duplicate(&self) -> (copy: Self)
        ensures
            copy.same_change(self),
    {
        let kind = match &self.kind {
            StoreChangeKind::Published(update) => StoreChangeKind::Published(copy_update(update)),
            StoreChangeKind::Expired(expired) => StoreChangeKind::Expired(*expired),
        };
        StoreChange { sequence: self.sequence, kind }
    }
}

} // verus!
