//! Hash indexes over the store's entries and over projection groups.
//!
//! Both indexes map a plain key to a slot in a vector that the caller owns;
//! they are backed by `hashbrown::HashMap`.

use vstd::prelude::*;

verus! {

/// The key under which a stored entry is indexed: subject, context, optional
/// resource and origin.
pub type EntrySlotKey = (u64, u64, Option<u64>, u64);

/// Key-to-slot pairs of an entry index.
pub type EntrySlots = Map<EntrySlotKey, usize>;

/// Subject-to-slot pairs of a subject index.
pub type SubjectSlots = Map<u64, usize>;

/// A `hashbrown::HashMap` from entry keys to entry slots.
#[derive(Debug)]
#[verifier::external_body]
pub struct EntryIndex {
    map: hashbrown::HashMap<EntrySlotKey, usize>,
}

/// The key-to-slot pairs held by an entry index.
pub uninterp spec fn entry_index_contents(index: EntryIndex) -> EntrySlots;

impl EntryIndex {
    /// An empty index (`hashbrown::HashMap::new`).
    #[verifier::external_body]
    pub(crate) fn new() -> (created: Self)
        ensures
            entry_index_contents(created) == EntrySlots::empty(),
    {
        EntryIndex { map: hashbrown::HashMap::new() }
    }

    /// The slot stored under `key`, if any (`hashbrown::HashMap::get`).
    #[verifier::external_body]
    pub(crate) fn get(&self, key: &EntrySlotKey) -> (slot: Option<usize>)
        ensures
            slot == entry_index_contents(*self).get(*key),
    {
        self.map.get(key).copied()
    }

    /// Stores `slot` under `key`, replacing any earlier slot
    /// (`hashbrown::HashMap::insert`).
    #[verifier::external_body]
    pub(crate) fn insert(&mut self, key: EntrySlotKey, slot: usize)
        ensures
            entry_index_contents(*final(self)) == entry_index_contents(*old(self)).insert(key, slot),
    {
        self.map.insert(key, slot);
    }
}

/// A `hashbrown::HashMap` from subjects to group slots.
#[derive(Debug)]
#[verifier::external_body]
pub struct SubjectIndex {
    map: hashbrown::HashMap<u64, usize>,
}

/// The subject-to-slot pairs held by a subject index.
pub uninterp spec fn subject_index_contents(index: SubjectIndex) -> SubjectSlots;

impl SubjectIndex {
    /// An empty index (`hashbrown::HashMap::new`).
    #[verifier::external_body]
    pub(crate) fn new() -> (created: Self)
        ensures
            subject_index_contents(created) == SubjectSlots::empty(),
    {
        SubjectIndex { map: hashbrown::HashMap::new() }
    }

    /// The slot stored under `subject`, if any (`hashbrown::HashMap::get`).
    #[verifier::external_body]
    pub(crate) fn get(&self, subject: u64) -> (slot: Option<usize>)
        ensures
            slot == subject_index_contents(*self).get(subject),
    {
        self.map.get(&subject).copied()
    }

    /// Stores `slot` under `subject`, replacing any earlier slot
    /// (`hashbrown::HashMap::insert`).
    #[verifier::external_body]
    pub(crate) fn insert(&mut self, subject: u64, slot: usize)
        ensures
            subject_index_contents(*final(self)) == subject_index_contents(*old(self)).insert(subject, slot),
    {
        self.map.insert(subject, slot);
    }
}

} // verus!
