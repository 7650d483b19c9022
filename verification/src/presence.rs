//! Semantic core types for scoped, time-sensitive presence facts.
//!
//! This module owns the vocabulary for publishing presence updates and for
//! materializing current presence state. It does not own watcher identity,
//! store sequencing, subscription delivery, or visibility evaluation.

use vstd::prelude::*;

verus! {

/// Key types accepted by the presence model.
///
/// A key must be able to decide whether it equals another key; the answer is
/// exactly value equality.
pub trait PresenceKey: Copy + Eq + core::hash::Hash + core::fmt::Debug {
    /// Returns `true` exactly when `self` and `other` are the same key.
    fn same_key(&self, other: &Self) -> (same: bool)
        ensures
            same == (*self == *other),
    ;
}

impl PresenceKey for u64 {
    fn same_key(&self, other: &Self) -> (same: bool) {
        *self == *other
    }
}

impl PresenceKey for u32 {
    fn same_key(&self, other: &Self) -> (same: bool) {
        *self == *other
    }
}

impl PresenceKey for u16 {
    fn same_key(&self, other: &Self) -> (same: bool) {
        *self == *other
    }
}

impl PresenceKey for u8 {
    fn same_key(&self, other: &Self) -> (same: bool) {
        *self == *other
    }
}

/// A marker used when a caller does not need an extension type.
///
/// It has no public constructor, so no value of it can be built outside this
/// crate, and the crate never builds one.
#[derive(Clone, Copy, Debug, Eq, Hash, Ord, PartialEq, PartialOrd)]
pub struct Never(());

impl PresenceKey for Never {
    fn same_key(&self, other: &Self) -> (same: bool) {
        true
    }
}

/// Application-defined extension facets stored alongside built-in presence
/// facets.
pub trait ExtensionFacet: Copy {
    /// A stable kind identifier used to clear a previously asserted facet.
    type Kind: PresenceKey;

    /// The kind of this facet.
    spec fn facet_kind(&self) -> Self::Kind;

    /// Returns the kind of this extension facet.
    fn kind(&self) -> (kind: Self::Kind)
        ensures
            kind == self.facet_kind(),
    ;
}

impl ExtensionFacet for Never {
    type Kind = Never;

    open spec fn facet_kind(&self) -> Never {
        *self
    }

    fn kind(&self) -> (kind: Never) {
        *self
    }
}

/// A monotonic or wall-clock timestamp supplied by the embedding application.
///
/// The core only requires timestamps to be comparable. Higher-level layers can
/// decide whether the value represents unix milliseconds, logical time, or
/// another domain-specific clock.
#[derive(Clone, Copy, Debug, Default, PartialEq, Eq, Structural, Hash, PartialOrd, Ord)]
pub struct Timestamp(u64);

impl Timestamp {
    /// The raw integer representation of the timestamp.
    pub closed spec fn value(self) -> u64 {
        self.0
    }

    /// Two timestamps with the same raw value are the same timestamp.
    pub proof fn lemma_value_determines(a: Timestamp, b: Timestamp)
        ensures
            a.value() == b.value() <==> a == b,
    {
    }

    /// Creates a timestamp from its raw integer representation.
    pub fn new(raw: u64) -> (t: Self)
        ensures
            t.value() == raw,
    {
        Timestamp(raw)
    }

    /// Returns the raw integer representation of the timestamp.
    pub fn get(self) -> (raw: u64)
        ensures
            raw == self.value(),
    {
        self.0
    }
}

/// Expiry attached to presence updates and snapshots.
#[derive(Clone, Copy, Debug, PartialEq, Eq, Structural, Hash, PartialOrd, Ord)]
pub enum Expiry {
    /// The asserted presence does not expire automatically.
    Never,
    /// The asserted presence expires once the given timestamp is reached.
    At(Timestamp),
}

impl Expiry {
    /// Whether this expiry has elapsed by `now`: a deadline elapses once
    /// `now` reaches it, and `Never` never elapses.
    pub open spec fn expired_by(self, now: Timestamp) -> bool {
        match self {
            Expiry::Never => false,
            Expiry::At(deadline) => deadline.value() <= now.value(),
        }
    }

    /// Returns `true` when this expiry has elapsed by `now`.
    pub fn is_expired_by(self, now: Timestamp) -> (expired: bool)
        ensures
            expired == self.expired_by(now),
    {
        match self {
            Expiry::Never => false,
            Expiry::At(deadline) => deadline.get() <= now.get(),
        }
    }

    /// Once elapsed, an expiry stays elapsed at every later time.
    pub proof fn lemma_expired_stays_expired(self, earlier: Timestamp, later: Timestamp)
        requires
            earlier.value() <= later.value(),
            self.expired_by(earlier),
        ensures
            self.expired_by(later),
    {
    }
}

/// A visibility label carried by presence facts.
///
/// The core does not interpret the `Restricted` payload. Stores or outer policy
/// layers decide whether a particular observer can see a labeled fact.
#[derive(Clone, Copy, Debug, Default, Eq, Hash, Ord, PartialEq, PartialOrd)]
pub enum Visibility<V> {
    /// Visible without further policy checks.
    #[default]
    Public,
    /// Visible only under an embedding-defined visibility label.
    Restricted(V),
    /// Not intended for observation outside the asserting origin.
    Private,
}

/// Built-in availability state for a subject.
#[derive(Clone, Copy, Debug, PartialEq, Eq, Structural, Hash, PartialOrd, Ord)]
pub enum Availability {
    /// Explicitly available.
    Available,
    /// Present but not interruptible.
    Busy,
    /// Temporarily away.
    Away,
    /// Explicitly offline.
    Offline,
    /// Presence is known but availability is not.
    Unknown,
}

/// Built-in coarse-grained activity state for a subject.
#[derive(Clone, Copy, Debug, PartialEq, Eq, Structural, Hash, PartialOrd, Ord)]
pub enum Activity {
    /// No active work is currently known.
    Idle,
    /// Observing or browsing without active modification.
    Observing,
    /// Moving through some application-defined space.
    Navigating,
    /// Actively editing or producing work.
    Editing,
    /// Presenting or sharing activity outward.
    Presenting,
    /// Performing automated or delegated work.
    Acting,
    /// Application-specific activity code.
    Custom(u16),
}

/// The kind of a built-in facet.
#[derive(Clone, Copy, Debug, PartialEq, Eq, Structural, Hash, PartialOrd, Ord)]
pub enum BuiltinFacetKind {
    /// The facet stores [`Availability`].
    Availability,
    /// The facet stores [`Activity`].
    Activity,
    /// The facet stores a last-seen [`Timestamp`].
    LastSeen,
}

/// Closed built-in presence facets supported by the core.
#[derive(Clone, Copy, Debug, PartialEq, Eq, Structural, Hash, PartialOrd, Ord)]
pub enum BuiltinFacet {
    /// Availability state.
    Availability(Availability),
    /// Activity state.
    Activity(Activity),
    /// Last observed activity time.
    LastSeen(Timestamp),
}

impl BuiltinFacet {
    /// The kind of this built-in facet: its variant.
    pub open spec fn builtin_kind(self) -> BuiltinFacetKind {
        match self {
            BuiltinFacet::Availability(..) => BuiltinFacetKind::Availability,
            BuiltinFacet::Activity(..) => BuiltinFacetKind::Activity,
            BuiltinFacet::LastSeen(..) => BuiltinFacetKind::LastSeen,
        }
    }

    /// Returns the kind of this built-in facet.
    pub fn kind(self) -> (kind: BuiltinFacetKind)
        ensures
            kind == self.builtin_kind(),
    {
        match self {
            BuiltinFacet::Availability(..) => BuiltinFacetKind::Availability,
            BuiltinFacet::Activity(..) => BuiltinFacetKind::Activity,
            BuiltinFacet::LastSeen(..) => BuiltinFacetKind::LastSeen,
        }
    }
}

/// The kind of a presence facet, including application-defined extensions.
#[derive(Clone, Copy, Debug, Eq, Hash, PartialEq)]
pub enum PresenceFacetKind<K = Never> {
    /// A built-in facet kind.
    Builtin(BuiltinFacetKind),
    /// An application-defined facet kind.
    Extension(K),
}

impl<K> PresenceFacetKind<K> {
    /// Returns the built-in kind when this is a built-in facet.
    pub fn builtin(self) -> (kind: Option<BuiltinFacetKind>)
        ensures
            kind == (match self {
                PresenceFacetKind::Builtin(k) => Some(k),
                PresenceFacetKind::Extension(..) => None,
            }),
    {
        match self {
            PresenceFacetKind::Builtin(kind) => Some(kind),
            PresenceFacetKind::Extension(..) => None,
        }
    }
}

impl<K: PresenceKey> PresenceFacetKind<K> {
    /// Returns `true` exactly when both kinds are the same kind.
    pub fn same_kind(&self, other: &Self) -> (same: bool)
        ensures
            same == (*self == *other),
    {
        match (self, other) {
            (PresenceFacetKind::Builtin(a), PresenceFacetKind::Builtin(b)) => *a == *b,
            (PresenceFacetKind::Extension(a), PresenceFacetKind::Extension(b)) => a.same_key(b),
            _ => false,
        }
    }
}

/// A single presence facet, either built in or application defined.
#[derive(Clone, Copy, Debug, Eq, Hash, PartialEq)]
pub enum PresenceFacet<E = Never> {
    /// A built-in facet.
    Builtin(BuiltinFacet),
    /// An application-defined facet.
    Extension(E),
}

impl<E: ExtensionFacet> PresenceFacet<E> {
    /// The kind of this facet: the built-in kind or the extension's kind.
    pub open spec fn facet_kind(self) -> PresenceFacetKind<E::Kind> {
        match self {
            PresenceFacet::Builtin(facet) => PresenceFacetKind::Builtin(facet.builtin_kind()),
            PresenceFacet::Extension(facet) => PresenceFacetKind::Extension(facet.facet_kind()),
        }
    }

    /// Returns the kind of this facet.
    pub fn kind(&self) -> (kind: PresenceFacetKind<E::Kind>)
        ensures
            kind == self.facet_kind(),
    {
        match self {
            PresenceFacet::Builtin(facet) => PresenceFacetKind::Builtin(facet.kind()),
            PresenceFacet::Extension(facet) => PresenceFacetKind::Extension(facet.kind()),
        }
    }
}

/// A change applied within a presence update.
#[derive(Clone, Copy, Debug, Eq, Hash, PartialEq)]
pub enum FacetChange<E: ExtensionFacet = Never> {
    /// Asserts or replaces a facet for the current update scope.
    Upsert(PresenceFacet<E>),
    /// Clears a previously asserted facet of the given kind.
    Clear(PresenceFacetKind<E::Kind>),
}

/// The addressed scope of a presence update or snapshot.
#[derive(Clone, Copy, Debug, Eq, Hash, Ord, PartialEq, PartialOrd)]
pub struct PresenceAddress<S, C, R> {
    /// The subject whose presence is described.
    pub subject: S,
    /// The context where that presence is meaningful.
    pub context: C,
    /// The optional resource within the subject that asserted the presence.
    pub resource: Option<R>,
}

impl<S, C, R> PresenceAddress<S, C, R> {
    /// Creates a new addressed presence scope.
    pub fn new(subject: S, context: C, resource: Option<R>) -> (address: Self)
        ensures
            address.subject == subject,
            address.context == context,
            address.resource == resource,
    {
        PresenceAddress { subject, context, resource }
    }
}

/// A published batch of facet changes from a single origin and scope.
#[derive(Clone, Debug, Eq, Hash, PartialEq)]
pub struct PresenceUpdate<S, C, R, I, V, E: ExtensionFacet = Never> {
    /// The scope of the asserted presence.
    pub address: PresenceAddress<S, C, R>,
    /// The origin that produced this update.
    pub origin: I,
    /// The visibility label carried by the update.
    pub visibility: Visibility<V>,
    /// When the origin observed or asserted the update.
    pub observed_at: Timestamp,
    /// When the update should expire.
    pub expiry: Expiry,
    /// The facet changes carried by this update.
    pub changes: Vec<FacetChange<E>>,
}

impl<S, C, R, I, V, E: ExtensionFacet> PresenceUpdate<S, C, R, I, V, E> {
    /// Whether `self` and `other` carry the same scope, origin, visibility,
    /// observation time and expiry.
    pub open spec fn same_header(&self, other: &Self) -> bool {
        &&& self.address == other.address
        &&& self.origin == other.origin
        &&& self.visibility == other.visibility
        &&& self.observed_at == other.observed_at
        &&& self.expiry == other.expiry
    }

    /// Whether `self` and `other` are the same update: the same header and
    /// the same facet changes in the same order.
    pub open spec fn same_update(&self, other: &Self) -> bool {
        &&& self.same_header(other)
        &&& self.changes@ == other.changes@
    }

    /// Creates an empty presence update for the given scope and metadata.
    pub fn new(
        address: PresenceAddress<S, C, R>,
        origin: I,
        visibility: Visibility<V>,
        observed_at: Timestamp,
        expiry: Expiry,
    ) -> (update: Self)
        ensures
            update.address == address,
            update.origin == origin,
            update.visibility == visibility,
            update.observed_at == observed_at,
            update.expiry == expiry,
            update.changes@ == Seq::<FacetChange<E>>::empty(),
    {
        PresenceUpdate { address, origin, visibility, observed_at, expiry, changes: Vec::new() }
    }

    /// Appends a facet change and returns the updated value.
    pub fn with_change(self, change: FacetChange<E>) -> (update: Self)
        ensures
            update.same_header(&self),
            update.changes@ == self.changes@.push(change),
    {
        let mut update = self;
        update.changes.push(change);
        update
    }

    /// Appends a change that sets the built-in availability.
    pub fn set_availability(self, value: Availability) -> (update: Self)
        ensures
            update.same_header(&self),
            update.changes@ == self.changes@.push(
                FacetChange::Upsert(PresenceFacet::Builtin(BuiltinFacet::Availability(value))),
            ),
    {
        self.with_change(FacetChange::Upsert(PresenceFacet::Builtin(BuiltinFacet::Availability(value))))
    }

    /// Appends a change that sets the built-in activity.
    pub fn set_activity(self, value: Activity) -> (update: Self)
        ensures
            update.same_header(&self),
            update.changes@ == self.changes@.push(
                FacetChange::Upsert(PresenceFacet::Builtin(BuiltinFacet::Activity(value))),
            ),
    {
        self.with_change(FacetChange::Upsert(PresenceFacet::Builtin(BuiltinFacet::Activity(value))))
    }

    /// Appends a change that sets the built-in last-seen timestamp.
    pub fn set_last_seen(self, value: Timestamp) -> (update: Self)
        ensures
            update.same_header(&self),
            update.changes@ == self.changes@.push(
                FacetChange::Upsert(PresenceFacet::Builtin(BuiltinFacet::LastSeen(value))),
            ),
    {
        self.with_change(FacetChange::Upsert(PresenceFacet::Builtin(BuiltinFacet::LastSeen(value))))
    }

    /// Appends a change that sets an application-defined extension facet.
    pub fn set_extension(self, value: E) -> (update: Self)
        ensures
            update.same_header(&self),
            update.changes@ == self.changes@.push(FacetChange::Upsert(PresenceFacet::Extension(value))),
    {
        self.with_change(FacetChange::Upsert(PresenceFacet::Extension(value)))
    }

    /// Appends a change that clears the built-in availability.
    pub fn clear_availability(self) -> (update: Self)
        ensures
            update.same_header(&self),
            update.changes@ == self.changes@.push(
                FacetChange::Clear(PresenceFacetKind::Builtin(BuiltinFacetKind::Availability)),
            ),
    {
        self.with_change(FacetChange::Clear(PresenceFacetKind::Builtin(BuiltinFacetKind::Availability)))
    }

    /// Appends a change that clears the built-in activity.
    pub fn clear_activity(self) -> (update: Self)
        ensures
            update.same_header(&self),
            update.changes@ == self.changes@.push(
                FacetChange::Clear(PresenceFacetKind::Builtin(BuiltinFacetKind::Activity)),
            ),
    {
        self.with_change(FacetChange::Clear(PresenceFacetKind::Builtin(BuiltinFacetKind::Activity)))
    }

    /// Appends a change that clears the built-in last-seen timestamp.
    pub fn clear_last_seen(self) -> (update: Self)
        ensures
            update.same_header(&self),
            update.changes@ == self.changes@.push(
                FacetChange::Clear(PresenceFacetKind::Builtin(BuiltinFacetKind::LastSeen)),
            ),
    {
        self.with_change(FacetChange::Clear(PresenceFacetKind::Builtin(BuiltinFacetKind::LastSeen)))
    }

    /// Appends a change that clears the extension facet of the given kind.
    pub fn clear_extension(self, kind: E::Kind) -> (update: Self)
        ensures
            update.same_header(&self),
            update.changes@ == self.changes@.push(FacetChange::Clear(PresenceFacetKind::Extension(kind))),
    {
        self.with_change(FacetChange::Clear(PresenceFacetKind::Extension(kind)))
    }
}

/// The first built-in facet of the given kind in `facets`, scanning from the
/// front.
pub open spec fn first_builtin<E>(facets: Seq<PresenceFacet<E>>, kind: BuiltinFacetKind) -> Option<
    BuiltinFacet,
>
    decreases facets.len(),
{
    if facets.len() == 0 {
        None
    } else {
        match facets[0] {
            PresenceFacet::Builtin(facet) if facet.builtin_kind() == kind => Some(facet),
            _ => first_builtin(facets.drop_first(), kind),
        }
    }
}

/// The availability materialized in `facets`: that of the first built-in
/// availability facet.
pub open spec fn facets_availability<E>(facets: Seq<PresenceFacet<E>>) -> Option<Availability> {
    match first_builtin(facets, BuiltinFacetKind::Availability) {
        Some(BuiltinFacet::Availability(value)) => Some(value),
        _ => None,
    }
}

/// The activity materialized in `facets`: that of the first built-in
/// activity facet.
pub open spec fn facets_activity<E>(facets: Seq<PresenceFacet<E>>) -> Option<Activity> {
    match first_builtin(facets, BuiltinFacetKind::Activity) {
        Some(BuiltinFacet::Activity(value)) => Some(value),
        _ => None,
    }
}

/// The last-seen timestamp materialized in `facets`: that of the first
/// built-in last-seen facet.
pub open spec fn facets_last_seen<E>(facets: Seq<PresenceFacet<E>>) -> Option<Timestamp> {
    match first_builtin(facets, BuiltinFacetKind::LastSeen) {
        Some(BuiltinFacet::LastSeen(value)) => Some(value),
        _ => None,
    }
}

/// Expiry law: an expiry that never ends is never reached, and a deadline is
/// reached exactly once `now` is at or past it.
pub proof fn lemma_expiry_reached(deadline: Timestamp, now: Timestamp)
    ensures
        !Expiry::Never.expired_by(now),
        Expiry::At(deadline).expired_by(now) <==> now.value() >= deadline.value(),
{
}

/// Accessor law: the availability read from `facets` is `Some` exactly when
/// they hold a built-in availability facet, and then it is the value of the
/// first such facet; likewise for activity and last-seen time.
pub proof fn lemma_facet_accessors<E>(facets: Seq<PresenceFacet<E>>)
    ensures
        facets_availability(facets) is Some <==> exists|i: int|
            0 <= i < facets.len() && (#[trigger] facets[i]) matches PresenceFacet::Builtin(BuiltinFacet::Availability(_)),
        facets_availability(facets) matches Some(value) ==> exists|i: int|
            0 <= i < facets.len() && #[trigger] facets[i] == PresenceFacet::<E>::Builtin(BuiltinFacet::Availability(value))
                && forall|j: int| 0 <= j < i ==> !((#[trigger] facets[j]) matches PresenceFacet::Builtin(BuiltinFacet::Availability(_))),
        facets_activity(facets) is Some <==> exists|i: int|
            0 <= i < facets.len() && (#[trigger] facets[i]) matches PresenceFacet::Builtin(BuiltinFacet::Activity(_)),
        facets_activity(facets) matches Some(value) ==> exists|i: int|
            0 <= i < facets.len() && #[trigger] facets[i] == PresenceFacet::<E>::Builtin(BuiltinFacet::Activity(value))
                && forall|j: int| 0 <= j < i ==> !((#[trigger] facets[j]) matches PresenceFacet::Builtin(BuiltinFacet::Activity(_))),
        facets_last_seen(facets) is Some <==> exists|i: int|
            0 <= i < facets.len() && (#[trigger] facets[i]) matches PresenceFacet::Builtin(BuiltinFacet::LastSeen(_)),
        facets_last_seen(facets) matches Some(value) ==> exists|i: int|
            0 <= i < facets.len() && #[trigger] facets[i] == PresenceFacet::<E>::Builtin(BuiltinFacet::LastSeen(value))
                && forall|j: int| 0 <= j < i ==> !((#[trigger] facets[j]) matches PresenceFacet::Builtin(BuiltinFacet::LastSeen(_))),
    decreases facets.len(),
{
    if facets.len() > 0 {
        let rest = facets.drop_first();
        lemma_facet_accessors(rest);
        assert forall|i: int| 0 <= i < rest.len() implies #[trigger] rest[i] == facets[i + 1] by {}
        if let Some(value) = facets_availability(rest) {
            if !(facets[0] matches PresenceFacet::Builtin(BuiltinFacet::Availability(_))) {
                let i = choose|i: int|
                    0 <= i < rest.len() && #[trigger] rest[i] == PresenceFacet::<E>::Builtin(BuiltinFacet::Availability(value))
                        && forall|j: int| 0 <= j < i ==> !((#[trigger] rest[j]) matches PresenceFacet::Builtin(BuiltinFacet::Availability(_)));
                assert(facets[i + 1] == rest[i]);
                assert forall|j: int| 0 <= j < i + 1 implies !((#[trigger] facets[j]) matches PresenceFacet::Builtin(BuiltinFacet::Availability(_))) by {
                    if j > 0 {
                        assert(facets[j] == rest[j - 1]);
                    }
                }
            }
        }
        if let Some(value) = facets_activity(rest) {
            if !(facets[0] matches PresenceFacet::Builtin(BuiltinFacet::Activity(_))) {
                let i = choose|i: int|
                    0 <= i < rest.len() && #[trigger] rest[i] == PresenceFacet::<E>::Builtin(BuiltinFacet::Activity(value))
                        && forall|j: int| 0 <= j < i ==> !((#[trigger] rest[j]) matches PresenceFacet::Builtin(BuiltinFacet::Activity(_)));
                assert(facets[i + 1] == rest[i]);
                assert forall|j: int| 0 <= j < i + 1 implies !((#[trigger] facets[j]) matches PresenceFacet::Builtin(BuiltinFacet::Activity(_))) by {
                    if j > 0 {
                        assert(facets[j] == rest[j - 1]);
                    }
                }
            }
        }
        if let Some(value) = facets_last_seen(rest) {
            if !(facets[0] matches PresenceFacet::Builtin(BuiltinFacet::LastSeen(_))) {
                let i = choose|i: int|
                    0 <= i < rest.len() && #[trigger] rest[i] == PresenceFacet::<E>::Builtin(BuiltinFacet::LastSeen(value))
                        && forall|j: int| 0 <= j < i ==> !((#[trigger] rest[j]) matches PresenceFacet::Builtin(BuiltinFacet::LastSeen(_)));
                assert(facets[i + 1] == rest[i]);
                assert forall|j: int| 0 <= j < i + 1 implies !((#[trigger] facets[j]) matches PresenceFacet::Builtin(BuiltinFacet::LastSeen(_))) by {
                    if j > 0 {
                        assert(facets[j] == rest[j - 1]);
                    }
                }
            }
        }
        if exists|i: int| 0 <= i < facets.len() && (#[trigger] facets[i]) matches PresenceFacet::Builtin(BuiltinFacet::Availability(_)) {
            let i = choose|i: int| 0 <= i < facets.len() && (#[trigger] facets[i]) matches PresenceFacet::Builtin(BuiltinFacet::Availability(_));
            if i > 0 {
                assert(rest[i - 1] == facets[i]);
            }
        }
        if exists|i: int| 0 <= i < facets.len() && (#[trigger] facets[i]) matches PresenceFacet::Builtin(BuiltinFacet::Activity(_)) {
            let i = choose|i: int| 0 <= i < facets.len() && (#[trigger] facets[i]) matches PresenceFacet::Builtin(BuiltinFacet::Activity(_));
            if i > 0 {
                assert(rest[i - 1] == facets[i]);
            }
        }
        if exists|i: int| 0 <= i < facets.len() && (#[trigger] facets[i]) matches PresenceFacet::Builtin(BuiltinFacet::LastSeen(_)) {
            let i = choose|i: int| 0 <= i < facets.len() && (#[trigger] facets[i]) matches PresenceFacet::Builtin(BuiltinFacet::LastSeen(_));
            if i > 0 {
                assert(rest[i - 1] == facets[i]);
            }
        }
    }
}

/// A facet found by `first_builtin` has the requested kind.
pub proof fn lemma_first_builtin_kind<E>(facets: Seq<PresenceFacet<E>>, kind: BuiltinFacetKind)
    ensures
        first_builtin(facets, kind) matches Some(facet) ==> facet.builtin_kind() == kind,
    decreases facets.len(),
{
    if facets.len() > 0 {
        lemma_first_builtin_kind(facets.drop_first(), kind);
    }
}

/// Scans `facets` for the first built-in facet of the given kind.
fn find_builtin<E>(facets: &Vec<PresenceFacet<E>>, kind: BuiltinFacetKind) -> (found: Option<
    BuiltinFacet,
>)
    ensures
        found == first_builtin(facets@, kind),
{
    let mut i: usize = 0;
    assert(facets@.skip(0) =~= facets@);
    while i < facets.len()
        invariant
            i <= facets@.len(),
            first_builtin(facets@, kind) == first_builtin(facets@.skip(i as int), kind),
        decreases facets@.len() - i,
    {
        assert(facets@.skip(i as int).drop_first() =~= facets@.skip(i + 1));
        assert(facets@.skip(i as int)[0] == facets@[i as int]);
        match facets[i] {
            PresenceFacet::Builtin(facet) => {
                if facet.kind() == kind {
                    return Some(facet);
                }
            },
            PresenceFacet::Extension(..) => {},
        }
        i += 1;
    }
    assert(facets@.skip(i as int).len() == 0);
    None
}

/// A materialized current view of presence for one scope and origin.
#[derive(Clone, Debug, Eq, Hash, PartialEq)]
pub struct PresenceSnapshot<S, C, R, I, V, E: ExtensionFacet = Never> {
    /// The scope of the materialized presence.
    pub address: PresenceAddress<S, C, R>,
    /// The origin that contributed this snapshot.
    pub origin: I,
    /// The carried visibility label.
    pub visibility: Visibility<V>,
    /// The most recent observation time represented by the snapshot.
    pub observed_at: Timestamp,
    /// The expiry attached to the snapshot.
    pub expiry: Expiry,
    /// The current materialized facets.
    pub facets: Vec<PresenceFacet<E>>,
}

impl<S, C, R, I, V, E: ExtensionFacet> PresenceSnapshot<S, C, R, I, V, E> {
    /// Whether `self` and `other` carry the same scope, origin, visibility,
    /// observation time and expiry.
    pub open spec fn same_header(&self, other: &Self) -> bool {
        &&& self.address == other.address
        &&& self.origin == other.origin
        &&& self.visibility == other.visibility
        &&& self.observed_at == other.observed_at
        &&& self.expiry == other.expiry
    }

    /// Whether `self` and `other` are the same snapshot: the same header and
    /// the same facets in the same order.
    pub open spec fn same_snapshot(&self, other: &Self) -> bool {
        &&& self.same_header(other)
        &&& self.facets@ == other.facets@
    }

    /// Creates an empty snapshot for the given scope and metadata.
    pub fn new(
        address: PresenceAddress<S, C, R>,
        origin: I,
        visibility: Visibility<V>,
        observed_at: Timestamp,
        expiry: Expiry,
    ) -> (snapshot: Self)
        ensures
            snapshot.address == address,
            snapshot.origin == origin,
            snapshot.visibility == visibility,
            snapshot.observed_at == observed_at,
            snapshot.expiry == expiry,
            snapshot.facets@ == Seq::<PresenceFacet<E>>::empty(),
    {
        PresenceSnapshot { address, origin, visibility, observed_at, expiry, facets: Vec::new() }
    }

    /// Appends a facet and returns the updated value.
    pub fn with_facet(self, facet: PresenceFacet<E>) -> (snapshot: Self)
        ensures
            snapshot.same_header(&self),
            snapshot.facets@ == self.facets@.push(facet),
    {
        let mut snapshot = self;
        snapshot.facets.push(facet);
        snapshot
    }

    /// Returns the materialized built-in availability, if present.
    pub fn availability(&self) -> (value: Option<Availability>)
        ensures
            value == facets_availability(self.facets@),
    {
        match find_builtin(&self.facets, BuiltinFacetKind::Availability) {
            Some(BuiltinFacet::Availability(value)) => Some(value),
            _ => None,
        }
    }

    /// Returns the materialized built-in activity, if present.
    pub fn activity(&self) -> (value: Option<Activity>)
        ensures
            value == facets_activity(self.facets@),
    {
        match find_builtin(&self.facets, BuiltinFacetKind::Activity) {
            Some(BuiltinFacet::Activity(value)) => Some(value),
            _ => None,
        }
    }

    /// Returns the materialized built-in last-seen timestamp, if present.
    pub fn last_seen(&self) -> (value: Option<Timestamp>)
        ensures
            value == facets_last_seen(self.facets@),
    {
        match find_builtin(&self.facets, BuiltinFacetKind::LastSeen) {
            Some(BuiltinFacet::LastSeen(value)) => Some(value),
            _ => None,
        }
    }
}

} // verus!
