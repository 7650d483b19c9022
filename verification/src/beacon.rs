//! Write-side publication helpers.
//!
//! A beacon owns publication ergonomics for one addressed presence source. It
//! does not own storage, transport, background scheduling, or wall-clock
//! access.

use core::marker::PhantomData;
use vstd::prelude::*;

use crate::presence::{
    BuiltinFacet, Expiry, ExtensionFacet, FacetChange, Never, PresenceAddress, PresenceFacet,
    PresenceUpdate, Timestamp, Visibility,
};

verus! {

/// Expiry policy resolved against each observation timestamp.
///
/// `After` uses the same raw units as [`Timestamp`]. Callers decide whether
/// those units mean wall-clock milliseconds, logical ticks, or something else.
#[derive(Clone, Copy, Debug, PartialEq, Eq, Structural, Hash, PartialOrd, Ord)]
pub enum ExpiryPolicy {
    /// Never expire published updates automatically.
    Never,
    /// Expire a fixed number of timestamp units after observation.
    After(u64),
}

/// `a + b`, or `u64::MAX` when the sum does not fit.
pub open spec fn saturating_sum(a: u64, b: u64) -> u64 {
    if a + b <= u64::MAX {
        (a + b) as u64
    } else {
        u64::MAX
    }
}

/// Saturation law: below `u64::MAX` a saturating step of one is the next
/// number, and at `u64::MAX` it stays there; in general the saturating sum is
/// never below either operand.
pub proof fn lemma_saturating_sum_steps(a: u64, b: u64)
    ensures
        a < u64::MAX ==> saturating_sum(a, 1) == a + 1,
        saturating_sum(u64::MAX, b) == u64::MAX,
        saturating_sum(a, b) >= a,
        saturating_sum(a, b) >= b,
        a + b <= u64::MAX ==> saturating_sum(a, b) == a + b,
{
}

impl ExpiryPolicy {
    /// Expiry policy law: a policy that never expires gives an expiry that is
    /// never reached; `After(delta)` gives an expiry that is reached exactly
    /// once `delta` units have passed since the observation (or the largest
    /// timestamp, when that sum does not fit).
    pub proof fn lemma_resolved_expiry_is_reached(self, observed_at: Timestamp, expiry: Expiry, now: Timestamp)
        requires
            self.resolves_to(observed_at, expiry),
        ensures
            self == ExpiryPolicy::Never ==> !expiry.expired_by(now),
            self matches ExpiryPolicy::After(delta) ==> (expiry.expired_by(now) <==> (now.value() >= observed_at.value()
                + delta || now.value() == u64::MAX)),
    {
    }

    /// Whether `expiry` is what this policy gives an observation at
    /// `observed_at`: `Never` for `Never`, and for `After(delta)` a deadline
    /// `delta` units after the observation, held at the largest timestamp when
    /// the sum does not fit.
    pub open spec fn resolves_to(self, observed_at: Timestamp, expiry: Expiry) -> bool {
        match self {
            ExpiryPolicy::Never => expiry == Expiry::Never,
            ExpiryPolicy::After(delta) => match expiry {
                Expiry::At(deadline) => deadline.value() == saturating_sum(observed_at.value(), delta),
                Expiry::Never => false,
            },
        }
    }

    /// Resolves the concrete expiry attached to an observation at `observed_at`.
    pub fn resolve(self, observed_at: Timestamp) -> (expiry: Expiry)
        ensures
            self.resolves_to(observed_at, expiry),
    {
        match self {
            ExpiryPolicy::Never => Expiry::Never,
            ExpiryPolicy::After(delta) => Expiry::At(
                Timestamp::new(observed_at.get().saturating_add(delta)),
            ),
        }
    }
}

/// A configured write-side presence publisher for one addressed source.
///
/// A beacon captures stable publication metadata, then builds
/// [`PresenceUpdate`] values on demand for the caller to publish through a
/// store, a server, or another runtime layer.
#[derive(Debug, Eq, PartialEq)]
pub struct PresenceBeacon<S, C, R, I, V, E: ExtensionFacet = Never> {
    address: PresenceAddress<S, C, R>,
    origin: I,
    visibility: Visibility<V>,
    expiry_policy: ExpiryPolicy,
    extension: PhantomData<E>,
}

impl<S: Copy, C: Copy, R: Copy, I: Copy, V: Copy, E: ExtensionFacet> Clone for PresenceBeacon<
    S,
    C,
    R,
    I,
    V,
    E,
> {
    fn clone(&self) -> (beacon: Self)
        ensures
            beacon == *self,
    {
        PresenceBeacon {
            address: self.address,
            origin: self.origin,
            visibility: self.visibility,
            expiry_policy: self.expiry_policy,
            extension: PhantomData,
        }
    }
}

impl<S, C, R, I, V> PresenceBeacon<S, C, R, I, V, Never> {
    /// Creates a beacon for one addressed source without extension facets.
    ///
    /// New beacons default to public visibility and never-expiring updates.
    pub fn new(address: PresenceAddress<S, C, R>, origin: I) -> (beacon: Self)
        ensures
            beacon.configured_address() == address,
            beacon.configured_origin() == origin,
            beacon.configured_visibility() == Visibility::<V>::Public,
            beacon.configured_expiry_policy() == ExpiryPolicy::Never,
    {
        PresenceBeacon {
            address,
            origin,
            visibility: Visibility::Public,
            expiry_policy: ExpiryPolicy::Never,
            extension: PhantomData,
        }
    }
}

impl<S, C, R, I, V, E: ExtensionFacet> PresenceBeacon<S, C, R, I, V, E> {
    /// The configured address.
    pub closed spec fn configured_address(&self) -> PresenceAddress<S, C, R> {
        self.address
    }

    /// The configured origin.
    pub closed spec fn configured_origin(&self) -> I {
        self.origin
    }

    /// The configured visibility.
    pub closed spec fn configured_visibility(&self) -> Visibility<V> {
        self.visibility
    }

    /// The configured expiry policy.
    pub closed spec fn configured_expiry_policy(&self) -> ExpiryPolicy {
        self.expiry_policy
    }

    /// Creates a beacon for one addressed source with an explicit extension
    /// facet type.
    ///
    /// New beacons default to public visibility and never-expiring updates.
    pub fn new_typed(address: PresenceAddress<S, C, R>, origin: I) -> (beacon: Self)
        ensures
            beacon.configured_address() == address,
            beacon.configured_origin() == origin,
            beacon.configured_visibility() == Visibility::<V>::Public,
            beacon.configured_expiry_policy() == ExpiryPolicy::Never,
    {
        PresenceBeacon {
            address,
            origin,
            visibility: Visibility::Public,
            expiry_policy: ExpiryPolicy::Never,
            extension: PhantomData,
        }
    }

    /// Returns the configured address.
    pub fn address(&self) -> (address: &PresenceAddress<S, C, R>)
        ensures
            *address == self.configured_address(),
    {
        &self.address
    }

    /// Returns the configured origin.
    pub fn origin(&self) -> (origin: &I)
        ensures
            *origin == self.configured_origin(),
    {
        &self.origin
    }

    /// Returns the configured visibility.
    pub fn visibility(&self) -> (visibility: &Visibility<V>)
        ensures
            *visibility == self.configured_visibility(),
    {
        &self.visibility
    }

    /// Returns the configured expiry policy.
    pub fn expiry_policy(&self) -> (policy: ExpiryPolicy)
        ensures
            policy == self.configured_expiry_policy(),
    {
        self.expiry_policy
    }

    /// Replaces the configured visibility.
    pub fn with_visibility(self, visibility: Visibility<V>) -> (beacon: Self)
        ensures
            beacon.configured_address() == self.configured_address(),
            beacon.configured_origin() == self.configured_origin(),
            beacon.configured_visibility() == visibility,
            beacon.configured_expiry_policy() == self.configured_expiry_policy(),
    {
        PresenceBeacon { visibility, ..self }
    }

    /// Replaces the configured expiry policy.
    pub fn with_expiry_policy(self, expiry_policy: ExpiryPolicy) -> (beacon: Self)
        ensures
            beacon.configured_address() == self.configured_address(),
            beacon.configured_origin() == self.configured_origin(),
            beacon.configured_visibility() == self.configured_visibility(),
            beacon.configured_expiry_policy() == expiry_policy,
    {
        PresenceBeacon { expiry_policy, ..self }
    }

    /// Builds an empty update at the provided observation timestamp.
    pub fn update_at(&self, observed_at: Timestamp) -> (update: PresenceUpdate<S, C, R, I, V, E>) where
        S: Copy,
        C: Copy,
        R: Copy,
        I: Copy,
        V: Copy,

        ensures
            update.address == self.configured_address(),
            update.origin == self.configured_origin(),
            update.visibility == self.configured_visibility(),
            update.observed_at == observed_at,
            self.configured_expiry_policy().resolves_to(observed_at, update.expiry),
            update.changes@ == Seq::<FacetChange<E>>::empty(),
    {
        PresenceUpdate::new(
            self.address,
            self.origin,
            self.visibility,
            observed_at,
            self.expiry_policy.resolve(observed_at),
        )
    }

    /// Builds an update that refreshes last-seen at the provided observation
    /// timestamp.
    pub fn heartbeat_at(&self, observed_at: Timestamp) -> (update: PresenceUpdate<
        S,
        C,
        R,
        I,
        V,
        E,
    >) where
        S: Copy,
        C: Copy,
        R: Copy,
        I: Copy,
        V: Copy,

        ensures
            update.address == self.configured_address(),
            update.origin == self.configured_origin(),
            update.visibility == self.configured_visibility(),
            update.observed_at == observed_at,
            self.configured_expiry_policy().resolves_to(observed_at, update.expiry),
            update.changes@ == seq![
                FacetChange::<E>::Upsert(PresenceFacet::Builtin(BuiltinFacet::LastSeen(observed_at))),
            ],
    {
        self.update_at(observed_at).set_last_seen(observed_at)
    }
}

} // verus!
