//! Caller-supplied visibility policies.

use vstd::prelude::*;

use crate::presence::Visibility;

verus! {

/// Policy used to decide whether a stored visibility label is observable.
///
/// `permits` states the decision; `allows` computes it.
pub trait VisibilityPolicy<V> {
    /// Whether a fact carrying `visibility` should be included.
    spec fn permits(&self, visibility: Visibility<V>) -> bool;

    /// Returns `true` when the provided visibility label should be included.
    fn allows(&self, visibility: &Visibility<V>) -> (allowed: bool)
        ensures
            allowed == self.permits(*visibility),
    ;
}

/// A policy that admits only public facts.
#[derive(Clone, Copy, Debug, Default, PartialEq, Eq)]
pub struct PublicOnly;

impl<V> VisibilityPolicy<V> for PublicOnly {
    open spec fn permits(&self, visibility: Visibility<V>) -> bool {
        visibility is Public
    }

    fn allows(&self, visibility: &Visibility<V>) -> (allowed: bool) {
        match visibility {
            Visibility::Public => true,
            _ => false,
        }
    }
}

/// Public-only law: the public-only policy admits a label exactly when it is
/// public; private and restricted labels are never admitted.
pub proof fn lemma_public_only_admits_only_public<V>(visibility: Visibility<V>)
    ensures
        <PublicOnly as VisibilityPolicy<V>>::permits(&PublicOnly, visibility) <==> visibility
            == Visibility::<V>::Public,
        !<PublicOnly as VisibilityPolicy<V>>::permits(&PublicOnly, Visibility::<V>::Private),
{
}

/// A policy that admits every fact, private ones included.
#[derive(Clone, Copy, Debug, Default, PartialEq, Eq)]
pub struct AllowAll;

impl<V> VisibilityPolicy<V> for AllowAll {
    open spec fn permits(&self, visibility: Visibility<V>) -> bool {
        true
    }

    fn allows(&self, visibility: &Visibility<V>) -> (allowed: bool) {
        true
    }
}

/// Allow-all law: the allow-all policy admits every label.
pub proof fn lemma_allow_all_admits_everything<V>(visibility: Visibility<V>)
    ensures
        <AllowAll as VisibilityPolicy<V>>::permits(&AllowAll, visibility),
{
}

/// Compares two labels by their characters.
fn label_matches(left: &str, right: &str) -> (same: bool)
    ensures
        same == (left@ == right@),
{
    left.to_owned() == right.to_owned()
}

/// A policy for string labels that admits public facts and the restricted
/// facts whose label is in its list; private facts are never admitted.
#[derive(Clone, Debug, Default, PartialEq, Eq)]
pub struct LabelAllowlist {
    labels: Vec<&'static str>,
}

impl LabelAllowlist {
    /// The labels this policy admits.
    pub closed spec fn admitted(&self) -> Seq<&'static str> {
        self.labels@
    }

    /// Creates a policy that admits public facts and facts restricted to one
    /// of `labels`.
    pub fn new(labels: Vec<&'static str>) -> (policy: Self)
        ensures
            policy.admitted() == labels@,
    {
        LabelAllowlist { labels }
    }
}

/// Allowlist law: a policy built from `labels` admits every public label,
/// never a private one, and a restricted label exactly when one of `labels`
/// has the same characters.
pub proof fn lemma_label_allowlist_admits(policy: LabelAllowlist, labels: Seq<&'static str>, label: &'static str)
    requires
        policy.admitted() == labels,
    ensures
        policy.permits(Visibility::Public),
        !policy.permits(Visibility::Private),
        policy.permits(Visibility::Restricted(label)) <==> exists|i: int|
            0 <= i < labels.len() && (#[trigger] labels[i])@ == label@,
{
}

impl VisibilityPolicy<&'static str> for LabelAllowlist {
    open spec fn permits(&self, visibility: Visibility<&'static str>) -> bool {
        match visibility {
            Visibility::Public => true,
            Visibility::Restricted(label) => exists|i: int|
                0 <= i < self.admitted().len() && (#[trigger] self.admitted()[i])@ == label@,
            Visibility::Private => false,
        }
    }

    fn allows(&self, visibility: &Visibility<&'static str>) -> (allowed: bool) {
        match visibility {
            Visibility::Public => true,
            Visibility::Private => false,
            Visibility::Restricted(label) => {
                let mut i: usize = 0;
                while i < self.labels.len()
                    invariant
                        i <= self.labels@.len(),
                        self.admitted() == self.labels@,
                        *visibility == Visibility::Restricted(*label),
                        forall|j: int| 0 <= j < i ==> (#[trigger] self.labels@[j])@ != label@,
                    decreases self.labels@.len() - i,
                {
                    if label_matches(self.labels[i], label) {
                        assert(self.admitted()[i as int]@ == (*label)@);
                        return true;
                    }
                    i += 1;
                }
                false
            },
        }
    }
}

} // verus!
