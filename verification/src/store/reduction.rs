//! Reduction of facet changes into materialized facets.
//!
//! A stored entry keeps at most one facet per kind. `Upsert` replaces the
//! facet of its kind in place, or appends it when the kind is new; `Clear`
//! removes the facet of the given kind when there is one.

use vstd::prelude::*;

use crate::presence::{ExtensionFacet, FacetChange, PresenceFacet, PresenceFacetKind};

verus! {

/// Whether no two facets in `facets` share a kind.
pub open spec fn unique_kinds<E: ExtensionFacet>(facets: Seq<PresenceFacet<E>>) -> bool {
    forall|i: int, j: int|
        0 <= i < facets.len() && 0 <= j < facets.len() && i != j ==> (#[trigger] facets[i]).facet_kind()
            != (#[trigger] facets[j]).facet_kind()
}

/// Whether some facet in `facets` has the given kind.
pub open spec fn has_kind<E: ExtensionFacet>(
    facets: Seq<PresenceFacet<E>>,
    kind: PresenceFacetKind<E::Kind>,
) -> bool {
    exists|i: int| 0 <= i < facets.len() && (#[trigger] facets[i]).facet_kind() == kind
}

/// The position of a facet of the given kind, when `has_kind` holds.
pub open spec fn kind_slot<E: ExtensionFacet>(
    facets: Seq<PresenceFacet<E>>,
    kind: PresenceFacetKind<E::Kind>,
) -> int {
    choose|i: int| 0 <= i < facets.len() && (#[trigger] facets[i]).facet_kind() == kind
}

/// The facet of the given kind in `facets`, if there is one.
pub open spec fn facet_of_kind<E: ExtensionFacet>(
    facets: Seq<PresenceFacet<E>>,
    kind: PresenceFacetKind<E::Kind>,
) -> Option<PresenceFacet<E>> {
    if has_kind(facets, kind) {
        Some(facets[kind_slot(facets, kind)])
    } else {
        None
    }
}

/// `facets` after one change: an upsert replaces the facet of its kind in
/// place or appends it; a clear removes the facet of its kind if present.
pub open spec fn apply_change<E: ExtensionFacet>(
    facets: Seq<PresenceFacet<E>>,
    change: FacetChange<E>,
) -> Seq<PresenceFacet<E>> {
    match change {
        FacetChange::Upsert(facet) => if has_kind(facets, facet.facet_kind()) {
            facets.update(kind_slot(facets, facet.facet_kind()), facet)
        } else {
            facets.push(facet)
        },
        FacetChange::Clear(kind) => if has_kind(facets, kind) {
            facets.remove(kind_slot(facets, kind))
        } else {
            facets
        },
    }
}

/// `facets` after applying `changes` in order.
pub open spec fn apply_changes<E: ExtensionFacet>(
    facets: Seq<PresenceFacet<E>>,
    changes: Seq<FacetChange<E>>,
) -> Seq<PresenceFacet<E>>
    decreases changes.len(),
{
    if changes.len() == 0 {
        facets
    } else {
        apply_change(apply_changes(facets, changes.drop_last()), changes.last())
    }
}

/// When kinds are unique, the facet at `slot` is the one `kind_slot` names.
proof fn lemma_kind_slot_unique<E: ExtensionFacet>(
    facets: Seq<PresenceFacet<E>>,
    kind: PresenceFacetKind<E::Kind>,
    slot: int,
)
    requires
        unique_kinds(facets),
        0 <= slot < facets.len(),
        facets[slot].facet_kind() == kind,
    ensures
        has_kind(facets, kind),
        kind_slot(facets, kind) == slot,
{
    assert(facets[slot].facet_kind() == kind);
}

/// Reduction law: with unique kinds, one change keeps kinds unique; after an
/// upsert the facet's kind maps to that facet, after a clear its kind maps to
/// nothing, and every other kind keeps its facet.
pub proof fn lemma_apply_change<E: ExtensionFacet>(
    facets: Seq<PresenceFacet<E>>,
    change: FacetChange<E>,
)
    requires
        unique_kinds(facets),
    ensures
        unique_kinds(apply_change(facets, change)),
        forall|kind: PresenceFacetKind<E::Kind>|
            #[trigger] facet_of_kind(apply_change(facets, change), kind) == match change {
                FacetChange::Upsert(facet) => if kind == facet.facet_kind() {
                    Some(facet)
                } else {
                    facet_of_kind(facets, kind)
                },
                FacetChange::Clear(cleared) => if kind == cleared {
                    None
                } else {
                    facet_of_kind(facets, kind)
                },
            },
{
    let after = apply_change(facets, change);
    match change {
        FacetChange::Upsert(facet) => {
            let k = facet.facet_kind();
            if has_kind(facets, k) {
                let s = kind_slot(facets, k);
                assert(unique_kinds(after));
                assert forall|kind: PresenceFacetKind<E::Kind>|
                    #[trigger] facet_of_kind(after, kind) == (if kind == k {
                        Some(facet)
                    } else {
                        facet_of_kind(facets, kind)
                    }) by {
                    if kind == k {
                        lemma_kind_slot_unique(after, kind, s);
                    } else if has_kind(facets, kind) {
                        let t = kind_slot(facets, kind);
                        assert(t != s);
                        lemma_kind_slot_unique(after, kind, t);
                    } else {
                        if has_kind(after, kind) {
                            let t = kind_slot(after, kind);
                            assert(facets[t].facet_kind() == kind);
                        }
                    }
                }
            } else {
                assert(unique_kinds(after));
                let s = facets.len() as int;
                assert forall|kind: PresenceFacetKind<E::Kind>|
                    #[trigger] facet_of_kind(after, kind) == (if kind == k {
                        Some(facet)
                    } else {
                        facet_of_kind(facets, kind)
                    }) by {
                    if kind == k {
                        lemma_kind_slot_unique(after, kind, s);
                    } else if has_kind(facets, kind) {
                        let t = kind_slot(facets, kind);
                        lemma_kind_slot_unique(after, kind, t);
                    } else {
                        if has_kind(after, kind) {
                            let t = kind_slot(after, kind);
                            assert(facets[t].facet_kind() == kind);
                        }
                    }
                }
            }
        },
        FacetChange::Clear(k) => {
            if has_kind(facets, k) {
                let s = kind_slot(facets, k);
                assert forall|i: int, j: int|
                    0 <= i < after.len() && 0 <= j < after.len() && i != j implies (
                    #[trigger] after[i]).facet_kind() != (#[trigger] after[j]).facet_kind() by {
                    let fi = if i < s {
                        i
                    } else {
                        i + 1
                    };
                    let fj = if j < s {
                        j
                    } else {
                        j + 1
                    };
                    assert(after[i] == facets[fi]);
                    assert(after[j] == facets[fj]);
                }
                assert forall|kind: PresenceFacetKind<E::Kind>|
                    #[trigger] facet_of_kind(after, kind) == (if kind == k {
                        None
                    } else {
                        facet_of_kind(facets, kind)
                    }) by {
                    if has_kind(after, kind) {
                        let t = kind_slot(after, kind);
                        let ft = if t < s {
                            t
                        } else {
                            t + 1
                        };
                        assert(after[t] == facets[ft]);
                        if kind != k {
                            lemma_kind_slot_unique(facets, kind, ft);
                        }
                    } else if has_kind(facets, kind) && kind != k {
                        let t = kind_slot(facets, kind);
                        let at = if t < s {
                            t
                        } else {
                            t - 1
                        };
                        assert(after[at] == facets[t]);
                    }
                }
            }
        },
    }
}

/// Applying a sequence of changes keeps kinds unique.
pub proof fn lemma_apply_changes_unique<E: ExtensionFacet>(
    facets: Seq<PresenceFacet<E>>,
    changes: Seq<FacetChange<E>>,
)
    requires
        unique_kinds(facets),
    ensures
        unique_kinds(apply_changes(facets, changes)),
    decreases changes.len(),
{
    if changes.len() > 0 {
        lemma_apply_changes_unique(facets, changes.drop_last());
        lemma_apply_change(apply_changes(facets, changes.drop_last()), changes.last());
    }
}

/// Finds the position of the facet of the given kind.
fn kind_position<E: ExtensionFacet>(
    facets: &Vec<PresenceFacet<E>>,
    kind: &PresenceFacetKind<E::Kind>,
) -> (position: Option<usize>)
    requires
        unique_kinds(facets@),
    ensures
        match position {
            Some(i) => has_kind(facets@, *kind) && i as int == kind_slot(facets@, *kind),
            None => !has_kind(facets@, *kind),
        },
{
    let mut i: usize = 0;
    while i < facets.len()
        invariant
            i <= facets@.len(),
            unique_kinds(facets@),
            forall|j: int| 0 <= j < i ==> (#[trigger] facets@[j]).facet_kind() != *kind,
        decreases facets@.len() - i,
    {
        let current = facets[i].kind();
        if current.same_kind(kind) {
            proof {
                lemma_kind_slot_unique(facets@, *kind, i as int);
            }
            return Some(i);
        }
        i += 1;
    }
    None
}

/// Applies one change to materialized facets.
pub fn apply_facet_change<E: ExtensionFacet>(facets: &mut Vec<PresenceFacet<E>>, change: FacetChange<E>)
    requires
        unique_kinds(old(facets)@),
    ensures
        final(facets)@ == apply_change(old(facets)@, change),
        unique_kinds(final(facets)@),
{
    proof {
        lemma_apply_change(facets@, change);
    }
    match change {
        FacetChange::Upsert(facet) => {
            let kind = facet.kind();
            match kind_position(facets, &kind) {
                Some(i) => {
                    facets.set(i, facet);
                },
                None => {
                    facets.push(facet);
                },
            }
        },
        FacetChange::Clear(kind) => {
            match kind_position(facets, &kind) {
                Some(i) => {
                    facets.remove(i);
                },
                None => {},
            }
        },
    }
}

/// Applies changes in order to materialized facets.
pub fn apply_facet_changes<E: ExtensionFacet>(
    facets: &mut Vec<PresenceFacet<E>>,
    changes: &Vec<FacetChange<E>>,
)
    requires
        unique_kinds(old(facets)@),
    ensures
        final(facets)@ == apply_changes(old(facets)@, changes@),
        unique_kinds(final(facets)@),
{
    let ghost start = facets@;
    let mut i: usize = 0;
    assert(changes@.take(0) =~= Seq::<FacetChange<E>>::empty());
    while i < changes.len()
        invariant
            i <= changes@.len(),
            facets@ == apply_changes(start, changes@.take(i as int)),
            unique_kinds(facets@),
        decreases changes@.len() - i,
    {
        apply_facet_change(facets, changes[i]);
        assert(changes@.take(i + 1).drop_last() =~= changes@.take(i as int));
        i += 1;
    }
    assert(changes@.take(i as int) =~= changes@);
}

} // verus!
