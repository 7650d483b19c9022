//! Laws of the store: what publishing, reading, filtering, expiry and
//! subject projection guarantee across calls.

use vstd::prelude::*;

use crate::presence::{ExtensionFacet, FacetChange, PresenceFacet, PresenceFacetKind, Timestamp};
use crate::store::change::{same_changes, StoreChange};
use crate::store::model::{
    after_sequence, at_address, entries_after_publish, entries_well_formed, entry_after_publish,
    entry_for_key, expired_at, in_context, lemma_filter_nonempty, lemma_filter_twice, live_at,
    materializes, materializes_all, same_snapshots, slot_of_key, update_key, visible_after,
    visible_at_address, visible_in_context, EntryView,
};
use crate::store::projection::{
    contains_subject, distinct_subjects, has_subject, lemma_distinct_subjects, summarizes,
    SubjectPresenceSummary, SubjectProjectionPolicy,
};
use crate::store::reduction;
use crate::store::visibility::VisibilityPolicy;
use crate::store::{EntryKey, StoreAddress, StoreSnapshot, StoreUpdate};

verus! {

/// With one entry per key, the entry at `slot` is the one `slot_of_key`
/// finds for its key.
proof fn lemma_slot_of_key<V, E: ExtensionFacet>(entries: Seq<EntryView<V, E>>, slot: int)
    requires
        entries_well_formed(entries),
        0 <= slot < entries.len(),
    ensures
        slot_of_key(entries, entries[slot].key) == Some(slot),
{
    let key = entries[slot].key;
    assert(entries[slot].key == key);
}

/// Read-after-write law: after publishing `update`, its key holds the
/// update's metadata and the facets stored there before (none for a new key)
/// with the update's changes applied; the entries stay well formed.
pub proof fn lemma_publish_then_read<V, E: ExtensionFacet>(
    entries: Seq<EntryView<V, E>>,
    update: StoreUpdate<V, E>,
)
    requires
        entries_well_formed(entries),
    ensures
        entries_well_formed(entries_after_publish(entries, update)),
        entry_for_key(entries_after_publish(entries, update), update_key(update)) == Some(
            entry_after_publish(
                match entry_for_key(entries, update_key(update)) {
                    Some(previous) => previous.facets,
                    None => Seq::empty(),
                },
                update,
            ),
        ),
{
    let key = update_key(update);
    let after = entries_after_publish(entries, update);
    match slot_of_key(entries, key) {
        Some(i) => {
            reduction::lemma_apply_changes_unique(entries[i].facets, update.changes@);
            assert forall|a: int, b: int|
                0 <= a < after.len() && 0 <= b < after.len() && a != b implies (#[trigger] after[a]).key
                    != (#[trigger] after[b]).key by {
                assert(after[a].key == entries[a].key);
                assert(after[b].key == entries[b].key);
            }
            lemma_slot_of_key(after, i);
        },
        None => {
            reduction::lemma_apply_changes_unique(Seq::<PresenceFacet<E>>::empty(), update.changes@);
            assert forall|a: int, b: int|
                0 <= a < after.len() && 0 <= b < after.len() && a != b implies (#[trigger] after[a]).key
                    != (#[trigger] after[b]).key by {
                if a < entries.len() && b < entries.len() {
                    assert(after[a] == entries[a] && after[b] == entries[b]);
                } else if a < entries.len() {
                    assert(after[a] == entries[a]);
                } else {
                    assert(after[b] == entries[b]);
                }
            }
            lemma_slot_of_key(after, entries.len() as int);
        },
    }
}

/// Isolation law: publishing an update leaves the entry of every other key
/// exactly as it was, so concurrent publishers never overwrite one another.
pub proof fn lemma_publish_isolates_keys<V, E: ExtensionFacet>(
    entries: Seq<EntryView<V, E>>,
    update: StoreUpdate<V, E>,
    key: EntryKey,
)
    requires
        entries_well_formed(entries),
        key != update_key(update),
    ensures
        entry_for_key(entries_after_publish(entries, update), key) == entry_for_key(entries, key),
{
    lemma_publish_then_read(entries, update);
    let after = entries_after_publish(entries, update);
    match slot_of_key(entries, key) {
        Some(i) => {
            assert(after[i] == entries[i]);
            lemma_slot_of_key(after, i);
        },
        None => {
            if exists|j: int| 0 <= j < after.len() && (#[trigger] after[j]).key == key {
                let j = choose|j: int| 0 <= j < after.len() && (#[trigger] after[j]).key == key;
                if j < entries.len() {
                    assert(after[j].key == entries[j].key);
                }
            }
        },
    }
}

/// Visibility law for snapshots: the visible entries of a context are
/// exactly the context's entries whose label the policy permits, in order.
pub proof fn lemma_visible_entries_are_permitted<V, E: ExtensionFacet, P: VisibilityPolicy<V>>(
    entries: Seq<EntryView<V, E>>,
    context: u64,
    policy: P,
)
    ensures
        entries.filter(visible_in_context(context, policy)) == entries.filter(in_context(context)).filter(
            |entry: EntryView<V, E>| policy.permits(entry.visibility),
        ),
{
    let permitted = |entry: EntryView<V, E>| policy.permits(entry.visibility);
    lemma_filter_twice(entries, in_context::<V, E>(context), permitted);
    assert((|entry: EntryView<V, E>| (in_context::<V, E>(context))(entry) && permitted(entry))
        =~= visible_in_context::<V, E, P>(context, policy));
}

/// Visibility law for retained changes: the visible changes beyond `since`
/// are exactly the changes beyond `since` whose label the policy permits, in
/// order.
pub proof fn lemma_visible_changes_are_permitted<V, E: ExtensionFacet, P: VisibilityPolicy<V>>(
    changes: Seq<StoreChange<V, E>>,
    since: u64,
    policy: P,
)
    ensures
        changes.filter(visible_after(since, policy)) == changes.filter(after_sequence(since)).filter(
            |change: StoreChange<V, E>| policy.permits(change.change_visibility()),
        ),
{
    let permitted = |change: StoreChange<V, E>| policy.permits(change.change_visibility());
    lemma_filter_twice(changes, after_sequence::<V, E>(since), permitted);
    assert((|change: StoreChange<V, E>| (after_sequence::<V, E>(since))(change) && permitted(change))
        =~= visible_after::<V, E, P>(since, policy));
}

/// Expiry law: expiry at `now` splits the entries into those it removes,
/// every one of them expired, and those it keeps, none of them expired.
pub proof fn lemma_expiry_partitions<V, E: ExtensionFacet>(entries: Seq<EntryView<V, E>>, now: Timestamp)
    ensures
        forall|i: int|
            0 <= i < entries.filter(live_at(now)).len() ==> !(#[trigger] entries.filter(live_at(now))[i]).expiry.expired_by(now),
        forall|i: int|
            0 <= i < entries.filter(expired_at(now)).len() ==> (#[trigger] entries.filter(expired_at(now))[i]).expiry.expired_by(now),
        entries.filter(live_at(now)).len() + entries.filter(expired_at(now)).len() == entries.len(),
    decreases entries.len(),
{
    reveal(Seq::filter);
    assert forall|i: int|
        0 <= i < entries.filter(live_at(now)).len() implies !(#[trigger] entries.filter(live_at(now))[i]).expiry.expired_by(now) by {
        entries.lemma_filter_pred(live_at::<V, E>(now), i);
    }
    assert forall|i: int|
        0 <= i < entries.filter(expired_at(now)).len() implies (#[trigger] entries.filter(expired_at(now))[i]).expiry.expired_by(now) by {
        entries.lemma_filter_pred(expired_at::<V, E>(now), i);
    }
    if entries.len() > 0 {
        lemma_expiry_partitions(entries.drop_last(), now);
    }
}

/// Whether a snapshot belongs to `subject`.
pub open spec fn snapshot_of_subject<V, E: ExtensionFacet>(subject: u64) -> spec_fn(StoreSnapshot<V, E>) -> bool {
    |snapshot: StoreSnapshot<V, E>| snapshot.address.subject == subject
}

/// Whether `policy` permits a snapshot's label.
pub open spec fn snapshot_permitted<V, E: ExtensionFacet, P: VisibilityPolicy<V>>(
    policy: P,
) -> spec_fn(StoreSnapshot<V, E>) -> bool {
    |snapshot: StoreSnapshot<V, E>| policy.permits(snapshot.visibility)
}

/// Filtering materialized snapshots by a test that agrees with a test on the
/// entries they materialize gives the materialization of the filtered entries.
proof fn lemma_materialized_filter<V, E: ExtensionFacet>(
    snapshots: Seq<StoreSnapshot<V, E>>,
    entries: Seq<EntryView<V, E>>,
    on_snapshot: spec_fn(StoreSnapshot<V, E>) -> bool,
    on_entry: spec_fn(EntryView<V, E>) -> bool,
)
    requires
        materializes_all(snapshots, entries),
        forall|i: int| 0 <= i < entries.len() ==> on_snapshot(#[trigger] snapshots[i]) == on_entry(entries[i]),
    ensures
        materializes_all(snapshots.filter(on_snapshot), entries.filter(on_entry)),
    decreases entries.len(),
{
    reveal(Seq::filter);
    if entries.len() > 0 {
        let rest = entries.drop_last();
        let shorter = snapshots.drop_last();
        assert forall|i: int| 0 <= i < rest.len() implies on_snapshot(#[trigger] shorter[i]) == on_entry(rest[i]) by {
            assert(shorter[i] == snapshots[i] && rest[i] == entries[i]);
        }
        assert forall|i: int| 0 <= i < rest.len() implies materializes(#[trigger] shorter[i], rest[i]) by {
            assert(shorter[i] == snapshots[i] && rest[i] == entries[i]);
        }
        lemma_materialized_filter(shorter, rest, on_snapshot, on_entry);
        assert(on_snapshot(snapshots[snapshots.len() - 1]) == on_entry(entries[entries.len() - 1]));
        assert(materializes(snapshots[snapshots.len() - 1], entries[entries.len() - 1]));
    }
}

/// Two snapshot sequences that materialize the same entries hold the same
/// snapshots.
proof fn lemma_materializations_agree<V, E: ExtensionFacet>(
    left: Seq<StoreSnapshot<V, E>>,
    right: Seq<StoreSnapshot<V, E>>,
    entries: Seq<EntryView<V, E>>,
)
    requires
        materializes_all(left, entries),
        materializes_all(right, entries),
    ensures
        same_snapshots(left, right),
{
    assert forall|i: int| 0 <= i < left.len() implies (#[trigger] left[i]).same_snapshot(&right[i]) by {
        assert(materializes(left[i], entries[i]));
        assert(materializes(right[i], entries[i]));
    }
}

/// Visibility law for snapshot reads: the visible snapshots of a context are
/// exactly the context's snapshots whose label the policy permits, in order.
/// `all` and `visible` are what `snapshots_in_context` and
/// `snapshots_in_context_visible` return for the same store.
pub proof fn lemma_visible_context_snapshots<V, E: ExtensionFacet, P: VisibilityPolicy<V>>(
    entries: Seq<EntryView<V, E>>,
    context: u64,
    policy: P,
    all: Seq<StoreSnapshot<V, E>>,
    visible: Seq<StoreSnapshot<V, E>>,
)
    requires
        materializes_all(all, entries.filter(in_context(context))),
        materializes_all(visible, entries.filter(visible_in_context(context, policy))),
    ensures
        same_snapshots(visible, all.filter(snapshot_permitted(policy))),
{
    let in_ctx = entries.filter(in_context(context));
    let permitted = |entry: EntryView<V, E>| policy.permits(entry.visibility);
    lemma_visible_entries_are_permitted(entries, context, policy);
    assert forall|i: int| 0 <= i < in_ctx.len() implies (snapshot_permitted::<V, E, P>(policy))(#[trigger] all[i])
        == permitted(in_ctx[i]) by {
        assert(materializes(all[i], in_ctx[i]));
    }
    lemma_materialized_filter(all, in_ctx, snapshot_permitted::<V, E, P>(policy), permitted);
    lemma_materializations_agree(visible, all.filter(snapshot_permitted(policy)), in_ctx.filter(permitted));
}

/// Subject law for one summary: a subject's summary in a context exists
/// exactly when the context has a snapshot of that subject, and it is built
/// from exactly those snapshots, in order. `all` is what
/// `snapshots_in_context` returns and `summary` what
/// `subject_summary_in_context_with_policy` returns for the same store.
pub proof fn lemma_subject_summary_uses_subject_snapshots<V, E: ExtensionFacet, P: SubjectProjectionPolicy>(
    entries: Seq<EntryView<V, E>>,
    subject: u64,
    context: u64,
    policy: P,
    all: Seq<StoreSnapshot<V, E>>,
    summary: Option<SubjectPresenceSummary<V, E>>,
)
    requires
        materializes_all(all, entries.filter(in_context(context))),
        ({
            let group = entries.filter(in_context(context)).filter(has_subject(subject));
            &&& group.len() == 0 ==> summary is None
            &&& group.len() > 0 ==> (summary matches Some(found) && summarizes(found, policy, group))
        }),
    ensures
        summary is None <==> all.filter(snapshot_of_subject(subject)).len() == 0,
        summary matches Some(found) ==> {
            &&& found.subject == subject
            &&& found.context == context
            &&& same_snapshots(found.resources@, all.filter(snapshot_of_subject(subject)))
        },
{
    let in_ctx = entries.filter(in_context(context));
    let group = in_ctx.filter(has_subject(subject));
    assert forall|i: int| 0 <= i < in_ctx.len() implies (snapshot_of_subject::<V, E>(subject))(#[trigger] all[i])
        == (has_subject::<V, E>(subject))(in_ctx[i]) by {
        assert(materializes(all[i], in_ctx[i]));
    }
    lemma_materialized_filter(all, in_ctx, snapshot_of_subject::<V, E>(subject), has_subject::<V, E>(subject));
    if group.len() > 0 {
        let found = summary->Some_0;
        in_ctx.lemma_filter_pred(has_subject::<V, E>(subject), 0);
        assert(in_ctx.filter(has_subject(subject)).contains(group[0]));
        in_ctx.lemma_filter_contains_rev(has_subject::<V, E>(subject), group[0]);
        let j = choose|j: int| 0 <= j < in_ctx.len() && in_ctx[j] == group[0];
        entries.lemma_filter_pred(in_context::<V, E>(context), j);
        lemma_materializations_agree(found.resources@, all.filter(snapshot_of_subject(subject)), group);
    }
}

/// Subject law for all summaries: the summaries of a context hold each
/// subject of the context's snapshots exactly once, and each is built from
/// exactly that subject's snapshots, in order, so together they split the
/// context's snapshots by subject. `all` is what `snapshots_in_context`
/// returns and `summaries` what `subject_summaries_in_context_with_policy`
/// returns for the same store.
pub proof fn lemma_subject_summaries_split_snapshots<V, E: ExtensionFacet, P: SubjectProjectionPolicy>(
    entries: Seq<EntryView<V, E>>,
    context: u64,
    policy: P,
    all: Seq<StoreSnapshot<V, E>>,
    summaries: Seq<SubjectPresenceSummary<V, E>>,
)
    requires
        materializes_all(all, entries.filter(in_context(context))),
        ({
            let in_ctx = entries.filter(in_context(context));
            let subjects = distinct_subjects(in_ctx);
            &&& summaries.len() == subjects.len()
            &&& forall|g: int|
                0 <= g < summaries.len() ==> (#[trigger] summaries[g]).subject == subjects[g]
                    && summarizes(summaries[g], policy, in_ctx.filter(has_subject(subjects[g])))
        }),
    ensures
        forall|g: int, h: int|
            0 <= g < summaries.len() && 0 <= h < summaries.len() && g != h ==> (#[trigger] summaries[g]).subject
                != (#[trigger] summaries[h]).subject,
        forall|i: int|
            0 <= i < all.len() ==> exists|g: int|
                0 <= g < summaries.len() && (#[trigger] summaries[g]).subject == (#[trigger] all[i]).address.subject,
        forall|g: int|
            0 <= g < summaries.len() ==> {
                &&& (#[trigger] summaries[g]).context == context
                &&& same_snapshots(summaries[g].resources@, all.filter(snapshot_of_subject(summaries[g].subject)))
            },
{
    let in_ctx = entries.filter(in_context(context));
    let subjects = distinct_subjects(in_ctx);
    lemma_distinct_subjects(in_ctx);
    assert forall|g: int, h: int|
        0 <= g < summaries.len() && 0 <= h < summaries.len() && g != h implies (#[trigger] summaries[g]).subject
            != (#[trigger] summaries[h]).subject by {
        if g < h {
            assert(subjects[g] != subjects[h]);
        } else {
            assert(subjects[h] != subjects[g]);
        }
    }
    assert forall|i: int| 0 <= i < all.len() implies exists|g: int|
        0 <= g < summaries.len() && (#[trigger] summaries[g]).subject == (#[trigger] all[i]).address.subject by {
        assert(materializes(all[i], in_ctx[i]));
        assert(subjects.contains(in_ctx[i].key.address.subject));
        let g = choose|g: int| 0 <= g < subjects.len() && subjects[g] == in_ctx[i].key.address.subject;
        assert(summaries[g].subject == all[i].address.subject);
    }
    assert forall|g: int| 0 <= g < summaries.len() implies {
        &&& (#[trigger] summaries[g]).context == context
        &&& same_snapshots(summaries[g].resources@, all.filter(snapshot_of_subject(summaries[g].subject)))
    } by {
        let subject = subjects[g];
        let group = in_ctx.filter(has_subject(subject));
        assert(contains_subject(in_ctx, subject));
        let j = choose|j: int| 0 <= j < in_ctx.len() && (#[trigger] in_ctx[j]).key.address.subject == subject;
        lemma_filter_nonempty(in_ctx, j, has_subject::<V, E>(subject));
        lemma_subject_summary_uses_subject_snapshots(entries, subject, context, policy, all, Some(summaries[g]));
    }
}

/// The facet a kind holds after `changes`, given the facet it held before:
/// the last change that names the kind decides it (an upsert of a facet of
/// that kind sets it, a clear of that kind removes it); when no change names
/// the kind, it keeps its facet.
pub open spec fn facet_after_changes<E: ExtensionFacet>(
    previous: Option<PresenceFacet<E>>,
    changes: Seq<FacetChange<E>>,
    kind: PresenceFacetKind<E::Kind>,
) -> Option<PresenceFacet<E>>
    decreases changes.len(),
{
    if changes.len() == 0 {
        previous
    } else {
        match changes.last() {
            FacetChange::Upsert(facet) => if facet.facet_kind() == kind {
                Some(facet)
            } else {
                facet_after_changes(previous, changes.drop_last(), kind)
            },
            FacetChange::Clear(cleared) => if cleared == kind {
                None
            } else {
                facet_after_changes(previous, changes.drop_last(), kind)
            },
        }
    }
}

/// Reduction law for a sequence of changes: with one facet per kind, each
/// kind ends up holding what the last change naming it says, or its old
/// facet when no change names it.
pub proof fn lemma_changes_decide_each_kind<E: ExtensionFacet>(
    facets: Seq<PresenceFacet<E>>,
    changes: Seq<FacetChange<E>>,
)
    requires
        reduction::unique_kinds(facets),
    ensures
        forall|kind: PresenceFacetKind<E::Kind>|
            #[trigger] reduction::facet_of_kind(reduction::apply_changes(facets, changes), kind)
                == facet_after_changes(reduction::facet_of_kind(facets, kind), changes, kind),
    decreases changes.len(),
{
    if changes.len() > 0 {
        lemma_changes_decide_each_kind(facets, changes.drop_last());
        reduction::lemma_apply_changes_unique(facets, changes.drop_last());
        reduction::lemma_apply_change(reduction::apply_changes(facets, changes.drop_last()), changes.last());
    }
}

/// Publish law for facets: after publishing `update`, the entry under its key
/// holds, for every facet kind, what the update's last change naming that
/// kind says, and otherwise the facet that kind held before the publish
/// (nothing for a new key). In particular an update without changes, such as
/// a heartbeat, keeps every facet.
pub proof fn lemma_publish_decides_each_kind<V, E: ExtensionFacet>(
    entries: Seq<EntryView<V, E>>,
    update: StoreUpdate<V, E>,
)
    requires
        entries_well_formed(entries),
    ensures
        entry_for_key(entries_after_publish(entries, update), update_key(update)) matches Some(entry) && {
            &&& entry.visibility == update.visibility
            &&& entry.observed_at == update.observed_at
            &&& entry.expiry == update.expiry
            &&& forall|kind: PresenceFacetKind<E::Kind>|
                #[trigger] reduction::facet_of_kind(entry.facets, kind) == facet_after_changes(
                    match entry_for_key(entries, update_key(update)) {
                        Some(previous) => reduction::facet_of_kind(previous.facets, kind),
                        None => None,
                    },
                    update.changes@,
                    kind,
                )
        },
{
    lemma_publish_then_read(entries, update);
    match entry_for_key(entries, update_key(update)) {
        Some(previous) => {
            let i = slot_of_key(entries, update_key(update))->Some_0;
            assert(entries[i] == previous);
            lemma_changes_decide_each_kind(previous.facets, update.changes@);
        },
        None => {
            lemma_changes_decide_each_kind(Seq::<PresenceFacet<E>>::empty(), update.changes@);
            assert forall|kind: PresenceFacetKind<E::Kind>|
                #[trigger] reduction::facet_of_kind(Seq::<PresenceFacet<E>>::empty(), kind) is None by {}
        },
    }
}

/// Heartbeat law: publishing an update without facet changes under a key
/// keeps that key's facets exactly as they were (none for a new key), and
/// replaces only its visibility, observation time and expiry.
pub proof fn lemma_publish_without_changes_keeps_facets<V, E: ExtensionFacet>(
    entries: Seq<EntryView<V, E>>,
    update: StoreUpdate<V, E>,
)
    requires
        entries_well_formed(entries),
        update.changes@.len() == 0,
    ensures
        entry_for_key(entries_after_publish(entries, update), update_key(update)) matches Some(entry) && {
            &&& entry.key == update_key(update)
            &&& entry.visibility == update.visibility
            &&& entry.observed_at == update.observed_at
            &&& entry.expiry == update.expiry
            &&& entry.facets == match entry_for_key(entries, update_key(update)) {
                Some(previous) => previous.facets,
                None => Seq::empty(),
            }
        },
{
    lemma_publish_then_read(entries, update);
    let previous = match entry_for_key(entries, update_key(update)) {
        Some(previous) => previous.facets,
        None => Seq::<PresenceFacet<E>>::empty(),
    };
    assert(reduction::apply_changes(previous, update.changes@) == previous);
}

/// Snapshots that materialize the entries `keep` admits: each snapshot
/// materializes an admitted entry, and each admitted entry is materialized by
/// some snapshot.
proof fn lemma_filtered_reads<V, E: ExtensionFacet>(
    snapshots: Seq<StoreSnapshot<V, E>>,
    entries: Seq<EntryView<V, E>>,
    keep: spec_fn(EntryView<V, E>) -> bool,
)
    requires
        materializes_all(snapshots, entries.filter(keep)),
    ensures
        forall|i: int|
            0 <= i < snapshots.len() ==> keep(entries.filter(keep)[i]) && materializes(
                #[trigger] snapshots[i],
                entries.filter(keep)[i],
            ),
        forall|j: int|
            0 <= j < entries.len() && keep(#[trigger] entries[j]) ==> exists|i: int|
                0 <= i < snapshots.len() && materializes(#[trigger] snapshots[i], entries[j]),
{
    assert forall|i: int| 0 <= i < snapshots.len() implies keep(entries.filter(keep)[i]) && materializes(
        #[trigger] snapshots[i],
        entries.filter(keep)[i],
    ) by {
        entries.lemma_filter_pred(keep, i);
    }
    assert forall|j: int| 0 <= j < entries.len() && keep(#[trigger] entries[j]) implies exists|i: int|
        0 <= i < snapshots.len() && materializes(#[trigger] snapshots[i], entries[j]) by {
        entries.lemma_filter_contains(keep, j);
        let i = choose|i: int| 0 <= i < entries.filter(keep).len() && entries.filter(keep)[i] == entries[j];
        assert(materializes(snapshots[i], entries.filter(keep)[i]));
    }
}

/// Address read law: the snapshots read for `address` that `policy` admits
/// carry exactly that address (resource included) and an admitted label,
/// and every entry stored at that address with an admitted label is read.
/// `snapshots` is what `snapshots_for_address_visible` returns; for
/// `snapshots_for_address` use [`lemma_address_reads_everything`].
pub proof fn lemma_address_reads<V, E: ExtensionFacet, P: VisibilityPolicy<V>>(
    entries: Seq<EntryView<V, E>>,
    address: StoreAddress,
    policy: P,
    snapshots: Seq<StoreSnapshot<V, E>>,
)
    requires
        materializes_all(snapshots, entries.filter(visible_at_address(address, policy))),
    ensures
        forall|i: int|
            0 <= i < snapshots.len() ==> (#[trigger] snapshots[i]).address == address && policy.permits(
                snapshots[i].visibility,
            ),
        forall|j: int|
            0 <= j < entries.len() && (#[trigger] entries[j]).key.address == address && policy.permits(
                entries[j].visibility,
            ) ==> exists|i: int| 0 <= i < snapshots.len() && materializes(#[trigger] snapshots[i], entries[j]),
{
    lemma_filtered_reads(snapshots, entries, visible_at_address::<V, E, P>(address, policy));
    assert forall|j: int|
        0 <= j < entries.len() && (#[trigger] entries[j]).key.address == address && policy.permits(
            entries[j].visibility,
        ) implies exists|i: int| 0 <= i < snapshots.len() && materializes(#[trigger] snapshots[i], entries[j]) by {
        assert((visible_at_address::<V, E, P>(address, policy))(entries[j]));
    }
}

/// Address read law without a policy: the snapshots read for `address`
/// carry exactly that address (resource included), and every entry stored
/// at that address is read. `snapshots` is what `snapshots_for_address`
/// returns.
pub proof fn lemma_address_reads_everything<V, E: ExtensionFacet>(
    entries: Seq<EntryView<V, E>>,
    address: StoreAddress,
    snapshots: Seq<StoreSnapshot<V, E>>,
)
    requires
        materializes_all(snapshots, entries.filter(at_address(address))),
    ensures
        forall|i: int| 0 <= i < snapshots.len() ==> (#[trigger] snapshots[i]).address == address,
        forall|j: int|
            0 <= j < entries.len() && (#[trigger] entries[j]).key.address == address ==> exists|i: int|
                0 <= i < snapshots.len() && materializes(#[trigger] snapshots[i], entries[j]),
{
    lemma_filtered_reads(snapshots, entries, at_address::<V, E>(address));
    assert forall|j: int| 0 <= j < entries.len() && (#[trigger] entries[j]).key.address == address implies exists|i: int|
        0 <= i < snapshots.len() && materializes(#[trigger] snapshots[i], entries[j]) by {
        assert((at_address::<V, E>(address))(entries[j]));
    }
}

/// Context read law: the snapshots read for `context` that `policy` admits
/// are all in that context with an admitted label, and every entry of the
/// context with an admitted label is read. `snapshots` is what
/// `snapshots_in_context_visible` returns.
pub proof fn lemma_context_reads<V, E: ExtensionFacet, P: VisibilityPolicy<V>>(
    entries: Seq<EntryView<V, E>>,
    context: u64,
    policy: P,
    snapshots: Seq<StoreSnapshot<V, E>>,
)
    requires
        materializes_all(snapshots, entries.filter(visible_in_context(context, policy))),
    ensures
        forall|i: int|
            0 <= i < snapshots.len() ==> (#[trigger] snapshots[i]).address.context == context && policy.permits(
                snapshots[i].visibility,
            ),
        forall|j: int|
            0 <= j < entries.len() && (#[trigger] entries[j]).key.address.context == context && policy.permits(
                entries[j].visibility,
            ) ==> exists|i: int| 0 <= i < snapshots.len() && materializes(#[trigger] snapshots[i], entries[j]),
{
    lemma_filtered_reads(snapshots, entries, visible_in_context::<V, E, P>(context, policy));
    assert forall|j: int|
        0 <= j < entries.len() && (#[trigger] entries[j]).key.address.context == context && policy.permits(
            entries[j].visibility,
        ) implies exists|i: int| 0 <= i < snapshots.len() && materializes(#[trigger] snapshots[i], entries[j]) by {
        assert((visible_in_context::<V, E, P>(context, policy))(entries[j]));
    }
}

/// Context read law without a policy: the snapshots read for `context` are
/// all in that context, and every entry of the context is read. `snapshots`
/// is what `snapshots_in_context` returns.
pub proof fn lemma_context_reads_everything<V, E: ExtensionFacet>(
    entries: Seq<EntryView<V, E>>,
    context: u64,
    snapshots: Seq<StoreSnapshot<V, E>>,
)
    requires
        materializes_all(snapshots, entries.filter(in_context(context))),
    ensures
        forall|i: int| 0 <= i < snapshots.len() ==> (#[trigger] snapshots[i]).address.context == context,
        forall|j: int|
            0 <= j < entries.len() && (#[trigger] entries[j]).key.address.context == context ==> exists|i: int|
                0 <= i < snapshots.len() && materializes(#[trigger] snapshots[i], entries[j]),
{
    lemma_filtered_reads(snapshots, entries, in_context::<V, E>(context));
    assert forall|j: int| 0 <= j < entries.len() && (#[trigger] entries[j]).key.address.context == context implies exists|i: int|
        0 <= i < snapshots.len() && materializes(#[trigger] snapshots[i], entries[j]) by {
        assert((in_context::<V, E>(context))(entries[j]));
    }
}

/// Key read law: reading one key gives a snapshot exactly when an entry is
/// stored under that key, and the snapshot carries that key's address and
/// origin. `snapshot` is what `snapshot` returns.
pub proof fn lemma_key_read<V, E: ExtensionFacet>(
    entries: Seq<EntryView<V, E>>,
    key: EntryKey,
    snapshot: Option<StoreSnapshot<V, E>>,
)
    requires
        match entry_for_key(entries, key) {
            Some(entry) => snapshot matches Some(s) && materializes(s, entry),
            None => snapshot is None,
        },
    ensures
        snapshot is Some <==> exists|j: int| 0 <= j < entries.len() && (#[trigger] entries[j]).key == key,
        snapshot matches Some(s) ==> s.address == key.address && s.origin == key.origin,
{
}

/// Change read law: the retained changes read beyond `since` that `policy`
/// admits are each numbered past `since` and carry an admitted label, they
/// come in log order, and every retained change numbered past `since` with
/// an admitted label is read. `found` is what `changes_since_visible` returns
/// when it succeeds; with `AllowAll` it is what `changes_since` returns.
pub proof fn lemma_change_reads<V, E: ExtensionFacet, P: VisibilityPolicy<V>>(
    log: Seq<StoreChange<V, E>>,
    since: u64,
    policy: P,
    found: Seq<StoreChange<V, E>>,
)
    requires
        same_changes(found, log.filter(visible_after(since, policy))),
    ensures
        forall|i: int|
            0 <= i < found.len() ==> (#[trigger] found[i]).sequence > since && policy.permits(
                found[i].change_visibility(),
            ),
        forall|j: int|
            0 <= j < log.len() && (#[trigger] log[j]).sequence > since && policy.permits(log[j].change_visibility())
                ==> exists|i: int| 0 <= i < found.len() && (#[trigger] found[i]).same_change(&log[j]),
{
    let keep = visible_after::<V, E, P>(since, policy);
    assert forall|i: int| 0 <= i < found.len() implies (#[trigger] found[i]).sequence > since && policy.permits(
        found[i].change_visibility(),
    ) by {
        log.lemma_filter_pred(keep, i);
        assert(found[i].same_change(&log.filter(keep)[i]));
    }
    assert forall|j: int|
        0 <= j < log.len() && (#[trigger] log[j]).sequence > since && policy.permits(log[j].change_visibility())
            implies exists|i: int| 0 <= i < found.len() && (#[trigger] found[i]).same_change(&log[j]) by {
        assert(keep(log[j]));
        log.lemma_filter_contains(keep, j);
        let i = choose|i: int| 0 <= i < log.filter(keep).len() && log.filter(keep)[i] == log[j];
        assert(found[i].same_change(&log.filter(keep)[i]));
    }
}

} // verus!
