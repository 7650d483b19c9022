//! Subject-level projection over resource snapshots.
//!
//! A subject summary groups the snapshots of one subject in one context. Its
//! headline is taken from a dominant snapshot, chosen by activity first, then
//! availability, then recency; per field it falls back to the best snapshot
//! for that field. The underlying snapshots are kept for drill-down.

use core::cmp::Ordering;
use vstd::prelude::*;

use crate::presence::{
    facets_activity, facets_availability, facets_last_seen, Activity, Availability, ExtensionFacet,
    PresenceFacet, Timestamp,
};
use crate::store::model::{materializes, materializes_all, EntryView};
use crate::store::StoreSnapshot;

verus! {

/// Policy used to project raw resource snapshots into a subject-level summary.
pub trait SubjectProjectionPolicy {
    /// The dominance rank of an activity value.
    spec fn activity_score(&self, value: Option<Activity>) -> u8;

    /// The dominance rank of an availability value.
    spec fn availability_score(&self, value: Option<Availability>) -> u8;

    /// Returns a relative dominance rank for an activity value.
    fn activity_rank(&self, value: Option<Activity>) -> (rank: u8)
        ensures
            rank == self.activity_score(value),
    ;

    /// Returns a relative dominance rank for an availability value.
    fn availability_rank(&self, value: Option<Availability>) -> (rank: u8)
        ensures
            rank == self.availability_score(value),
    ;
}

/// Default subject-level projection policy for common presence UIs.
///
/// The default policy prefers active work over passive observation, and prefers
/// more specific availability over weaker signals.
#[derive(Clone, Copy, Debug, Default)]
pub struct DefaultSubjectProjectionPolicy;

impl SubjectProjectionPolicy for DefaultSubjectProjectionPolicy {
    open spec fn activity_score(&self, value: Option<Activity>) -> u8 {
        match value {
            Some(Activity::Editing) => 7,
            Some(Activity::Presenting) => 6,
            Some(Activity::Acting) => 5,
            Some(Activity::Navigating) => 4,
            Some(Activity::Observing) => 3,
            Some(Activity::Idle) => 2,
            Some(Activity::Custom(..)) => 1,
            None => 0,
        }
    }

    open spec fn availability_score(&self, value: Option<Availability>) -> u8 {
        match value {
            Some(Availability::Busy) => 5,
            Some(Availability::Available) => 4,
            Some(Availability::Away) => 3,
            Some(Availability::Unknown) => 2,
            Some(Availability::Offline) => 1,
            None => 0,
        }
    }

    fn activity_rank(&self, value: Option<Activity>) -> (rank: u8) {
        match value {
            Some(Activity::Editing) => 7,
            Some(Activity::Presenting) => 6,
            Some(Activity::Acting) => 5,
            Some(Activity::Navigating) => 4,
            Some(Activity::Observing) => 3,
            Some(Activity::Idle) => 2,
            Some(Activity::Custom(..)) => 1,
            None => 0,
        }
    }

    fn availability_rank(&self, value: Option<Availability>) -> (rank: u8) {
        match value {
            Some(Availability::Busy) => 5,
            Some(Availability::Available) => 4,
            Some(Availability::Away) => 3,
            Some(Availability::Unknown) => 2,
            Some(Availability::Offline) => 1,
            None => 0,
        }
    }
}

/// A ranking key, compared lexicographically.
pub type RankKey = (int, int, int, int);

/// Lexicographic order on ranking keys.
pub open spec fn key_le(a: RankKey, b: RankKey) -> bool {
    a.0 < b.0 || (a.0 == b.0 && (a.1 < b.1 || (a.1 == b.1 && (a.2 < b.2 || (a.2 == b.2 && a.3 <= b.3)))))
}

/// A last-seen value as a rank: absent ranks below every timestamp.
pub open spec fn last_seen_rank(value: Option<Timestamp>) -> int {
    match value {
        Some(t) => t.value() + 1,
        None => 0,
    }
}

/// The activity key of a snapshot: activity rank, then observation time.
pub open spec fn activity_key<P: SubjectProjectionPolicy, E>(
    policy: P,
    facets: Seq<PresenceFacet<E>>,
    observed_at: Timestamp,
) -> RankKey {
    (policy.activity_score(facets_activity(facets)) as int, observed_at.value() as int, 0, 0)
}

/// The availability key of a snapshot: availability rank, then observation
/// time.
pub open spec fn availability_key<P: SubjectProjectionPolicy, E>(
    policy: P,
    facets: Seq<PresenceFacet<E>>,
    observed_at: Timestamp,
) -> RankKey {
    (policy.availability_score(facets_availability(facets)) as int, observed_at.value() as int, 0, 0)
}

/// The dominance key of a snapshot: activity rank, availability rank,
/// observation time, then last-seen time.
pub open spec fn dominance_key<P: SubjectProjectionPolicy, E>(
    policy: P,
    facets: Seq<PresenceFacet<E>>,
    observed_at: Timestamp,
) -> RankKey {
    (
        policy.activity_score(facets_activity(facets)) as int,
        policy.availability_score(facets_availability(facets)) as int,
        observed_at.value() as int,
        last_seen_rank(facets_last_seen(facets)),
    )
}

/// The three orders a projection ranks snapshots by.
#[derive(Clone, Copy, Debug, PartialEq, Eq, Structural)]
pub enum RankOrder {
    /// By activity, then recency.
    Activity,
    /// By availability, then recency.
    Availability,
    /// By activity, availability, recency, then last-seen time.
    Dominance,
}

/// The key of a snapshot's facets and observation time under `order`.
pub open spec fn order_key<P: SubjectProjectionPolicy, E>(
    policy: P,
    order: RankOrder,
    facets: Seq<PresenceFacet<E>>,
    observed_at: Timestamp,
) -> RankKey {
    match order {
        RankOrder::Activity => activity_key(policy, facets, observed_at),
        RankOrder::Availability => availability_key(policy, facets, observed_at),
        RankOrder::Dominance => dominance_key(policy, facets, observed_at),
    }
}

/// The key of an entry under `order`.
pub open spec fn rank_key<P: SubjectProjectionPolicy, V, E: ExtensionFacet>(
    policy: P,
    order: RankOrder,
    entry: EntryView<V, E>,
) -> RankKey {
    order_key(policy, order, entry.facets, entry.observed_at)
}

/// The position `Iterator::max_by` picks in a non-empty group: scanning in
/// order, a later entry replaces the current best unless the best ranks
/// strictly higher, so the last of the highest-ranked entries wins.
pub open spec fn best_position<P: SubjectProjectionPolicy, V, E: ExtensionFacet>(
    policy: P,
    order: RankOrder,
    group: Seq<EntryView<V, E>>,
) -> int
    decreases group.len(),
{
    if group.len() <= 1 {
        0
    } else {
        let best = best_position(policy, order, group.drop_last());
        if key_le(rank_key(policy, order, group[best]), rank_key(policy, order, group.last())) {
            group.len() - 1
        } else {
            best
        }
    }
}

/// The latest observation time in a group.
pub open spec fn latest_observed<V, E: ExtensionFacet>(group: Seq<EntryView<V, E>>) -> u64
    decreases group.len(),
{
    if group.len() == 0 {
        0
    } else {
        let before = latest_observed(group.drop_last());
        let current = group.last().observed_at.value();
        if group.len() == 1 || before <= current {
            current
        } else {
            before
        }
    }
}

/// The latest explicit last-seen time in a group, if any snapshot has one.
pub open spec fn latest_last_seen<V, E: ExtensionFacet>(group: Seq<EntryView<V, E>>) -> Option<Timestamp>
    decreases group.len(),
{
    if group.len() == 0 {
        None
    } else {
        let before = latest_last_seen(group.drop_last());
        match (before, facets_last_seen(group.last().facets)) {
            (None, current) => current,
            (Some(earlier), None) => Some(earlier),
            (Some(earlier), Some(current)) => if earlier.value() <= current.value() {
                Some(current)
            } else {
                Some(earlier)
            },
        }
    }
}

/// Rank keys are totally preordered: any two compare one way or the other,
/// and the order is transitive.
pub proof fn lemma_key_le_total_preorder()
    ensures
        forall|a: RankKey, b: RankKey| #[trigger] key_le(a, b) || #[trigger] key_le(b, a),
        forall|a: RankKey, b: RankKey, c: RankKey|
            #[trigger] key_le(a, b) && #[trigger] key_le(b, c) ==> key_le(a, c),
{
}

/// Dominance law: the entry a projection picks under `order` ranks at least
/// as high as every entry of the group, and strictly higher than every entry
/// after it, so it is the last of the highest-ranked entries.
pub proof fn lemma_best_position_is_last_maximum<P: SubjectProjectionPolicy, V, E: ExtensionFacet>(
    policy: P,
    order: RankOrder,
    group: Seq<EntryView<V, E>>,
)
    requires
        group.len() > 0,
    ensures
        0 <= best_position(policy, order, group) < group.len(),
        forall|j: int|
            0 <= j < group.len() ==> key_le(
                rank_key(policy, order, #[trigger] group[j]),
                rank_key(policy, order, group[best_position(policy, order, group)]),
            ),
        forall|j: int|
            best_position(policy, order, group) < j < group.len() ==> !key_le(
                rank_key(policy, order, group[best_position(policy, order, group)]),
                rank_key(policy, order, #[trigger] group[j]),
            ),
    decreases group.len(),
{
    lemma_key_le_total_preorder();
    if group.len() > 1 {
        let rest = group.drop_last();
        lemma_best_position_is_last_maximum(policy, order, rest);
        let b = best_position(policy, order, rest);
        assert(rest[b] == group[b]);
        assert forall|j: int| 0 <= j < rest.len() implies #[trigger] group[j] == rest[j] by {}
    }
}

/// The latest observation time of a non-empty group is the observation
/// time of one of its entries and no entry is observed later.
pub proof fn lemma_latest_observed_is_maximum<V, E: ExtensionFacet>(group: Seq<EntryView<V, E>>)
    requires
        group.len() > 0,
    ensures
        forall|j: int| 0 <= j < group.len() ==> (#[trigger] group[j]).observed_at.value() <= latest_observed(group),
        exists|j: int| 0 <= j < group.len() && (#[trigger] group[j]).observed_at.value() == latest_observed(group),
    decreases group.len(),
{
    if group.len() > 1 {
        let rest = group.drop_last();
        lemma_latest_observed_is_maximum(rest);
        assert forall|j: int| 0 <= j < rest.len() implies #[trigger] group[j] == rest[j] by {}
        if latest_observed(group) != group.last().observed_at.value() {
            let j = choose|j: int| 0 <= j < rest.len() && (#[trigger] rest[j]).observed_at.value() == latest_observed(rest);
            assert(group[j] == rest[j]);
        } else {
            assert(group[group.len() - 1] == group.last());
        }
    } else {
        assert(group[0] == group.last());
    }
}

/// The latest last-seen time of a group is absent exactly when no entry has
/// one; otherwise it is one of the entries' last-seen times and none is
/// later.
pub proof fn lemma_latest_last_seen_is_maximum<V, E: ExtensionFacet>(group: Seq<EntryView<V, E>>)
    ensures
        latest_last_seen(group) is None <==> forall|j: int|
            0 <= j < group.len() ==> facets_last_seen((#[trigger] group[j]).facets) is None,
        forall|j: int|
            0 <= j < group.len() ==> last_seen_rank(facets_last_seen((#[trigger] group[j]).facets))
                <= last_seen_rank(latest_last_seen(group)),
        latest_last_seen(group) is Some ==> exists|j: int|
            0 <= j < group.len() && facets_last_seen((#[trigger] group[j]).facets) == latest_last_seen(group),
    decreases group.len(),
{
    if group.len() > 0 {
        let rest = group.drop_last();
        lemma_latest_last_seen_is_maximum(rest);
        assert forall|j: int| 0 <= j < rest.len() implies #[trigger] group[j] == rest[j] by {}
        assert(group[group.len() - 1] == group.last());
        if latest_last_seen(group) is Some && latest_last_seen(group) != facets_last_seen(group.last().facets) {
            let j = choose|j: int|
                0 <= j < rest.len() && facets_last_seen((#[trigger] rest[j]).facets) == latest_last_seen(rest);
            assert(group[j] == rest[j]);
        }
    }
}

/// A projected subject-level view for one context.
///
/// This keeps the calm headline fields most callers want while preserving the
/// underlying resource snapshots for detailed inspection or UI drill-down.
#[derive(Clone, Debug, Eq, PartialEq)]
pub struct SubjectPresenceSummary<V, E: ExtensionFacet> {
    /// The subject represented by the summary.
    pub subject: u64,
    /// The context where the summary is meaningful.
    pub context: u64,
    /// The resource that dominates the summary headline under the chosen policy.
    pub dominant_resource: Option<u64>,
    /// The origin that dominates the summary headline under the chosen policy.
    pub dominant_origin: u64,
    /// The most recent observation time across all contributing resources.
    pub observed_at: Timestamp,
    /// The projected availability.
    pub availability: Option<Availability>,
    /// The projected activity.
    pub activity: Option<Activity>,
    /// The most recent explicit last-seen timestamp across all contributing
    /// resources.
    pub last_seen: Option<Timestamp>,
    /// The underlying resource snapshots that contributed to the summary.
    pub resources: Vec<StoreSnapshot<V, E>>,
}

/// Whether `summary` projects the non-empty `group` under `policy`: subject
/// and context of the first entry; resource and origin of the dominant
/// entry; the latest observation and last-seen times; availability and
/// activity of the dominant entry, each falling back to the entry that ranks
/// best for that field; and every entry, in order, as a resource snapshot.
pub open spec fn summarizes<V, E: ExtensionFacet, P: SubjectProjectionPolicy>(
    summary: SubjectPresenceSummary<V, E>,
    policy: P,
    group: Seq<EntryView<V, E>>,
) -> bool {
    let dominant = group[best_position(policy, RankOrder::Dominance, group)];
    let by_availability = group[best_position(policy, RankOrder::Availability, group)];
    let by_activity = group[best_position(policy, RankOrder::Activity, group)];
    &&& summary.subject == group[0].key.address.subject
    &&& summary.context == group[0].key.address.context
    &&& summary.dominant_resource == dominant.key.address.resource
    &&& summary.dominant_origin == dominant.key.origin
    &&& summary.observed_at.value() == latest_observed(group)
    &&& summary.availability == match facets_availability(dominant.facets) {
        Some(value) => Some(value),
        None => facets_availability(by_availability.facets),
    }
    &&& summary.activity == match facets_activity(dominant.facets) {
        Some(value) => Some(value),
        None => facets_activity(by_activity.facets),
    }
    &&& summary.last_seen == latest_last_seen(group)
    &&& materializes_all(summary.resources@, group)
}

/// The resource snapshots collected for one subject in one context.
pub(crate) struct SubjectProjectionAccumulator<V, E: ExtensionFacet> {
    pub(crate) subject: u64,
    pub(crate) context: u64,
    pub(crate) resources: Vec<StoreSnapshot<V, E>>,
}

impl<V, E: ExtensionFacet> SubjectProjectionAccumulator<V, E> {
    /// Starts an accumulator with its first snapshot.
    pub(crate) fn new(snapshot: StoreSnapshot<V, E>) -> (accumulator: Self)
        ensures
            accumulator.subject == snapshot.address.subject,
            accumulator.context == snapshot.address.context,
            accumulator.resources@ == seq![snapshot],
    {
        let subject = snapshot.address.subject;
        let context = snapshot.address.context;
        let mut resources = Vec::new();
        resources.push(snapshot);
        SubjectProjectionAccumulator { subject, context, resources }
    }

    /// Adds a snapshot to the accumulator.
    pub(crate) fn push(&mut self, snapshot: StoreSnapshot<V, E>)
        ensures
            final(self).subject == old(self).subject,
            final(self).context == old(self).context,
            final(self).resources@ == old(self).resources@.push(snapshot),
    {
        self.resources.push(snapshot);
    }
}

/// The ordering of two rank keys.
pub open spec fn key_ordering(a: RankKey, b: RankKey) -> Ordering {
    if key_le(a, b) && key_le(b, a) {
        Ordering::Equal
    } else if key_le(a, b) {
        Ordering::Less
    } else {
        Ordering::Greater
    }
}

fn compare_u8(left: u8, right: u8) -> (ordering: Ordering)
    ensures
        ordering == (if left < right {
            Ordering::Less
        } else if left == right {
            Ordering::Equal
        } else {
            Ordering::Greater
        }),
{
    if left < right {
        Ordering::Less
    } else if left == right {
        Ordering::Equal
    } else {
        Ordering::Greater
    }
}

fn compare_u64(left: u64, right: u64) -> (ordering: Ordering)
    ensures
        ordering == (if left < right {
            Ordering::Less
        } else if left == right {
            Ordering::Equal
        } else {
            Ordering::Greater
        }),
{
    if left < right {
        Ordering::Less
    } else if left == right {
        Ordering::Equal
    } else {
        Ordering::Greater
    }
}

fn then_with(first: Ordering, second: Ordering) -> (ordering: Ordering)
    ensures
        ordering == (match first {
            Ordering::Equal => second,
            _ => first,
        }),
{
    match first {
        Ordering::Equal => second,
        _ => first,
    }
}

fn compare_last_seen(left: Option<Timestamp>, right: Option<Timestamp>) -> (ordering: Ordering)
    ensures
        ordering == (if last_seen_rank(left) < last_seen_rank(right) {
            Ordering::Less
        } else if last_seen_rank(left) == last_seen_rank(right) {
            Ordering::Equal
        } else {
            Ordering::Greater
        }),
{
    match (left, right) {
        (None, None) => Ordering::Equal,
        (None, Some(_)) => Ordering::Less,
        (Some(_), None) => Ordering::Greater,
        (Some(a), Some(b)) => compare_u64(a.get(), b.get()),
    }
}

/// Compares two snapshots by activity rank, then by observation time.
fn compare_activity<V, E: ExtensionFacet, P: SubjectProjectionPolicy>(
    policy: &P,
    left: &StoreSnapshot<V, E>,
    right: &StoreSnapshot<V, E>,
) -> (ordering: Ordering)
    ensures
        ordering == key_ordering(
            activity_key(*policy, left.facets@, left.observed_at),
            activity_key(*policy, right.facets@, right.observed_at),
        ),
{
    then_with(
        compare_u8(policy.activity_rank(left.activity()), policy.activity_rank(right.activity())),
        compare_u64(left.observed_at.get(), right.observed_at.get()),
    )
}

/// Compares two snapshots by availability rank, then by observation time.
fn compare_availability<V, E: ExtensionFacet, P: SubjectProjectionPolicy>(
    policy: &P,
    left: &StoreSnapshot<V, E>,
    right: &StoreSnapshot<V, E>,
) -> (ordering: Ordering)
    ensures
        ordering == key_ordering(
            availability_key(*policy, left.facets@, left.observed_at),
            availability_key(*policy, right.facets@, right.observed_at),
        ),
{
    then_with(
        compare_u8(
            policy.availability_rank(left.availability()),
            policy.availability_rank(right.availability()),
        ),
        compare_u64(left.observed_at.get(), right.observed_at.get()),
    )
}

/// Compares two snapshots by activity, then availability, then observation
/// time, then last-seen time.
fn compare_snapshot_dominance<V, E: ExtensionFacet, P: SubjectProjectionPolicy>(
    policy: &P,
    left: &StoreSnapshot<V, E>,
    right: &StoreSnapshot<V, E>,
) -> (ordering: Ordering)
    ensures
        ordering == key_ordering(
            dominance_key(*policy, left.facets@, left.observed_at),
            dominance_key(*policy, right.facets@, right.observed_at),
        ),
{
    let by_activity = compare_u8(policy.activity_rank(left.activity()), policy.activity_rank(right.activity()));
    let by_availability = compare_u8(
        policy.availability_rank(left.availability()),
        policy.availability_rank(right.availability()),
    );
    let by_observed = compare_u64(left.observed_at.get(), right.observed_at.get());
    let by_last_seen = compare_last_seen(left.last_seen(), right.last_seen());
    then_with(then_with(then_with(by_activity, by_availability), by_observed), by_last_seen)
}

/// Default ranking law: the default policy ranks activities strictly in the
/// order Editing, Presenting, Acting, Navigating, Observing, Idle, any custom
/// activity, then no activity; and availabilities strictly in the order Busy,
/// Available, Away, Unknown, Offline, then no availability.
pub proof fn lemma_default_ranks_order(code: u16)
    ensures
        DefaultSubjectProjectionPolicy.activity_score(Some(Activity::Editing))
            > DefaultSubjectProjectionPolicy.activity_score(Some(Activity::Presenting))
            > DefaultSubjectProjectionPolicy.activity_score(Some(Activity::Acting))
            > DefaultSubjectProjectionPolicy.activity_score(Some(Activity::Navigating))
            > DefaultSubjectProjectionPolicy.activity_score(Some(Activity::Observing))
            > DefaultSubjectProjectionPolicy.activity_score(Some(Activity::Idle))
            > DefaultSubjectProjectionPolicy.activity_score(Some(Activity::Custom(code)))
            > DefaultSubjectProjectionPolicy.activity_score(None),
        DefaultSubjectProjectionPolicy.availability_score(Some(Availability::Busy))
            > DefaultSubjectProjectionPolicy.availability_score(Some(Availability::Available))
            > DefaultSubjectProjectionPolicy.availability_score(Some(Availability::Away))
            > DefaultSubjectProjectionPolicy.availability_score(Some(Availability::Unknown))
            > DefaultSubjectProjectionPolicy.availability_score(Some(Availability::Offline))
            > DefaultSubjectProjectionPolicy.availability_score(None),
{
}

/// The activity rank of an entry under `policy`.
pub open spec fn activity_rank_of<P: SubjectProjectionPolicy, V, E: ExtensionFacet>(
    policy: P,
    entry: EntryView<V, E>,
) -> int {
    policy.activity_score(facets_activity(entry.facets)) as int
}

/// The availability rank of an entry under `policy`.
pub open spec fn availability_rank_of<P: SubjectProjectionPolicy, V, E: ExtensionFacet>(
    policy: P,
    entry: EntryView<V, E>,
) -> int {
    policy.availability_score(facets_availability(entry.facets)) as int
}

/// Whether `top` dominates `group` under `policy`: no entry has a higher
/// activity rank; among those with its activity rank, none has a higher
/// availability rank; and among those with both its ranks, none was observed
/// later.
pub open spec fn dominates<P: SubjectProjectionPolicy, V, E: ExtensionFacet>(
    policy: P,
    top: EntryView<V, E>,
    group: Seq<EntryView<V, E>>,
) -> bool {
    forall|j: int|
        0 <= j < group.len() ==> {
            &&& activity_rank_of(policy, #[trigger] group[j]) <= activity_rank_of(policy, top)
            &&& activity_rank_of(policy, group[j]) == activity_rank_of(policy, top) ==> availability_rank_of(
                policy,
                group[j],
            ) <= availability_rank_of(policy, top)
            &&& activity_rank_of(policy, group[j]) == activity_rank_of(policy, top) && availability_rank_of(
                policy,
                group[j],
            ) == availability_rank_of(policy, top) ==> group[j].observed_at.value() <= top.observed_at.value()
        }
}

/// Projection law: a summary's dominant resource and origin are those of an
/// entry that dominates the group (activity first, then availability, then
/// recency). The summary takes that entry's availability and activity when
/// it has them; otherwise it takes one from the group that no entry
/// outranks. Its activity is always ranked highest in the group.
pub proof fn lemma_summary_follows_dominance<P: SubjectProjectionPolicy, V, E: ExtensionFacet>(
    summary: SubjectPresenceSummary<V, E>,
    policy: P,
    group: Seq<EntryView<V, E>>,
)
    requires
        group.len() > 0,
        summarizes(summary, policy, group),
    ensures
        exists|d: int|
            0 <= d < group.len() && {
                let top = #[trigger] group[d];
                &&& summary.dominant_resource == top.key.address.resource
                &&& summary.dominant_origin == top.key.origin
                &&& dominates(policy, top, group)
                &&& facets_availability(top.facets) is Some ==> summary.availability == facets_availability(
                    top.facets,
                )
                &&& facets_availability(top.facets) is None ==> forall|j: int|
                    0 <= j < group.len() ==> availability_rank_of(policy, #[trigger] group[j])
                        <= policy.availability_score(summary.availability)
                &&& facets_activity(top.facets) is Some ==> summary.activity == facets_activity(top.facets)
            },
        forall|j: int|
            0 <= j < group.len() ==> activity_rank_of(policy, #[trigger] group[j]) <= policy.activity_score(
                summary.activity,
            ),
        exists|k: int| 0 <= k < group.len() && facets_activity((#[trigger] group[k]).facets) == summary.activity,
        exists|k: int| 0 <= k < group.len() && facets_availability((#[trigger] group[k]).facets) == summary.availability,
{
    let d = best_position(policy, RankOrder::Dominance, group);
    let a = best_position(policy, RankOrder::Availability, group);
    let c = best_position(policy, RankOrder::Activity, group);
    lemma_best_position_is_last_maximum(policy, RankOrder::Dominance, group);
    lemma_best_position_is_last_maximum(policy, RankOrder::Availability, group);
    lemma_best_position_is_last_maximum(policy, RankOrder::Activity, group);
    let top = group[d];
    assert forall|j: int| 0 <= j < group.len() implies {
        &&& activity_rank_of(policy, #[trigger] group[j]) <= activity_rank_of(policy, top)
        &&& activity_rank_of(policy, group[j]) == activity_rank_of(policy, top) ==> availability_rank_of(
            policy,
            group[j],
        ) <= availability_rank_of(policy, top)
        &&& activity_rank_of(policy, group[j]) == activity_rank_of(policy, top) && availability_rank_of(
            policy,
            group[j],
        ) == availability_rank_of(policy, top) ==> group[j].observed_at.value() <= top.observed_at.value()
    } by {
        assert(key_le(rank_key(policy, RankOrder::Dominance, group[j]), rank_key(policy, RankOrder::Dominance, group[d])));
    }
    assert(dominates(policy, top, group));
    assert forall|j: int| 0 <= j < group.len() implies activity_rank_of(policy, #[trigger] group[j])
        <= policy.activity_score(summary.activity) by {
        assert(key_le(rank_key(policy, RankOrder::Dominance, group[j]), rank_key(policy, RankOrder::Dominance, group[d])));
        assert(key_le(rank_key(policy, RankOrder::Activity, group[j]), rank_key(policy, RankOrder::Activity, group[c])));
    }
    if facets_availability(top.facets) is None {
        assert forall|j: int| 0 <= j < group.len() implies availability_rank_of(policy, #[trigger] group[j])
            <= policy.availability_score(summary.availability) by {
            assert(key_le(
                rank_key(policy, RankOrder::Availability, group[j]),
                rank_key(policy, RankOrder::Availability, group[a]),
            ));
        }
        assert(facets_availability(group[a].facets) == summary.availability);
    } else {
        assert(facets_availability(group[d].facets) == summary.availability);
    }
    if facets_activity(top.facets) is None {
        assert(facets_activity(group[c].facets) == summary.activity);
    } else {
        assert(facets_activity(group[d].facets) == summary.activity);
    }
}

/// Under the default policy a summary has an availability whenever some
/// entry of the group has one, and an activity whenever some entry has one.
pub proof fn lemma_default_summary_keeps_known_values<V, E: ExtensionFacet>(
    summary: SubjectPresenceSummary<V, E>,
    group: Seq<EntryView<V, E>>,
)
    requires
        group.len() > 0,
        summarizes(summary, DefaultSubjectProjectionPolicy, group),
    ensures
        (exists|j: int| 0 <= j < group.len() && facets_availability((#[trigger] group[j]).facets) is Some)
            ==> summary.availability is Some,
        (exists|j: int| 0 <= j < group.len() && facets_activity((#[trigger] group[j]).facets) is Some)
            ==> summary.activity is Some,
{
    lemma_summary_follows_dominance(summary, DefaultSubjectProjectionPolicy, group);
    let d = choose|d: int|
        0 <= d < group.len() && {
            let top = #[trigger] group[d];
            &&& summary.dominant_resource == top.key.address.resource
            &&& summary.dominant_origin == top.key.origin
            &&& dominates(DefaultSubjectProjectionPolicy, top, group)
            &&& facets_availability(top.facets) is Some ==> summary.availability == facets_availability(
                top.facets,
            )
            &&& facets_availability(top.facets) is None ==> forall|j: int|
                0 <= j < group.len() ==> availability_rank_of(DefaultSubjectProjectionPolicy, #[trigger] group[j])
                    <= DefaultSubjectProjectionPolicy.availability_score(summary.availability)
            &&& facets_activity(top.facets) is Some ==> summary.activity == facets_activity(top.facets)
        };
    if exists|j: int| 0 <= j < group.len() && facets_availability((#[trigger] group[j]).facets) is Some {
        let j = choose|j: int| 0 <= j < group.len() && facets_availability((#[trigger] group[j]).facets) is Some;
        assert(availability_rank_of(DefaultSubjectProjectionPolicy, group[j]) > 0);
    }
    if exists|j: int| 0 <= j < group.len() && facets_activity((#[trigger] group[j]).facets) is Some {
        let j = choose|j: int| 0 <= j < group.len() && facets_activity((#[trigger] group[j]).facets) is Some;
        assert(activity_rank_of(DefaultSubjectProjectionPolicy, group[j]) > 0);
    }
}

/// Whether an entry belongs to `subject`.
pub open spec fn has_subject<V, E: ExtensionFacet>(subject: u64) -> spec_fn(EntryView<V, E>) -> bool {
    |entry: EntryView<V, E>| entry.key.address.subject == subject
}

/// Whether some entry in `entries` has `subject`.
pub open spec fn contains_subject<V, E: ExtensionFacet>(entries: Seq<EntryView<V, E>>, subject: u64) -> bool {
    exists|j: int| 0 <= j < entries.len() && (#[trigger] entries[j]).key.address.subject == subject
}

/// The subjects of `entries`, each once, in order of first appearance.
pub open spec fn distinct_subjects<V, E: ExtensionFacet>(entries: Seq<EntryView<V, E>>) -> Seq<u64>
    decreases entries.len(),
{
    if entries.len() == 0 {
        Seq::empty()
    } else {
        let before = distinct_subjects(entries.drop_last());
        let subject = entries.last().key.address.subject;
        if before.contains(subject) {
            before
        } else {
            before.push(subject)
        }
    }
}

/// Every entry's subject is listed by `distinct_subjects`, every listed
/// subject is some entry's, and no subject is listed twice.
pub proof fn lemma_distinct_subjects<V, E: ExtensionFacet>(entries: Seq<EntryView<V, E>>)
    ensures
        forall|j: int|
            0 <= j < entries.len() ==> distinct_subjects(entries).contains(
                (#[trigger] entries[j]).key.address.subject,
            ),
        forall|t: int|
            0 <= t < distinct_subjects(entries).len() ==> contains_subject(
                entries,
                #[trigger] distinct_subjects(entries)[t],
            ),
        forall|a: int, b: int|
            0 <= a < b < distinct_subjects(entries).len() ==> (#[trigger] distinct_subjects(entries)[a])
                != (#[trigger] distinct_subjects(entries)[b]),
    decreases entries.len(),
{
    if entries.len() > 0 {
        let rest = entries.drop_last();
        lemma_distinct_subjects(rest);
        let d = distinct_subjects(entries);
        let dr = distinct_subjects(rest);
        let last = entries.last().key.address.subject;
        assert forall|j: int| 0 <= j < entries.len() implies d.contains(
            (#[trigger] entries[j]).key.address.subject,
        ) by {
            if j < entries.len() - 1 {
                assert(entries[j] == rest[j]);
                assert(dr.contains(rest[j].key.address.subject));
                if !dr.contains(last) {
                    let t = choose|t: int| 0 <= t < dr.len() && dr[t] == rest[j].key.address.subject;
                    assert(d[t] == dr[t]);
                }
            } else {
                if !dr.contains(last) {
                    assert(d[d.len() - 1] == last);
                }
            }
        }
        assert forall|t: int| 0 <= t < d.len() implies contains_subject(entries, #[trigger] d[t]) by {
            if t < dr.len() {
                assert(d[t] == dr[t]);
                assert(contains_subject(rest, dr[t]));
                let j = choose|j: int| 0 <= j < rest.len() && (#[trigger] rest[j]).key.address.subject == dr[t];
                assert(entries[j] == rest[j]);
            } else {
                assert(entries[entries.len() - 1].key.address.subject == d[t]);
            }
        }
    }
}

/// Whether `right` replaces `left` as the best so far under `order`: it does
/// unless `left` ranks strictly higher.
fn replaces_best<V, E: ExtensionFacet, P: SubjectProjectionPolicy>(
    policy: &P,
    order: RankOrder,
    left: &StoreSnapshot<V, E>,
    right: &StoreSnapshot<V, E>,
) -> (replaces: bool)
    ensures
        replaces == key_le(
            order_key(*policy, order, left.facets@, left.observed_at),
            order_key(*policy, order, right.facets@, right.observed_at),
        ),
{
    let ordering = match order {
        RankOrder::Activity => compare_activity(policy, left, right),
        RankOrder::Availability => compare_availability(policy, left, right),
        RankOrder::Dominance => compare_snapshot_dominance(policy, left, right),
    };
    match ordering {
        Ordering::Greater => false,
        _ => true,
    }
}

/// Picks the position `Iterator::max_by` would pick under `order`.
fn best_resource<V, E: ExtensionFacet, P: SubjectProjectionPolicy>(
    policy: &P,
    order: RankOrder,
    resources: &Vec<StoreSnapshot<V, E>>,
    Ghost(group): Ghost<Seq<EntryView<V, E>>>,
) -> (best: usize)
    requires
        resources@.len() > 0,
        materializes_all(resources@, group),
    ensures
        best == best_position(*policy, order, group),
        best < group.len(),
{
    let mut best: usize = 0;
    let mut k: usize = 1;
    assert(group.take(1).len() == 1);
    while k < resources.len()
        invariant
            1 <= k <= resources@.len(),
            materializes_all(resources@, group),
            best < k,
            best == best_position(*policy, order, group.take(k as int)),
        decreases resources@.len() - k,
    {
        let replaces = replaces_best(policy, order, &resources[best], &resources[k]);
        proof {
            let prefix = group.take(k + 1);
            assert(prefix.drop_last() =~= group.take(k as int));
            assert(prefix.last() == group[k as int]);
            assert(prefix[best as int] == group[best as int]);
            assert(materializes(resources@[best as int], group[best as int]));
            assert(materializes(resources@[k as int], group[k as int]));
        }
        if replaces {
            best = k;
        }
        k += 1;
    }
    assert(group.take(k as int) =~= group);
    best
}

/// Projects the snapshots of one subject into a summary.
pub(crate) fn summarize_subject<V, E: ExtensionFacet, P: SubjectProjectionPolicy>(
    accumulator: SubjectProjectionAccumulator<V, E>,
    policy: &P,
    Ghost(group): Ghost<Seq<EntryView<V, E>>>,
) -> (summary: SubjectPresenceSummary<V, E>)
    requires
        group.len() > 0,
        materializes_all(accumulator.resources@, group),
        accumulator.subject == group[0].key.address.subject,
        accumulator.context == group[0].key.address.context,
    ensures
        summarizes(summary, *policy, group),
{
    let resources = accumulator.resources;
    let dominant = best_resource(policy, RankOrder::Dominance, &resources, Ghost(group));
    assert(materializes(resources@[dominant as int], group[dominant as int]));
    let mut observed_at = resources[0].observed_at;
    let mut last_seen: Option<Timestamp> = None;
    let mut k: usize = 0;
    assert(group.take(0) =~= Seq::<EntryView<V, E>>::empty());
    while k < resources.len()
        invariant
            k <= resources@.len(),
            resources@.len() > 0,
            materializes_all(resources@, group),
            k > 0 ==> observed_at.value() == latest_observed(group.take(k as int)),
            k == 0 ==> observed_at == resources@[0].observed_at,
            last_seen == latest_last_seen(group.take(k as int)),
        decreases resources@.len() - k,
    {
        proof {
            let prefix = group.take(k + 1);
            assert(prefix.drop_last() =~= group.take(k as int));
            assert(prefix.last() == group[k as int]);
            assert(materializes(resources@[k as int], group[k as int]));
        }
        let current = resources[k].observed_at;
        if k == 0 || observed_at.get() <= current.get() {
            observed_at = current;
        }
        let seen = resources[k].last_seen();
        last_seen = match (last_seen, seen) {
            (None, current_seen) => current_seen,
            (Some(earlier), None) => Some(earlier),
            (Some(earlier), Some(later)) => if earlier.get() <= later.get() {
                Some(later)
            } else {
                Some(earlier)
            },
        };
        k += 1;
    }
    assert(group.take(k as int) =~= group);
    let availability = match resources[dominant].availability() {
        Some(value) => Some(value),
        None => {
            let best = best_resource(policy, RankOrder::Availability, &resources, Ghost(group));
            assert(materializes(resources@[best as int], group[best as int]));
            resources[best].availability()
        },
    };
    let activity = match resources[dominant].activity() {
        Some(value) => Some(value),
        None => {
            let best = best_resource(policy, RankOrder::Activity, &resources, Ghost(group));
            assert(materializes(resources@[best as int], group[best as int]));
            resources[best].activity()
        },
    };
    SubjectPresenceSummary {
        subject: accumulator.subject,
        context: accumulator.context,
        dominant_resource: resources[dominant].address.resource,
        dominant_origin: resources[dominant].origin,
        observed_at,
        availability,
        activity,
        last_seen,
        resources,
    }
}

} // verus!
