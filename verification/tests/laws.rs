use ruthere::{
    Activity, AllowAll, Availability, BuiltinFacet, BuiltinFacetKind, DefaultSubjectProjectionPolicy,
    Expiry, ExpiryPolicy, FacetChange, InMemoryStore, LabelAllowlist, PresenceAddress,
    PresenceEntryKey, PresenceFacet, PresenceFacetKind, PresenceServer, PresenceSnapshot,
    PresenceUpdate, PublicOnly, RetainedGap, RetainedStatus, StoreChangeKind, StoreExpired,
    SubjectProjectionPolicy, Timestamp, Visibility, VisibilityPolicy, WatcherCursor,
};

fn update(
    subject: u64,
    context: u64,
    resource: Option<u64>,
    origin: u64,
    visibility: Visibility<&'static str>,
    observed_at: u64,
    expiry: Expiry,
) -> PresenceUpdate<u64, u64, u64, u64, &'static str> {
    PresenceUpdate::new(
        PresenceAddress::new(subject, context, resource),
        origin,
        visibility,
        Timestamp::new(observed_at),
        expiry,
    )
}

#[test]
fn upsert_replaces_facet_of_same_kind_in_place() {
    let mut store = InMemoryStore::<&'static str>::new();
    store.publish(
        update(1, 2, Some(3), 4, Visibility::Public, 10, Expiry::Never)
            .set_availability(Availability::Available)
            .set_activity(Activity::Observing)
            .set_availability(Availability::Busy),
    );
    let key = PresenceEntryKey::new(PresenceAddress::new(1, 2, Some(3)), 4);
    let snapshot = store.snapshot(&key).expect("stored entry");
    assert_eq!(
        snapshot.facets,
        vec![
            PresenceFacet::Builtin(BuiltinFacet::Availability(Availability::Busy)),
            PresenceFacet::Builtin(BuiltinFacet::Activity(Activity::Observing)),
        ]
    );
}

#[test]
fn clear_removes_only_its_kind() {
    let mut store = InMemoryStore::<&'static str>::new();
    store.publish(
        update(1, 2, None, 4, Visibility::Public, 10, Expiry::Never)
            .set_availability(Availability::Away)
            .set_activity(Activity::Editing)
            .set_last_seen(Timestamp::new(9)),
    );
    store.publish(
        update(1, 2, None, 4, Visibility::Public, 11, Expiry::Never)
            .clear_activity()
            .clear_availability(),
    );
    let key = PresenceEntryKey::new(PresenceAddress::new(1, 2, None), 4);
    let snapshot = store.snapshot(&key).expect("stored entry");
    assert_eq!(
        snapshot.facets,
        vec![PresenceFacet::Builtin(BuiltinFacet::LastSeen(Timestamp::new(9)))]
    );
    assert_eq!(snapshot.observed_at, Timestamp::new(11));
}

#[test]
fn clearing_an_absent_kind_changes_nothing() {
    let mut store = InMemoryStore::<&'static str>::new();
    store.publish(
        update(1, 2, None, 4, Visibility::Public, 10, Expiry::Never)
            .clear_last_seen()
            .set_activity(Activity::Acting),
    );
    let key = PresenceEntryKey::new(PresenceAddress::new(1, 2, None), 4);
    let snapshot = store.snapshot(&key).expect("stored entry");
    assert_eq!(snapshot.facets.len(), 1);
    assert_eq!(snapshot.activity(), Some(Activity::Acting));
}

#[test]
fn publishing_again_under_a_key_keeps_one_entry() {
    let mut store = InMemoryStore::<&'static str>::new();
    store.publish(update(1, 2, None, 4, Visibility::Public, 10, Expiry::Never));
    store.publish(update(1, 2, None, 4, Visibility::Private, 12, Expiry::At(Timestamp::new(40))));
    store.publish(update(1, 2, None, 5, Visibility::Public, 13, Expiry::Never));
    assert_eq!(store.len(), 2);
    let key = PresenceEntryKey::new(PresenceAddress::new(1, 2, None), 4);
    let snapshot = store.snapshot(&key).expect("stored entry");
    assert_eq!(snapshot.visibility, Visibility::Private);
    assert_eq!(snapshot.expiry, Expiry::At(Timestamp::new(40)));
    assert_eq!(snapshot.observed_at, Timestamp::new(12));
}

#[test]
fn publishers_do_not_overwrite_one_another() {
    let mut store = InMemoryStore::<&'static str>::new();
    store.publish(
        update(1, 2, Some(3), 10, Visibility::Public, 10, Expiry::Never)
            .set_activity(Activity::Editing),
    );
    store.publish(
        update(1, 2, Some(3), 11, Visibility::Public, 11, Expiry::Never)
            .set_activity(Activity::Idle),
    );
    let first = PresenceEntryKey::new(PresenceAddress::new(1, 2, Some(3)), 10);
    let second = PresenceEntryKey::new(PresenceAddress::new(1, 2, Some(3)), 11);
    assert_eq!(
        store.snapshot(&first).expect("first").activity(),
        Some(Activity::Editing)
    );
    assert_eq!(
        store.snapshot(&second).expect("second").activity(),
        Some(Activity::Idle)
    );
    assert!(store
        .snapshot(&PresenceEntryKey::new(PresenceAddress::new(1, 2, None), 10))
        .is_none());
}

#[test]
fn sequences_increase_by_one_per_change() {
    let mut store = InMemoryStore::<&'static str>::new();
    assert_eq!(store.last_sequence(), 0);
    assert_eq!(store.publish(update(1, 2, None, 3, Visibility::Public, 1, Expiry::At(Timestamp::new(5)))), 1);
    assert_eq!(store.publish(update(4, 2, None, 3, Visibility::Public, 1, Expiry::At(Timestamp::new(6)))), 2);
    assert_eq!(store.expire(Timestamp::new(7)), 2);
    assert_eq!(store.last_sequence(), 4);
    let changes = store.changes_since(0).expect("retained changes");
    let sequences: Vec<u64> = changes.iter().map(|change| change.sequence).collect();
    assert_eq!(sequences, vec![1, 2, 3, 4]);
    assert!(matches!(
        changes[2].kind,
        StoreChangeKind::Expired(StoreExpired { key: PresenceEntryKey { origin: 3, .. }, .. })
    ));
    assert!(store.is_empty());
}

#[test]
fn expiry_keeps_live_entries_untouched() {
    let mut store = InMemoryStore::<&'static str>::new();
    store.publish(update(1, 2, None, 3, Visibility::Public, 1, Expiry::At(Timestamp::new(10))));
    store.publish(
        update(4, 2, None, 3, Visibility::Restricted("ops"), 1, Expiry::At(Timestamp::new(11)))
            .set_availability(Availability::Busy),
    );
    store.publish(update(5, 2, None, 3, Visibility::Public, 1, Expiry::Never));
    assert_eq!(store.expire(Timestamp::new(10)), 1);
    let survivors = store.snapshots_in_context(&2);
    let subjects: Vec<u64> = survivors.iter().map(|snapshot| snapshot.address.subject).collect();
    assert_eq!(subjects, vec![4, 5]);
    assert_eq!(survivors[0].availability(), Some(Availability::Busy));
    assert_eq!(survivors[0].visibility, Visibility::Restricted("ops"));
    assert_eq!(store.expire(Timestamp::new(10)), 0);
    assert_eq!(store.last_sequence(), 4);
}

#[test]
fn expired_changes_keep_the_removed_label() {
    let mut store = InMemoryStore::<&'static str>::new();
    store.publish(update(1, 2, None, 3, Visibility::Restricted("ops"), 1, Expiry::At(Timestamp::new(2))));
    store.expire(Timestamp::new(3));
    let ops = LabelAllowlist::new(vec!["ops"]);
    assert_eq!(store.changes_since_visible(0, &ops).expect("changes").len(), 2);
    assert_eq!(store.changes_since_visible(0, &PublicOnly).expect("changes").len(), 0);
    let changes = store.changes_since(1).expect("changes");
    assert!(matches!(
        changes[0].kind,
        StoreChangeKind::Expired(StoreExpired { visibility: Visibility::Restricted("ops"), .. })
    ));
}

#[test]
fn visible_reads_are_raw_reads_restricted_by_policy() {
    let mut store = InMemoryStore::<&'static str>::new();
    store.publish(update(1, 2, None, 3, Visibility::Public, 1, Expiry::Never));
    store.publish(update(4, 2, None, 3, Visibility::Restricted("team"), 1, Expiry::Never));
    store.publish(update(5, 2, None, 3, Visibility::Private, 1, Expiry::Never));
    store.publish(update(6, 2, None, 3, Visibility::Restricted("other"), 1, Expiry::Never));
    let team = LabelAllowlist::new(vec!["team", "staff"]);
    let raw = store.snapshots_in_context(&2);
    let visible = store.snapshots_in_context_visible(&2, &team);
    let expected: Vec<u64> = raw
        .iter()
        .filter(|snapshot| team.allows(&snapshot.visibility))
        .map(|snapshot| snapshot.address.subject)
        .collect();
    let got: Vec<u64> = visible.iter().map(|snapshot| snapshot.address.subject).collect();
    assert_eq!(got, expected);
    assert_eq!(got, vec![1, 4]);
    assert_eq!(store.snapshots_in_context_visible(&2, &AllowAll).len(), 4);
    let address = PresenceAddress::new(4, 2, None);
    assert_eq!(store.snapshots_for_address_visible(&address, &team).len(), 1);
    assert_eq!(store.snapshots_for_address_visible(&address, &PublicOnly).len(), 0);
}

#[test]
fn label_allowlist_admits_public_and_listed_labels_only() {
    let policy = LabelAllowlist::new(vec!["members"]);
    assert!(policy.allows(&Visibility::Public));
    assert!(policy.allows(&Visibility::Restricted("members")));
    assert!(!policy.allows(&Visibility::Restricted("member")));
    assert!(!policy.allows(&Visibility::Private));
    assert!(!PublicOnly.allows(&Visibility::Restricted("members")));
    assert!(AllowAll.allows(&Visibility::<&'static str>::Private));
}

#[test]
fn compaction_turns_stale_queries_into_gaps() {
    let mut store = InMemoryStore::<&'static str>::new();
    for origin in 0..5 {
        store.publish(update(1, 2, None, origin, Visibility::Public, 1, Expiry::Never));
    }
    assert_eq!(store.compact_changes_through(3), 3);
    assert_eq!(store.retained_floor_sequence(), 3);
    assert_eq!(
        store.changes_since(2),
        Err(RetainedGap::new(2, 3, 5))
    );
    assert_eq!(store.change_status_since(0), RetainedStatus::Gap(RetainedGap::new(0, 3, 5)));
    assert_eq!(store.change_status_since(3), RetainedStatus::Pending);
    assert_eq!(store.change_status_since(5), RetainedStatus::UpToDate);
    let rest: Vec<u64> = store
        .changes_since(3)
        .expect("retained")
        .iter()
        .map(|change| change.sequence)
        .collect();
    assert_eq!(rest, vec![4, 5]);
    assert_eq!(store.compact_changes_through(2), 0);
    assert_eq!(store.retained_floor_sequence(), 3);
    assert_eq!(store.compact_changes_through(100), 2);
    assert_eq!(store.retained_floor_sequence(), 5);
    assert_eq!(store.changes_since(5).expect("retained").len(), 0);
    assert_eq!(store.len(), 5);
}

#[test]
fn cursor_does_not_move_on_gap_and_resyncs_after_reset() {
    let mut server = PresenceServer::<&'static str>::new();
    for origin in 0..4 {
        server.receive(update(1, 2, None, origin, Visibility::Public, 1, Expiry::Never));
    }
    server.compact_changes_through(3);
    let mut cursor = WatcherCursor::new();
    let gap = server.poll(&mut cursor).expect_err("gap");
    assert_eq!(gap, RetainedGap::new(0, 3, 4));
    assert_eq!(cursor.sequence(), 0);
    assert!(server.has_pending(cursor));
    cursor.reset_to(gap.last_sequence);
    assert_eq!(server.poll(&mut cursor).expect("retained").len(), 0);
    assert_eq!(cursor.sequence(), 4);
    assert_eq!(server.pending_status(cursor), RetainedStatus::UpToDate);
}

#[test]
fn polling_catches_up_with_the_store() {
    let mut store = InMemoryStore::<&'static str>::new();
    store.publish(update(1, 2, None, 3, Visibility::Public, 1, Expiry::Never));
    store.publish(update(4, 2, None, 3, Visibility::Restricted("x"), 1, Expiry::Never));
    let mut cursor = WatcherCursor::from_sequence(0);
    assert_eq!(cursor.status(&store), RetainedStatus::Pending);
    assert_eq!(cursor.poll(&mut store.clone()).map(|changes| changes.len()), Ok(2));
    assert_eq!(cursor.status(&store), RetainedStatus::UpToDate);
    assert!(!cursor.has_pending(&store));

    let mut public = WatcherCursor::new();
    let changes = public.poll_visible(&store, &PublicOnly).expect("retained");
    assert_eq!(changes.len(), 1);
    assert_eq!(public.sequence(), 1);
    assert_eq!(public.status_visible(&store, &PublicOnly), RetainedStatus::UpToDate);
    assert_eq!(public.status(&store), RetainedStatus::Pending);
}

#[test]
fn dominance_prefers_activity_then_recency_then_position() {
    let mut store = InMemoryStore::<&'static str>::new();
    store.publish(
        update(1, 2, Some(10), 100, Visibility::Public, 50, Expiry::Never)
            .set_activity(Activity::Observing)
            .set_availability(Availability::Busy),
    );
    store.publish(
        update(1, 2, Some(11), 101, Visibility::Public, 40, Expiry::Never)
            .set_activity(Activity::Editing),
    );
    store.publish(
        update(1, 2, Some(12), 102, Visibility::Public, 40, Expiry::Never)
            .set_activity(Activity::Editing),
    );
    let summary = store.subject_summary_in_context(&1, &2).expect("summary");
    assert_eq!(summary.dominant_resource, Some(12));
    assert_eq!(summary.dominant_origin, 102);
    assert_eq!(summary.activity, Some(Activity::Editing));
    assert_eq!(summary.availability, Some(Availability::Busy));
    assert_eq!(summary.observed_at, Timestamp::new(50));
    assert_eq!(summary.last_seen, None);
    assert_eq!(summary.resources.len(), 3);
}

#[test]
fn summary_takes_latest_last_seen_across_resources() {
    let mut store = InMemoryStore::<&'static str>::new();
    store.publish(
        update(1, 2, Some(10), 100, Visibility::Public, 5, Expiry::Never)
            .set_last_seen(Timestamp::new(30)),
    );
    store.publish(update(1, 2, Some(11), 100, Visibility::Public, 6, Expiry::Never));
    store.publish(
        update(1, 2, Some(12), 100, Visibility::Public, 7, Expiry::Never)
            .set_last_seen(Timestamp::new(20)),
    );
    let summary = store.subject_summary_in_context(&1, &2).expect("summary");
    assert_eq!(summary.last_seen, Some(Timestamp::new(30)));
    assert_eq!(summary.observed_at, Timestamp::new(7));
    assert_eq!(summary.dominant_resource, Some(12));
    assert_eq!(summary.activity, None);
    assert_eq!(summary.availability, None);
}

#[test]
fn summaries_list_each_subject_once_in_first_appearance_order() {
    let mut store = InMemoryStore::<&'static str>::new();
    store.publish(update(7, 2, Some(1), 1, Visibility::Public, 1, Expiry::Never));
    store.publish(update(3, 2, Some(1), 1, Visibility::Public, 1, Expiry::Never));
    store.publish(update(7, 2, Some(2), 1, Visibility::Public, 1, Expiry::Never));
    store.publish(update(9, 4, Some(2), 1, Visibility::Public, 1, Expiry::Never));
    let summaries = store.subject_summaries_in_context_with_policy(&2, &DefaultSubjectProjectionPolicy);
    let subjects: Vec<u64> = summaries.iter().map(|summary| summary.subject).collect();
    assert_eq!(subjects, vec![7, 3]);
    assert_eq!(summaries[0].resources.len(), 2);
    assert!(store.subject_summary_in_context(&9, &2).is_none());
    assert_eq!(store.subject_summaries_in_context(&3).len(), 0);
}

#[test]
fn default_policy_ranks_follow_the_documented_order() {
    let policy = DefaultSubjectProjectionPolicy;
    assert_eq!(policy.activity_rank(Some(Activity::Editing)), 7);
    assert_eq!(policy.activity_rank(Some(Activity::Custom(3))), 1);
    assert_eq!(policy.activity_rank(None), 0);
    assert_eq!(policy.availability_rank(Some(Availability::Busy)), 5);
    assert_eq!(policy.availability_rank(Some(Availability::Offline)), 1);
    assert_eq!(policy.availability_rank(None), 0);
}

#[test]
fn snapshot_accessors_take_the_first_matching_facet() {
    let snapshot = PresenceSnapshot::<u64, u64, u64, u64, ()>::new(
        PresenceAddress::new(1, 2, None),
        3,
        Visibility::Public,
        Timestamp::new(4),
        Expiry::Never,
    )
    .with_facet(PresenceFacet::Builtin(BuiltinFacet::Activity(Activity::Idle)))
    .with_facet(PresenceFacet::Builtin(BuiltinFacet::Availability(Availability::Away)))
    .with_facet(PresenceFacet::Builtin(BuiltinFacet::Availability(Availability::Busy)));
    assert_eq!(snapshot.availability(), Some(Availability::Away));
    assert_eq!(snapshot.activity(), Some(Activity::Idle));
    assert_eq!(snapshot.last_seen(), None);
}

#[test]
fn expiry_policy_saturates_at_the_largest_timestamp() {
    assert_eq!(
        ExpiryPolicy::After(u64::MAX).resolve(Timestamp::new(5)),
        Expiry::At(Timestamp::new(u64::MAX))
    );
    assert!(!Expiry::At(Timestamp::new(u64::MAX)).is_expired_by(Timestamp::new(u64::MAX - 1)));
}

#[test]
fn facet_kinds_and_builtin_kind() {
    assert_eq!(
        PresenceFacetKind::<ruthere::Never>::Builtin(BuiltinFacetKind::Activity).builtin(),
        Some(BuiltinFacetKind::Activity)
    );
    let change: FacetChange = FacetChange::Clear(PresenceFacetKind::Builtin(BuiltinFacetKind::LastSeen));
    assert!(matches!(change, FacetChange::Clear(..)));
}

#[test]
fn cursor_converts_to_and_from_sequences() {
    let cursor = WatcherCursor::from(9);
    assert_eq!(cursor.sequence(), 9);
    let raw: u64 = cursor.into();
    assert_eq!(raw, 9);
    assert_eq!(WatcherCursor::default().sequence(), 0);
    assert_eq!(WatcherCursor::from(9), WatcherCursor::from_sequence(9));
    let mut moved = WatcherCursor::from_sequence(3);
    moved.reset_to(9);
    assert_eq!(moved, WatcherCursor::from_sequence(9));
    assert_eq!(WatcherCursor::default(), WatcherCursor::new());
}

#[test]
fn server_receive_all_assigns_consecutive_sequences() {
    let mut server = PresenceServer::<&'static str>::new();
    let sequences = server.receive_all(vec![
        update(1, 2, None, 3, Visibility::Public, 1, Expiry::Never),
        update(1, 2, None, 4, Visibility::Public, 2, Expiry::Never),
        update(1, 2, None, 3, Visibility::Public, 3, Expiry::Never),
    ]);
    assert_eq!(sequences, vec![1, 2, 3]);
    assert_eq!(server.len(), 2);
    let copy = server.clone();
    assert_eq!(copy.last_sequence(), 3);
    assert_eq!(copy.store().snapshots_in_context(&2).len(), 2);
    let store = server.into_store();
    assert_eq!(store.last_sequence(), 3);
    assert_eq!(store.has_visible_changes_since(2, &PublicOnly), true);
    assert_eq!(store.has_visible_changes_since(3, &PublicOnly), false);
}

#[test]
fn beacon_getters_return_configuration() {
    let beacon = ruthere::PresenceBeacon::<u64, u64, u64, u64, &'static str>::new(
        PresenceAddress::new(1, 2, Some(3)),
        4,
    )
    .with_expiry_policy(ExpiryPolicy::After(5));
    assert_eq!(*beacon.address(), PresenceAddress::new(1, 2, Some(3)));
    assert_eq!(*beacon.origin(), 4);
    assert_eq!(*beacon.visibility(), Visibility::Public);
    assert_eq!(beacon.expiry_policy(), ExpiryPolicy::After(5));
    let copy = beacon.clone();
    assert_eq!(copy, beacon);
}

fn pending_through_watch<S: ruthere::PresenceWatch<&'static str>>(server: &S, cursor: WatcherCursor) -> (bool, RetainedStatus) {
    (server.has_pending(cursor), server.pending_status(cursor))
}

fn receive_all_through_ingress<S: ruthere::PresenceIngress<&'static str>>(
    server: &mut S,
    updates: Vec<PresenceUpdate<u64, u64, u64, u64, &'static str>>,
) -> (Vec<u64>, u64) {
    let sequences = server.receive_all(updates);
    (sequences, server.last_sequence())
}

#[test]
fn watch_traits_report_pending_and_gaps_after_compaction() {
    let mut server = PresenceServer::<&'static str>::new();
    let (sequences, last) = receive_all_through_ingress(
        &mut server,
        vec![
            update(1, 2, None, 3, Visibility::Public, 1, Expiry::Never),
            update(1, 2, None, 4, Visibility::Restricted("ops"), 2, Expiry::Never),
        ],
    );
    assert_eq!(sequences, vec![1, 2]);
    assert_eq!(last, 2);
    let start = WatcherCursor::new();
    assert_eq!(pending_through_watch(&server, start), (true, RetainedStatus::Pending));
    let tail = WatcherCursor::from_sequence(2);
    assert_eq!(pending_through_watch(&server, tail), (false, RetainedStatus::UpToDate));
    assert!(!ruthere::PresenceWatch::has_pending_visible(&server, WatcherCursor::from_sequence(1), &PublicOnly));
    assert!(ruthere::PresenceWatch::has_pending_visible(&server, start, &PublicOnly));

    assert_eq!(server.compact_changes_through(1), 1);
    assert_eq!(server.retained_floor_sequence(), 1);
    assert_eq!(
        pending_through_watch(&server, start),
        (true, RetainedStatus::Gap(RetainedGap::new(0, 1, 2)))
    );
    let fresh = ruthere::PresenceWatch::watcher_cursor(&server);
    assert_eq!(fresh.sequence(), 1);
    assert_eq!(pending_through_watch(&server, fresh), (true, RetainedStatus::Pending));
    let mut cursor = fresh;
    let drained = ruthere::PresenceWatch::poll(&server, &mut cursor).expect("retained changes");
    assert_eq!(drained.len(), 1);
    assert_eq!(drained[0].sequence, 2);
    assert_eq!(cursor.sequence(), 2);
    let mut stale = WatcherCursor::new();
    assert_eq!(
        ruthere::PresenceWatch::poll(&server, &mut stale),
        Err(RetainedGap::new(0, 1, 2))
    );
    assert_eq!(stale.sequence(), 0);
    let (empty, last) = receive_all_through_ingress(&mut server, Vec::new());
    assert!(empty.is_empty());
    assert_eq!(last, 2);
}

#[test]
fn dominance_prefers_availability_before_recency() {
    let mut store = InMemoryStore::<&'static str>::new();
    store.publish(
        update(1, 5, Some(10), 100, Visibility::Public, 1, Expiry::Never)
            .set_activity(Activity::Editing)
            .set_availability(Availability::Busy),
    );
    store.publish(
        update(1, 5, Some(11), 101, Visibility::Public, 2, Expiry::Never)
            .set_activity(Activity::Editing)
            .set_availability(Availability::Away),
    );
    let summary = store.subject_summary_in_context(&1, &5).expect("summary");
    assert_eq!(summary.dominant_resource, Some(10));
    assert_eq!(summary.dominant_origin, 100);
    assert_eq!(summary.availability, Some(Availability::Busy));
    assert_eq!(summary.activity, Some(Activity::Editing));
    assert_eq!(summary.observed_at, Timestamp::new(2));
}
