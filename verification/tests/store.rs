use ruthere::{
    Activity, Availability, Expiry, ExtensionFacet, InMemoryStore, LabelAllowlist,
    PresenceAddress, PresenceEntryKey, PresenceFacet, PresenceKey, PresenceUpdate, PublicOnly,
    StoreChangeKind, StoreExpired, Timestamp, Visibility,
};

#[derive(Clone, Copy, Debug, Eq, Hash, PartialEq)]
enum DemoFacet {
    Focus(u64),
}

#[derive(Clone, Copy, Debug, Eq, Hash, PartialEq)]
enum DemoFacetKind {
    Focus,
}

impl PresenceKey for DemoFacetKind {
    fn same_key(&self, other: &Self) -> bool {
        self == other
    }
}

impl ExtensionFacet for DemoFacet {
    type Kind = DemoFacetKind;

    fn facet_kind(&self) -> Self::Kind {
        self.kind()
    }

    fn kind(&self) -> Self::Kind {
        match self {
            Self::Focus(..) => DemoFacetKind::Focus,
        }
    }
}

#[test]
fn publish_materializes_and_clears_facets() {
    let mut store = InMemoryStore::<&'static str>::new();
    let address = PresenceAddress::new(7_u64, 9_u64, Some(3_u64));

    let sequence = store.publish(
        PresenceUpdate::new(
            address.clone(),
            11_u64,
            Visibility::Restricted("ops"),
            Timestamp::new(20),
            Expiry::At(Timestamp::new(50)),
        )
        .set_availability(Availability::Available)
        .set_last_seen(Timestamp::new(19)),
    );

    assert_eq!(sequence, 1);

    store.publish(
        PresenceUpdate::new(
            address.clone(),
            11_u64,
            Visibility::Restricted("ops"),
            Timestamp::new(21),
            Expiry::At(Timestamp::new(55)),
        )
        .set_activity(Activity::Editing)
        .clear_last_seen(),
    );

    let snapshot = store
        .snapshot(&PresenceEntryKey::new(address, 11_u64))
        .expect("missing stored snapshot");

    assert_eq!(snapshot.availability(), Some(Availability::Available));
    assert_eq!(snapshot.activity(), Some(Activity::Editing));
    assert_eq!(snapshot.last_seen(), None);
    assert_eq!(snapshot.observed_at, Timestamp::new(21));
    assert_eq!(snapshot.expiry, Expiry::At(Timestamp::new(55)));
}

#[test]
fn snapshots_for_address_return_all_origins() {
    let mut store = InMemoryStore::<()>::new();
    let address = PresenceAddress::new(1_u64, 2_u64, None::<u64>);

    for origin in [10_u64, 11_u64] {
        store.publish(
            PresenceUpdate::new(
                address.clone(),
                origin,
                Visibility::Public,
                Timestamp::new(origin),
                Expiry::Never,
            )
            .set_availability(Availability::Available),
        );
    }

    let snapshots = store.snapshots_for_address(&address);

    assert_eq!(snapshots.len(), 2);
    assert!(
        snapshots
            .iter()
            .all(|snapshot| snapshot.availability() == Some(Availability::Available))
    );
}

#[test]
fn snapshots_in_context_filter_to_one_context() {
    let mut store = InMemoryStore::<()>::new();

    store.publish(
        PresenceUpdate::new(
            PresenceAddress::new(1_u64, 100_u64, None::<u64>),
            10_u64,
            Visibility::Public,
            Timestamp::new(1),
            Expiry::Never,
        )
        .set_activity(Activity::Observing),
    );

    store.publish(
        PresenceUpdate::new(
            PresenceAddress::new(2_u64, 200_u64, None::<u64>),
            20_u64,
            Visibility::Public,
            Timestamp::new(2),
            Expiry::Never,
        )
        .set_availability(Availability::Away),
    );

    let snapshots = store.snapshots_in_context(&100_u64);

    assert_eq!(snapshots.len(), 1);
    assert_eq!(snapshots[0].address.context, 100_u64);
    assert_eq!(snapshots[0].activity(), Some(Activity::Observing));
}

#[test]
fn expire_prunes_whole_entries() {
    let mut store = InMemoryStore::<(), DemoFacet>::new();

    store.publish(
        PresenceUpdate::new(
            PresenceAddress::new(1_u64, 10_u64, None::<u64>),
            100_u64,
            Visibility::Public,
            Timestamp::new(5),
            Expiry::At(Timestamp::new(8)),
        )
        .set_extension(DemoFacet::Focus(99)),
    );

    store.publish(
        PresenceUpdate::new(
            PresenceAddress::new(2_u64, 10_u64, None::<u64>),
            101_u64,
            Visibility::Private,
            Timestamp::new(6),
            Expiry::Never,
        )
        .set_availability(Availability::Busy),
    );

    let removed = store.expire(Timestamp::new(8));
    let survivors = store.snapshots_in_context(&10_u64);
    let survivor_subjects: Vec<u64> = survivors
        .iter()
        .map(|snapshot| snapshot.address.subject)
        .collect();

    assert_eq!(removed, 1);
    assert_eq!(store.len(), 1);
    assert_eq!(survivor_subjects, Vec::from([2_u64]));
    assert!(
        survivors[0]
            .facets
            .iter()
            .all(|facet| *facet != PresenceFacet::Extension(DemoFacet::Focus(99)))
    );
}

#[test]
fn subject_projection_prefers_active_resource_and_keeps_detail() {
    let mut store = InMemoryStore::<&'static str>::new();
    let browser = PresenceAddress::new(1_u64, 42_u64, Some(10_u64));
    let mobile = PresenceAddress::new(1_u64, 42_u64, Some(11_u64));

    store.publish(
        PresenceUpdate::new(
            browser.clone(),
            100_u64,
            Visibility::Restricted("members"),
            Timestamp::new(100),
            Expiry::At(Timestamp::new(170)),
        )
        .set_availability(Availability::Available)
        .set_activity(Activity::Editing)
        .set_last_seen(Timestamp::new(110)),
    );

    store.publish(
        PresenceUpdate::new(
            mobile.clone(),
            101_u64,
            Visibility::Restricted("members"),
            Timestamp::new(105),
            Expiry::At(Timestamp::new(120)),
        )
        .set_availability(Availability::Away)
        .set_activity(Activity::Observing),
    );

    let summary = store
        .subject_summary_in_context(&1_u64, &42_u64)
        .expect("missing subject summary");

    assert_eq!(summary.subject, 1_u64);
    assert_eq!(summary.context, 42_u64);
    assert_eq!(summary.dominant_resource, Some(10_u64));
    assert_eq!(summary.dominant_origin, 100_u64);
    assert_eq!(summary.availability, Some(Availability::Available));
    assert_eq!(summary.activity, Some(Activity::Editing));
    assert_eq!(summary.last_seen, Some(Timestamp::new(110)));
    assert_eq!(summary.observed_at, Timestamp::new(105));
    assert_eq!(summary.resources.len(), 2);
}

#[test]
fn subject_summaries_group_by_subject() {
    let mut store = InMemoryStore::<()>::new();

    store.publish(
        PresenceUpdate::new(
            PresenceAddress::new(1_u64, 5_u64, Some(10_u64)),
            100_u64,
            Visibility::Public,
            Timestamp::new(1),
            Expiry::Never,
        )
        .set_activity(Activity::Observing),
    );

    store.publish(
        PresenceUpdate::new(
            PresenceAddress::new(1_u64, 5_u64, Some(11_u64)),
            101_u64,
            Visibility::Public,
            Timestamp::new(2),
            Expiry::Never,
        )
        .set_activity(Activity::Editing),
    );

    store.publish(
        PresenceUpdate::new(
            PresenceAddress::new(2_u64, 5_u64, Some(12_u64)),
            102_u64,
            Visibility::Public,
            Timestamp::new(3),
            Expiry::Never,
        )
        .set_availability(Availability::Away),
    );

    let mut summaries = store.subject_summaries_in_context(&5_u64);
    summaries.sort_by(|left, right| left.subject.cmp(&right.subject));

    assert_eq!(summaries.len(), 2);
    assert_eq!(summaries[0].subject, 1_u64);
    assert_eq!(summaries[0].activity, Some(Activity::Editing));
    assert_eq!(summaries[0].resources.len(), 2);
    assert_eq!(summaries[1].subject, 2_u64);
    assert_eq!(summaries[1].availability, Some(Availability::Away));
    assert_eq!(summaries[1].resources.len(), 1);
}

#[test]
fn changes_since_returns_published_updates_in_sequence_order() {
    let mut store = InMemoryStore::<()>::new();

    store.publish(
        PresenceUpdate::new(
            PresenceAddress::new(1_u64, 9_u64, Some(10_u64)),
            100_u64,
            Visibility::Public,
            Timestamp::new(1),
            Expiry::Never,
        )
        .set_activity(Activity::Observing),
    );
    store.publish(
        PresenceUpdate::new(
            PresenceAddress::new(1_u64, 9_u64, Some(10_u64)),
            100_u64,
            Visibility::Public,
            Timestamp::new(2),
            Expiry::Never,
        )
        .set_activity(Activity::Editing),
    );

    let changes = store.changes_since(0).expect("retained changes");

    assert_eq!(changes.len(), 2);
    assert_eq!(changes[0].sequence, 1);
    assert_eq!(changes[1].sequence, 2);
    assert!(matches!(
        changes[0].kind,
        StoreChangeKind::Published(PresenceUpdate { .. })
    ));
    assert!(store.has_changes_since(1));
    assert!(!store.has_changes_since(2));
}

#[test]
fn expire_emits_expired_changes() {
    let mut store = InMemoryStore::<()>::new();
    let expired_key = PresenceAddress::new(1_u64, 9_u64, Some(10_u64));

    store.publish(
        PresenceUpdate::new(
            expired_key.clone(),
            100_u64,
            Visibility::Public,
            Timestamp::new(1),
            Expiry::At(Timestamp::new(5)),
        )
        .set_availability(Availability::Away),
    );
    store.publish(
        PresenceUpdate::new(
            PresenceAddress::new(2_u64, 9_u64, Some(11_u64)),
            101_u64,
            Visibility::Public,
            Timestamp::new(2),
            Expiry::Never,
        )
        .set_activity(Activity::Observing),
    );

    let removed = store.expire(Timestamp::new(5));
    let changes = store.changes_since(2).expect("retained changes");

    assert_eq!(removed, 1);
    assert_eq!(changes.len(), 1);
    assert_eq!(changes[0].sequence, 3);
    assert!(matches!(
        &changes[0].kind,
        StoreChangeKind::Expired(StoreExpired { key: PresenceEntryKey { address, origin }, .. })
            if *address == expired_key && *origin == 100_u64
    ));
}

#[test]
fn snapshot_visible_filters_hidden_entries() {
    let mut store = InMemoryStore::<&'static str>::new();
    let hidden =
        PresenceEntryKey::new(PresenceAddress::new(1_u64, 9_u64, Some(10_u64)), 100_u64);
    let visible =
        PresenceEntryKey::new(PresenceAddress::new(2_u64, 9_u64, Some(11_u64)), 101_u64);
    let public_only = PublicOnly;

    store.publish(
        PresenceUpdate::new(
            hidden.address.clone(),
            hidden.origin,
            Visibility::Restricted("members"),
            Timestamp::new(1),
            Expiry::Never,
        )
        .set_activity(Activity::Editing),
    );
    store.publish(
        PresenceUpdate::new(
            visible.address.clone(),
            visible.origin,
            Visibility::Public,
            Timestamp::new(2),
            Expiry::Never,
        )
        .set_availability(Availability::Available),
    );

    assert!(store.snapshot_visible(&hidden, &public_only).is_none());
    assert!(store.snapshot_visible(&visible, &public_only).is_some());
    assert_eq!(
        store
            .snapshots_in_context_visible(&9_u64, &public_only)
            .len(),
        1
    );
}

#[test]
fn subject_summaries_visible_omit_hidden_subjects() {
    let mut store = InMemoryStore::<&'static str>::new();
    let public_only = PublicOnly;
    let member_view = LabelAllowlist::new(vec!["members"]);

    store.publish(
        PresenceUpdate::new(
            PresenceAddress::new(1_u64, 5_u64, Some(10_u64)),
            100_u64,
            Visibility::Restricted("members"),
            Timestamp::new(1),
            Expiry::Never,
        )
        .set_activity(Activity::Editing),
    );
    store.publish(
        PresenceUpdate::new(
            PresenceAddress::new(2_u64, 5_u64, Some(11_u64)),
            101_u64,
            Visibility::Public,
            Timestamp::new(2),
            Expiry::Never,
        )
        .set_activity(Activity::Observing),
    );

    let public_summaries = store.subject_summaries_in_context_visible(&5_u64, &public_only);
    let member_summaries = store.subject_summaries_in_context_visible(&5_u64, &member_view);

    assert_eq!(public_summaries.len(), 1);
    assert_eq!(public_summaries[0].subject, 2_u64);
    assert_eq!(member_summaries.len(), 2);
    assert!(
        store
            .subject_summary_in_context_visible(&1_u64, &5_u64, &public_only)
            .is_none()
    );
}
