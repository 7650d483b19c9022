use ruthere::{
    Activity, Availability, BuiltinFacet, Expiry, ExpiryPolicy, ExtensionFacet, FacetChange,
    PresenceAddress, PresenceBeacon, PresenceFacet, PresenceFacetKind, PresenceKey, Timestamp,
    Visibility,
};

#[derive(Clone, Copy, Debug, Eq, Hash, PartialEq)]
enum DemoFacet {
    Focus(u64),
}

#[derive(Clone, Copy, Debug, Eq, Hash, PartialEq)]
enum DemoFacetKind {
    Focus,
}

impl PresenceKey for DemoFacetKind {
    fn same_key(&self, other: &Self) -> bool {
        self == other
    }
}

impl ExtensionFacet for DemoFacet {
    type Kind = DemoFacetKind;

    fn facet_kind(&self) -> Self::Kind {
        self.kind()
    }

    fn kind(&self) -> Self::Kind {
        match self {
            Self::Focus(..) => DemoFacetKind::Focus,
        }
    }
}

#[test]
fn expiry_policy_resolves_from_observed_at() {
    assert_eq!(
        ExpiryPolicy::Never.resolve(Timestamp::new(10)),
        Expiry::Never
    );
    assert_eq!(
        ExpiryPolicy::After(25).resolve(Timestamp::new(10)),
        Expiry::At(Timestamp::new(35))
    );
}

#[test]
fn beacon_defaults_to_public_never_expiring_updates() {
    let beacon = PresenceBeacon::<u64, u64, u64, u64, &'static str>::new(
        PresenceAddress::new(7, 9, Some(3)),
        11,
    );

    let update = beacon.update_at(Timestamp::new(100));

    assert_eq!(update.address.subject, 7);
    assert_eq!(update.address.context, 9);
    assert_eq!(update.address.resource, Some(3));
    assert_eq!(update.origin, 11);
    assert_eq!(update.visibility, Visibility::Public);
    assert_eq!(update.expiry, Expiry::Never);
    assert!(update.changes.is_empty());
}

#[test]
fn beacon_heartbeat_uses_configured_visibility_and_policy() {
    let beacon = PresenceBeacon::<u64, u64, u64, u64, &'static str>::new(
        PresenceAddress::new(7, 9, Some(3)),
        11,
    )
    .with_visibility(Visibility::Restricted("members"))
    .with_expiry_policy(ExpiryPolicy::After(60));

    let update = beacon.heartbeat_at(Timestamp::new(100));

    assert_eq!(update.visibility, Visibility::Restricted("members"));
    assert_eq!(update.expiry, Expiry::At(Timestamp::new(160)));
    assert!(update.changes.iter().any(|change| matches!(
        change,
        FacetChange::Upsert(PresenceFacet::Builtin(BuiltinFacet::LastSeen(value)))
            if *value == Timestamp::new(100)
    )));
}

#[test]
fn beacon_updates_compose_with_core_update_helpers() {
    let beacon = PresenceBeacon::<u64, u64, u64, u64, (), DemoFacet>::new_typed(
        PresenceAddress::new(7, 9, Some(3)),
        11,
    )
    .with_expiry_policy(ExpiryPolicy::After(60));

    let update = beacon
        .heartbeat_at(Timestamp::new(100))
        .set_availability(Availability::Available)
        .set_activity(Activity::Editing)
        .set_extension(DemoFacet::Focus(42));

    assert!(update.changes.iter().any(|change| matches!(
        change,
        FacetChange::Upsert(PresenceFacet::Builtin(BuiltinFacet::Availability(
            Availability::Available
        )))
    )));
    assert!(update.changes.iter().any(|change| matches!(
        change,
        FacetChange::Upsert(PresenceFacet::Builtin(BuiltinFacet::Activity(
            Activity::Editing
        )))
    )));
    assert!(update.changes.iter().any(|change| matches!(
        change,
        FacetChange::Upsert(PresenceFacet::Extension(DemoFacet::Focus(42)))
    )));
    assert!(update.changes.iter().any(|change| matches!(
        change,
        FacetChange::Upsert(PresenceFacet::Builtin(BuiltinFacet::LastSeen(value)))
            if *value == Timestamp::new(100)
    )));
    assert_eq!(DemoFacet::Focus(42).kind(), DemoFacetKind::Focus);
    let _ = PresenceFacetKind::Extension(DemoFacetKind::Focus);
}
