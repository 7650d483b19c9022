use ruthere::{
    Activity, Availability, BuiltinFacet, BuiltinFacetKind, Expiry, ExtensionFacet, FacetChange,
    Never, PresenceAddress, PresenceFacet, PresenceFacetKind, PresenceKey, PresenceSnapshot,
    PresenceUpdate, Timestamp, Visibility,
};

#[derive(Clone, Copy, Debug, Eq, Hash, PartialEq)]
enum DemoFacet {
    Focus(u64),
}

#[derive(Clone, Copy, Debug, Eq, Hash, PartialEq)]
enum DemoFacetKind {
    Focus,
}

impl PresenceKey for DemoFacetKind {
    fn same_key(&self, other: &Self) -> bool {
        self == other
    }
}

impl ExtensionFacet for DemoFacet {
    type Kind = DemoFacetKind;

    fn facet_kind(&self) -> Self::Kind {
        self.kind()
    }

    fn kind(&self) -> Self::Kind {
        match self {
            Self::Focus(..) => DemoFacetKind::Focus,
        }
    }
}

#[test]
fn builtin_facet_reports_its_kind() {
    assert_eq!(
        BuiltinFacet::Availability(Availability::Busy).kind(),
        BuiltinFacetKind::Availability
    );
    assert_eq!(
        BuiltinFacet::Activity(Activity::Editing).kind(),
        BuiltinFacetKind::Activity
    );
    assert_eq!(
        BuiltinFacet::LastSeen(Timestamp::new(9)).kind(),
        BuiltinFacetKind::LastSeen
    );
}

#[test]
fn extension_facet_reports_its_kind() {
    let facet = PresenceFacet::Extension(DemoFacet::Focus(42));

    assert_eq!(
        facet.kind(),
        PresenceFacetKind::Extension(DemoFacetKind::Focus)
    );
}

#[test]
fn expiry_reports_when_deadline_has_elapsed() {
    assert!(!Expiry::Never.is_expired_by(Timestamp::new(10)));
    assert!(!Expiry::At(Timestamp::new(11)).is_expired_by(Timestamp::new(10)));
    assert!(Expiry::At(Timestamp::new(10)).is_expired_by(Timestamp::new(10)));
    assert!(Expiry::At(Timestamp::new(9)).is_expired_by(Timestamp::new(10)));
}

#[test]
fn snapshot_accessors_find_materialized_builtins() {
    let snapshot = PresenceSnapshot::new(
        PresenceAddress::new(1_u64, 7_u64, Some(3_u64)),
        99_u64,
        Visibility::<()>::Public,
        Timestamp::new(12),
        Expiry::At(Timestamp::new(20)),
    )
    .with_facet(PresenceFacet::Builtin(BuiltinFacet::Availability(
        Availability::Available,
    )))
    .with_facet(PresenceFacet::Builtin(BuiltinFacet::Activity(
        Activity::Observing,
    )))
    .with_facet(PresenceFacet::Builtin(BuiltinFacet::LastSeen(
        Timestamp::new(11),
    )))
    .with_facet(PresenceFacet::Extension(DemoFacet::Focus(5)));

    assert_eq!(snapshot.availability(), Some(Availability::Available));
    assert_eq!(snapshot.activity(), Some(Activity::Observing));
    assert_eq!(snapshot.last_seen(), Some(Timestamp::new(11)));
}

#[test]
fn update_builder_preserves_scope_and_changes() {
    let update: PresenceUpdate<u64, u64, u64, u64, &'static str, Never> = PresenceUpdate::new(
        PresenceAddress::new(10_u64, 20_u64, None::<u64>),
        30_u64,
        Visibility::Restricted("team-a"),
        Timestamp::new(40),
        Expiry::Never,
    )
    .with_change(FacetChange::Upsert(PresenceFacet::Builtin(
        BuiltinFacet::Availability(Availability::Away),
    )))
    .with_change(FacetChange::Clear(PresenceFacetKind::Builtin(
        BuiltinFacetKind::LastSeen,
    )));

    assert_eq!(update.address.subject, 10);
    assert_eq!(update.address.context, 20);
    assert_eq!(update.address.resource, None);
    assert_eq!(update.observed_at, Timestamp::new(40));
    assert_eq!(update.changes.len(), 2);
}
