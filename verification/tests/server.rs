use ruthere::{
    Activity, Availability, Expiry, LabelAllowlist, PresenceAddress, PresenceIngress,
    PresenceServer, PresenceUpdate, PresenceWatch, PublicOnly, StoreChange, Timestamp,
    VisibilityPolicy, Visibility, WatcherCursor,
};

fn receive_through_ingress<S>(
    server: &mut S,
    update: PresenceUpdate<u64, u64, u64, u64, &'static str>,
) -> u64
where
    S: PresenceIngress<&'static str>,
{
    server.receive(update)
}

fn poll_visible_through_watch<S, P>(
    server: &S,
    cursor: &mut WatcherCursor,
    visibility: &P,
) -> Vec<StoreChange<&'static str>>
where
    S: PresenceWatch<&'static str>,
    P: VisibilityPolicy<&'static str>,
{
    server
        .poll_visible(cursor, visibility)
        .expect("retained changes")
}

#[test]
fn server_receives_updates_and_expires_entries() {
    let mut server = PresenceServer::<&'static str>::new();

    let sequence = receive_through_ingress(
        &mut server,
        PresenceUpdate::new(
            PresenceAddress::new(7, 9, Some(3)),
            11,
            Visibility::Restricted("members"),
            Timestamp::new(100),
            Expiry::At(Timestamp::new(160)),
        )
        .set_availability(Availability::Available),
    );

    assert_eq!(sequence, 1);
    assert_eq!(server.len(), 1);
    assert_eq!(server.last_sequence(), 1);

    let removed = server.expire(Timestamp::new(160));

    assert_eq!(removed, 1);
    assert!(server.is_empty());
    assert_eq!(server.last_sequence(), 2);
}

#[test]
fn server_polls_visible_changes_through_watchers() {
    let mut server = PresenceServer::<&'static str>::new();
    let member_view = LabelAllowlist::new(vec!["members"]);
    let public_only = PublicOnly;

    receive_through_ingress(
        &mut server,
        PresenceUpdate::new(
            PresenceAddress::new(7, 9, Some(3)),
            11,
            Visibility::Restricted("members"),
            Timestamp::new(100),
            Expiry::At(Timestamp::new(160)),
        )
        .set_activity(Activity::Editing),
    );
    receive_through_ingress(
        &mut server,
        PresenceUpdate::new(
            PresenceAddress::new(8, 9, Some(4)),
            12,
            Visibility::Public,
            Timestamp::new(101),
            Expiry::Never,
        )
        .set_availability(Availability::Available),
    );

    let mut member_cursor =
        <PresenceServer<&'static str> as PresenceWatch<&'static str>>::watcher_cursor(&server);
    let mut public_cursor = server.watcher_cursor();

    assert!(
        <PresenceServer<&'static str> as PresenceWatch<&'static str>>::has_pending_visible(
            &server,
            member_cursor,
            &member_view
        )
    );
    assert!(server.has_pending_visible(public_cursor, &public_only));

    let member_changes = poll_visible_through_watch(&server, &mut member_cursor, &member_view);
    let public_changes = server
        .poll_visible(&mut public_cursor, &public_only)
        .expect("retained changes");

    assert_eq!(member_changes.len(), 2);
    assert_eq!(public_changes.len(), 1);
    assert_eq!(member_cursor.sequence(), 2);
    assert_eq!(public_cursor.sequence(), 2);
    assert!(!server.has_pending_visible(member_cursor, &member_view));
    assert!(!server.has_pending_visible(public_cursor, &public_only));
}

#[test]
fn watcher_cursor_from_current_starts_at_tail() {
    let mut server = PresenceServer::<()>::new();

    server.receive(
        PresenceUpdate::new(
            PresenceAddress::new(7, 9, Some(3)),
            11,
            Visibility::Public,
            Timestamp::new(100),
            Expiry::Never,
        )
        .set_activity(Activity::Observing),
    );

    let mut cursor = server.watcher_cursor_from_current();
    let changes = server.poll(&mut cursor).expect("retained changes");

    assert!(changes.is_empty());
    assert_eq!(cursor.sequence(), 1);
}
