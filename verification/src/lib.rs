//! Scoped, time-sensitive presence facts with a verified in-memory store.
//!
//! The crate is organised in four layers:
//!
//! - [`presence`]: the semantic vocabulary (addresses, timestamps, expiry,
//!   visibility labels, facets, updates and snapshots).
//! - [`beacon`]: write-side helpers that build updates for one publisher.
//! - [`store`]: the in-memory reduction, retained change log, expiry,
//!   visibility-filtered reads, subject projection and watcher cursors.
//! - [`server`]: a process-local ingest and watch seam over the store.

pub mod beacon;
pub mod presence;
pub mod server;
pub mod store;

pub use beacon::{ExpiryPolicy, PresenceBeacon};
pub use presence::{
    Activity, Availability, BuiltinFacet, BuiltinFacetKind, Expiry, ExtensionFacet, FacetChange,
    Never, PresenceAddress, PresenceFacet, PresenceFacetKind, PresenceKey, PresenceSnapshot,
    PresenceUpdate, Timestamp, Visibility,
};
pub use server::{PresenceIngress, PresenceServer, PresenceWatch};
pub use store::change::{StoreChange, StoreChangeKind, StoreExpired};
pub use store::cursor::WatcherCursor;
pub use store::projection::{
    DefaultSubjectProjectionPolicy, SubjectPresenceSummary, SubjectProjectionPolicy,
};
pub use store::retained::{RetainedGap, RetainedResult, RetainedStatus};
pub use store::visibility::{AllowAll, LabelAllowlist, PublicOnly, VisibilityPolicy};
pub use store::{
    EntryKey, InMemoryStore, PresenceEntryKey, RetainedChanges, StoreAddress, StoreSnapshot,
    StoreUpdate,
};
