# ruthere

`ruthere` answers "who or what is here right now?" for systems where one
subject can be present in several places at once. Publishers send small typed
updates; the store keeps the current per-resource, per-origin state, a retained
change log for watchers, and subject-level summaries.

The library is written in Verus and its behaviour is stated in contracts that
Verus proves.

## Layout

- `src/presence.rs`: addresses, timestamps, expiry, visibility labels, facets,
  updates and snapshots.
- `src/beacon.rs`: `PresenceBeacon` and `ExpiryPolicy`, which build updates for
  one publisher.
- `src/store.rs` and `src/store/`: `InMemoryStore` (reduction, sequencing,
  expiry, compaction, visibility-filtered reads), facet reduction, the retained
  change log, subject projection, watcher cursors, visibility policies, and the
  `hashbrown` indexes. `src/store/model.rs` holds the abstract store state the
  contracts speak of, and `src/store/laws.rs` the proved laws of publishing,
  visibility and expiry.
- `src/server.rs`: `PresenceServer` with the `PresenceIngress` and
  `PresenceWatch` traits.
- `app/main.rs`: a runnable walkthrough that prints a watcher flow.
- `tests/`: scenario tests and concrete checks of the proved laws.

Subjects, contexts, resources and origins are `u64` keys in the store;
visibility labels are any `Copy` type.

The store's indexes from entry keys to entries, and from subjects to
projection groups, are `hashbrown` maps keyed by plain integers, whose
contents the contracts describe as `Map`s. The facets of one entry are kept in
a `Vec` with at most one facet per kind, replaced in place, rather than in a
hash map keyed by facet kind: that kind is the extension's own generic type,
and a hash map's contents can only be described to the verifier for keys of
a fixed, plain type. The same holds for the per-entry state, which is generic
in the label and extension types, so entries live in a `Vec` that the integer
index points into.
