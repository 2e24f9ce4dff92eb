//! The session store: registration, uniqueness, cleanup, snapshots.

use chat_protocol::chat::message::Message;
use chat_protocol::store::SessionStore;

#[test]
fn register_issues_identity_under_connection_key() {
    let mut store: SessionStore<u32> = SessionStore::new();
    let u = store.register("alice", 1, 11).unwrap();
    assert_eq!(u.username(), "alice");
    let found = store.lookup(1).unwrap();
    assert_eq!(found.username(), "alice");
    assert_eq!(found.client_id(), u.client_id());
    assert!(store.lookup(2).is_none());
}

#[test]
fn duplicate_name_is_refused_and_table_unchanged() {
    let mut store: SessionStore<u32> = SessionStore::new();
    store.register("alice", 1, 11).unwrap();
    assert!(store.register("alice", 2, 22).is_err());
    assert!(store.lookup(2).is_none());
    assert_eq!(store.snapshot_connections().len(), 1);
}

#[test]
fn names_are_compared_after_trimming() {
    let mut store: SessionStore<u32> = SessionStore::new();
    let u = store.register("  alice  ", 1, 11).unwrap();
    assert_eq!(u.username(), "alice");
    // The padded spelling collides with the trimmed one already registered.
    assert!(store.register("alice", 2, 22).is_err());
    assert!(store.register(" alice ", 3, 33).is_err());
    assert!(store.register("alicia", 2, 22).is_ok());
}

#[test]
fn unregister_removes_both_tables_and_is_idempotent() {
    let mut store: SessionStore<u32> = SessionStore::new();
    store.register("alice", 1, 11).unwrap();
    store.register("bob", 2, 22).unwrap();
    let removed = store.unregister(1).unwrap();
    assert_eq!(removed.username(), "alice");
    assert!(store.lookup(1).is_none());
    let snap = store.snapshot_connections();
    assert_eq!(snap.len(), 1);
    assert_eq!(snap[0].0, 2);
    assert!(store.unregister(1).is_none());
    // The freed name can be taken again.
    assert!(store.register("alice", 3, 33).is_ok());
}

#[test]
fn snapshot_lists_connections_in_registration_order() {
    let mut store: SessionStore<u32> = SessionStore::new();
    store.register("a", 5, 50).unwrap();
    store.register("b", 3, 30).unwrap();
    store.register("c", 9, 90).unwrap();
    let snap = store.snapshot_connections();
    let ids: Vec<u64> = snap.iter().map(|p| p.0).collect();
    let handles: Vec<u32> = snap.iter().map(|p| p.1).collect();
    assert_eq!(ids, vec![5, 3, 9]);
    assert_eq!(handles, vec![50, 30, 90]);
}

#[test]
fn fanout_snapshot_excludes_only_the_given_connection() {
    let mut store: SessionStore<u32> = SessionStore::new();
    store.register("a", 5, 50).unwrap();
    store.register("b", 3, 30).unwrap();
    store.register("c", 9, 90).unwrap();
    let snap = store.fanout_snapshot(3);
    let ids: Vec<u64> = snap.iter().map(|p| p.0).collect();
    assert_eq!(ids, vec![5, 9]);
}

#[test]
fn relogin_on_same_connection_replaces_the_entry() {
    let mut store: SessionStore<u32> = SessionStore::new();
    store.register("alice", 1, 11).unwrap();
    let u = store.register("alicia", 1, 12).unwrap();
    assert_eq!(u.username(), "alicia");
    assert_eq!(store.lookup(1).unwrap().username(), "alicia");
    assert_eq!(store.snapshot_connections().len(), 1);
    // The replaced name is free again.
    assert!(store.register("alice", 2, 22).is_ok());
}

#[test]
fn history_grows_by_appending_and_snapshots_in_order() {
    let mut store: SessionStore<u32> = SessionStore::new();
    assert!(store.history_snapshot().is_empty());
    store.append_history(Message::new("one", None));
    store.append_history(Message::new("two", None));
    let h = store.history_snapshot();
    assert_eq!(h.len(), 2);
    assert_eq!(h[0].message(), "one");
    assert_eq!(h[1].message(), "two");
}
