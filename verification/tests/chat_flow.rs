//! The chat session end to end: logins, history replay, fan-out, cleanup.

use chat_protocol::chat_client::{apply_notification, build_login_request,
    build_send_message_request, parse_login_reply, render_messages, LoginReply};
use chat_protocol::chat_server::{handle_disconnect, handle_exchange};
use chat_protocol::chat::message::Message;
use chat_protocol::store::SessionStore;

fn login_as(store: &mut SessionStore<u32>, conn_id: u64, handle: u32, name: &str)
    -> (chat_protocol::chat_server::ExchangeReply<u32>, String) {
    let req = build_login_request(name).unwrap();
    let reply = handle_exchange(store, conn_id, handle, &req);
    let resp = reply.response.clone().expect("login writes a response");
    match parse_login_reply(&resp).unwrap() {
        LoginReply::Accepted(u) => {
            let n = u.username().to_string();
            (reply, n)
        },
        LoginReply::Refused(t) => panic!("login refused: {}", t),
    }
}

#[test]
fn first_login_gets_empty_history_and_no_join_targets() {
    let mut store: SessionStore<u32> = SessionStore::new();
    let (reply, name) = login_as(&mut store, 1, 11, "alice");
    assert_eq!(name, "alice");
    // Replay push first: the new peer alone, with the empty history.
    assert_eq!(reply.pushes.len(), 2);
    assert_eq!(reply.pushes[0].connections.len(), 1);
    assert_eq!(reply.pushes[0].connections[0].0, 1);
    let mut view: Vec<Message> = Vec::new();
    apply_notification(&mut view, &reply.pushes[0].payload).unwrap();
    assert!(view.is_empty());
    // Join announcement second: no prior peers, so no targets.
    assert!(reply.pushes[1].connections.is_empty());
}

#[test]
fn second_login_announces_to_the_first_peer() {
    let mut store: SessionStore<u32> = SessionStore::new();
    login_as(&mut store, 1, 11, "alice");
    let (reply, _) = login_as(&mut store, 2, 22, "bob");
    let join = &reply.pushes[1];
    assert_eq!(join.connections.len(), 1);
    assert_eq!(join.connections[0].0, 1);
    let mut alice_view: Vec<Message> = Vec::new();
    apply_notification(&mut alice_view, &join.payload).unwrap();
    assert_eq!(alice_view.len(), 1);
    assert_eq!(alice_view[0].message(), "bob has entered the chat!");
    assert!(alice_view[0].sent_by().is_none());
}

#[test]
fn duplicate_login_is_refused_with_text() {
    let mut store: SessionStore<u32> = SessionStore::new();
    login_as(&mut store, 1, 11, "alice");
    let req = build_login_request("alice").unwrap();
    let reply = handle_exchange(&mut store, 2, 22, &req);
    let resp = reply.response.unwrap();
    match parse_login_reply(&resp).unwrap() {
        LoginReply::Refused(t) => assert_eq!(t, "Username already used!"),
        LoginReply::Accepted(_) => panic!("duplicate name must be refused"),
    }
    assert!(reply.pushes.is_empty());
}

#[test]
fn send_message_excludes_the_sender_and_reaches_everyone_else() {
    let mut store: SessionStore<u32> = SessionStore::new();
    login_as(&mut store, 1, 11, "alice");
    login_as(&mut store, 2, 22, "bob");
    login_as(&mut store, 3, 33, "carol");
    let req = build_send_message_request("hi").unwrap();
    let reply = handle_exchange(&mut store, 1, 0, &req);
    assert_eq!(reply.response.unwrap(), vec![0]);
    assert_eq!(reply.pushes.len(), 1);
    let fan = &reply.pushes[0];
    let targets: Vec<u64> = fan.connections.iter().map(|p| p.0).collect();
    assert_eq!(targets, vec![2, 3]);
    let mut bob_view: Vec<Message> = Vec::new();
    apply_notification(&mut bob_view, &fan.payload).unwrap();
    assert_eq!(bob_view.len(), 1);
    assert_eq!(bob_view[0].message(), "hi");
    assert_eq!(bob_view[0].sent_by().unwrap().username(), "alice");
}

#[test]
fn send_message_before_login_is_an_error_status() {
    let mut store: SessionStore<u32> = SessionStore::new();
    let req = build_send_message_request("hi").unwrap();
    let reply = handle_exchange(&mut store, 7, 0, &req);
    assert_eq!(reply.response.unwrap(), vec![1]);
    assert!(reply.pushes.is_empty());
}

#[test]
fn history_replay_carries_prior_messages_in_order() {
    let mut store: SessionStore<u32> = SessionStore::new();
    login_as(&mut store, 1, 11, "alice");
    for text in ["one", "two", "three"] {
        let req = build_send_message_request(text).unwrap();
        handle_exchange(&mut store, 1, 0, &req);
    }
    let (reply, _) = login_as(&mut store, 2, 22, "bob");
    let mut bob_view: Vec<Message> = Vec::new();
    apply_notification(&mut bob_view, &reply.pushes[0].payload).unwrap();
    assert_eq!(bob_view.len(), 3);
    assert_eq!(bob_view[0].message(), "one");
    assert_eq!(bob_view[1].message(), "two");
    assert_eq!(bob_view[2].message(), "three");
    assert_eq!(bob_view[0].sent_by().unwrap().username(), "alice");
}

#[test]
fn disconnect_cleans_up_and_announces_exactly_once() {
    let mut store: SessionStore<u32> = SessionStore::new();
    login_as(&mut store, 1, 11, "alice");
    login_as(&mut store, 2, 22, "bob");
    let push = handle_disconnect(&mut store, 1).expect("a logged-in peer leaves loudly");
    let targets: Vec<u64> = push.connections.iter().map(|p| p.0).collect();
    assert_eq!(targets, vec![2]);
    let mut bob_view: Vec<Message> = Vec::new();
    apply_notification(&mut bob_view, &push.payload).unwrap();
    assert_eq!(bob_view.len(), 1);
    assert_eq!(bob_view[0].message(), "alice has left the chat!");
    // The session is gone from both tables.
    assert!(store.lookup(1).is_none());
    assert!(store.snapshot_connections().iter().all(|p| p.0 != 1));
    // A second disconnect of the same connection says nothing.
    assert!(handle_disconnect(&mut store, 1).is_none());
    // The freed name logs in again.
    login_as(&mut store, 3, 33, "alice");
}

#[test]
fn unknown_tag_is_ignored_not_fatal() {
    let mut store: SessionStore<u32> = SessionStore::new();
    login_as(&mut store, 1, 11, "alice");
    let reply = handle_exchange(&mut store, 1, 0, &vec![0x77, 1, 2, 3]);
    assert!(reply.response.is_none());
    assert!(reply.pushes.is_empty());
    // The store is untouched and keeps serving.
    assert_eq!(store.lookup(1).unwrap().username(), "alice");
}

#[test]
fn malformed_login_payload_abandons_only_the_exchange() {
    let mut store: SessionStore<u32> = SessionStore::new();
    // Login tag, then a string length prefix pointing past the input.
    let reply = handle_exchange(&mut store, 1, 11, &vec![0, 0, 50, b'x']);
    assert!(reply.response.is_none());
    assert!(reply.pushes.is_empty());
    assert!(store.lookup(1).is_none());
    // The next, well-formed exchange still works.
    login_as(&mut store, 1, 11, "alice");
}

#[test]
fn rendered_lines_show_sender_prefixes() {
    let msgs = vec![
        Message::new("joined", None),
        Message::new("hi", Some(chat_protocol::chat::user::User::new(1, "alice"))),
    ];
    let lines = render_messages(&msgs);
    assert_eq!(lines.len(), 2);
    assert_eq!(lines[0], "joined");
    assert_eq!(lines[1], "alice: hi");
}

#[test]
fn login_request_trims_the_typed_name() {
    // If trimming changed nothing, the encoded length would count the spaces.
    let b = build_login_request("  bob \n").unwrap();
    assert_eq!(b, vec![0, 0, 3, b'b', b'o', b'b']);
}

#[test]
fn notification_with_unknown_tag_changes_nothing() {
    let mut view: Vec<Message> = vec![Message::new("kept", None)];
    apply_notification(&mut view, &vec![0x50, 1, 2]).unwrap();
    assert_eq!(view.len(), 1);
    assert_eq!(view[0].message(), "kept");
}
