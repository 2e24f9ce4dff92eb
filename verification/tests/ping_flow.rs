//! The ping session end to end: credential login, probes, refusals.

use chat_protocol::ping_client::{build_login_request, build_ping_request, parse_login_reply,
    parse_ping_reply, PingLoginReply};
use chat_protocol::ping_server::{handle_request, PingRegistry};

fn login_ok(reg: &mut PingRegistry) -> u128 {
    let req = build_login_request(String::from("test"), String::from("test")).unwrap();
    let resp = handle_request(reg, &req).expect("login answers");
    match parse_login_reply(&resp).unwrap() {
        PingLoginReply::Accepted(id) => id,
        PingLoginReply::Refused(t) => panic!("refused: {}", t),
    }
}

#[test]
fn good_credentials_are_issued_a_session() {
    let mut reg = PingRegistry::new();
    let id = login_ok(&mut reg);
    assert!(reg.contains(id));
}

#[test]
fn wrong_credentials_are_refused_with_text() {
    let mut reg = PingRegistry::new();
    let req = build_login_request(String::from("test"), String::from("wrong")).unwrap();
    let resp = handle_request(&mut reg, &req).unwrap();
    match parse_login_reply(&resp).unwrap() {
        PingLoginReply::Refused(t) => assert_eq!(t, "Invalid username or password."),
        PingLoginReply::Accepted(_) => panic!("wrong password must be refused"),
    }
}

#[test]
fn ping_echoes_the_iteration_for_a_known_session() {
    let mut reg = PingRegistry::new();
    let id = login_ok(&mut reg);
    for j in [0u32, 1, 41, u32::MAX] {
        let req = build_ping_request(id, j);
        let resp = handle_request(&mut reg, &req).unwrap();
        assert_eq!(resp[0], 0);
        assert_eq!(parse_ping_reply(&resp).unwrap(), j);
    }
}

#[test]
fn ping_with_unknown_session_is_an_error_status() {
    let mut reg = PingRegistry::new();
    login_ok(&mut reg);
    let req = build_ping_request(0x1234_5678, 7);
    let resp = handle_request(&mut reg, &req).unwrap();
    assert_eq!(resp, vec![1]);
}

#[test]
fn unknown_command_tag_is_ignored() {
    let mut reg = PingRegistry::new();
    assert!(handle_request(&mut reg, &vec![0x09, 1, 2, 3]).is_none());
    assert!(handle_request(&mut reg, &Vec::new()).is_none());
}

#[test]
fn malformed_ping_payload_abandons_the_exchange() {
    let mut reg = PingRegistry::new();
    let id = login_ok(&mut reg);
    // Ping tag, then too few bytes for an identifier and counter.
    assert!(handle_request(&mut reg, &vec![0x02, 1, 2, 3]).is_none());
    // The registry still answers afterwards.
    let resp = handle_request(&mut reg, &build_ping_request(id, 1)).unwrap();
    assert_eq!(parse_ping_reply(&resp).unwrap(), 1);
}

#[test]
fn two_logins_get_two_live_sessions() {
    let mut reg = PingRegistry::new();
    let a = login_ok(&mut reg);
    let b = login_ok(&mut reg);
    assert!(reg.contains(a));
    assert!(reg.contains(b));
}
