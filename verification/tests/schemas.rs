//! Round trips for every schema type and the command tag spaces.

use chat_protocol::chat::login::{LoginInput, LoginOutput};
use chat_protocol::chat::message::{read_messages, write_messages, Message, SendMessageInput};
use chat_protocol::chat::user::{read_opt_user, write_opt_user, User};
use chat_protocol::chat::{ClientCommand, ServerCommand, ServerResponse};
use chat_protocol::codec::DecodeError;
use chat_protocol::ping::{Command, LoginInput as PingLogin, LoginOutput as PingLoginOut, PingInput,
    PingOutput};

#[test]
fn user_round_trip() {
    let u = User::new(0xdead_beef_0000_0001, "alice");
    assert_eq!(u.username(), "alice");
    assert_eq!(u.client_id(), 0xdead_beef_0000_0001);
    let mut b: Vec<u8> = Vec::new();
    u.write_to(&mut b).unwrap();
    assert_eq!(b.len(), 16 + 2 + 5);
    let (back, end) = User::read_from(&b, 0).unwrap();
    assert_eq!(back.username(), "alice");
    assert_eq!(back.client_id(), 0xdead_beef_0000_0001);
    assert_eq!(end, b.len());
}

#[test]
fn absent_optional_user_is_one_zero_byte() {
    let mut b: Vec<u8> = Vec::new();
    write_opt_user(&None, &mut b).unwrap();
    assert_eq!(b, vec![0]);
    let (back, end) = read_opt_user(&b, 0).unwrap();
    assert!(back.is_none());
    assert_eq!(end, 1);
}

#[test]
fn present_optional_user_round_trip() {
    let mut b: Vec<u8> = Vec::new();
    write_opt_user(&Some(User::new(7, "bob")), &mut b).unwrap();
    assert_eq!(b[0], 1);
    let (back, _) = read_opt_user(&b, 0).unwrap();
    assert_eq!(back.unwrap().username(), "bob");
}

#[test]
fn unknown_presence_flag_reads_as_absence() {
    // Only 0x01 announces presence; any other flag byte is absence.
    let b: Vec<u8> = vec![2, 9, 9, 9];
    let (back, end) = read_opt_user(&b, 0).unwrap();
    assert!(back.is_none());
    assert_eq!(end, 1);
}

#[test]
fn message_round_trip_with_sender() {
    let m = Message::new("hi there", Some(User::new(3, "carol")));
    let mut b: Vec<u8> = Vec::new();
    m.write_to(&mut b).unwrap();
    let (back, end) = Message::read_from(&b, 0).unwrap();
    assert_eq!(back.message(), "hi there");
    assert_eq!(back.sent_by().unwrap().username(), "carol");
    assert_eq!(back.sent_by().unwrap().client_id(), 3);
    assert_eq!(end, b.len());
}

#[test]
fn message_round_trip_without_sender() {
    let m = Message::new("server notice", None);
    let mut b: Vec<u8> = Vec::new();
    m.write_to(&mut b).unwrap();
    let (back, _) = Message::read_from(&b, 0).unwrap();
    assert_eq!(back.message(), "server notice");
    assert!(back.sent_by().is_none());
}

#[test]
fn empty_message_batch_is_a_zero_count() {
    let batch: Vec<Message> = Vec::new();
    let mut b: Vec<u8> = Vec::new();
    write_messages(&batch, &mut b).unwrap();
    assert_eq!(b, vec![0, 0, 0, 0]);
    let (back, end) = read_messages(&b, 0).unwrap();
    assert!(back.is_empty());
    assert_eq!(end, 4);
}

#[test]
fn message_batch_round_trip_keeps_order() {
    let batch = vec![
        Message::new("first", None),
        Message::new("second", Some(User::new(1, "a"))),
        Message::new("third", None),
    ];
    let mut b: Vec<u8> = Vec::new();
    write_messages(&batch, &mut b).unwrap();
    let (back, end) = read_messages(&b, 0).unwrap();
    assert_eq!(end, b.len());
    assert_eq!(back.len(), 3);
    assert_eq!(back[0].message(), "first");
    assert_eq!(back[1].message(), "second");
    assert_eq!(back[1].sent_by().unwrap().username(), "a");
    assert_eq!(back[2].message(), "third");
}

#[test]
fn truncated_message_batch_is_unexpected_end() {
    // The count announces one message, but no message follows.
    let b: Vec<u8> = vec![0, 0, 0, 1];
    match read_messages(&b, 0) {
        Err(e) => assert_eq!(e, DecodeError::UnexpectedEnd),
        Ok(_) => panic!("a truncated batch must be rejected"),
    }
}

#[test]
fn chat_login_input_round_trip() {
    let input = LoginInput::new("dave");
    assert_eq!(input.username(), "dave");
    let mut b: Vec<u8> = Vec::new();
    input.write_to(&mut b).unwrap();
    let (back, _) = LoginInput::read_from(&b, 0).unwrap();
    assert_eq!(back.username(), "dave");
}

#[test]
fn chat_login_output_round_trip() {
    let out = LoginOutput::new(42);
    assert_eq!(out.client_id(), 42);
    let mut b: Vec<u8> = Vec::new();
    out.write_to(&mut b);
    assert_eq!(b.len(), 16);
    let (back, _) = LoginOutput::read_from(&b, 0).unwrap();
    assert_eq!(back.client_id(), 42);
}

#[test]
fn send_message_input_round_trip() {
    let input = SendMessageInput::new("a line");
    assert_eq!(input.message(), "a line");
    let mut b: Vec<u8> = Vec::new();
    input.write_to(&mut b).unwrap();
    let (back, _) = SendMessageInput::read_from(&b, 0).unwrap();
    assert_eq!(back.message(), "a line");
}

#[test]
fn server_command_tags() {
    assert_eq!(ServerCommand::Login.to_byte(), 0);
    assert_eq!(ServerCommand::SendMessage.to_byte(), 1);
    assert_eq!(ServerCommand::from_byte(0), ServerCommand::Login);
    assert_eq!(ServerCommand::from_byte(1), ServerCommand::SendMessage);
    assert_eq!(ServerCommand::from_byte(2), ServerCommand::Unknown);
    assert_eq!(ServerCommand::from_byte(0xff), ServerCommand::Unknown);
}

#[test]
fn client_command_tags() {
    assert_eq!(ClientCommand::NewMessage.to_byte(), 0);
    assert_eq!(ClientCommand::from_byte(0), ClientCommand::NewMessage);
    assert_eq!(ClientCommand::from_byte(77), ClientCommand::Unknown);
}

#[test]
fn server_response_tags() {
    assert_eq!(ServerResponse::Success.to_byte(), 0);
    assert_eq!(ServerResponse::Error.to_byte(), 1);
    assert_eq!(ServerResponse::from_byte(0), Some(ServerResponse::Success));
    assert_eq!(ServerResponse::from_byte(1), Some(ServerResponse::Error));
    assert_eq!(ServerResponse::from_byte(9), None);
}

#[test]
fn ping_schema_round_trips() {
    let li = PingLogin::new(String::from("test"), String::from("secret"));
    assert_eq!(li.username(), "test");
    assert_eq!(li.password(), "secret");
    let mut b: Vec<u8> = Vec::new();
    li.write_to(&mut b).unwrap();
    let (back, _) = PingLogin::read_from(&b, 0).unwrap();
    assert_eq!(back.username(), "test");
    assert_eq!(back.password(), "secret");

    let lo = PingLoginOut::new(99);
    let mut b2: Vec<u8> = Vec::new();
    lo.write_to(&mut b2);
    assert_eq!(PingLoginOut::read_from(&b2, 0).unwrap().0.client_id(), 99);

    let pi = PingInput::new(5, 17);
    assert_eq!(pi.client_id(), 5);
    assert_eq!(pi.iteration(), 17);
    let mut b3: Vec<u8> = Vec::new();
    pi.write_to(&mut b3);
    assert_eq!(b3.len(), 20);
    let (back, _) = PingInput::read_from(&b3, 0).unwrap();
    assert_eq!(back.client_id(), 5);
    assert_eq!(back.iteration(), 17);

    let po = PingOutput::new(17);
    assert_eq!(po.iteration(), 17);
    let mut b4: Vec<u8> = Vec::new();
    po.write_to(&mut b4);
    assert_eq!(PingOutput::read_from(&b4, 0).unwrap().0.iteration(), 17);

    assert_eq!(Command::Login.to_byte(), 0x01);
    assert_eq!(Command::Ping.to_byte(), 0x02);
    assert_eq!(Command::from_byte(0x01), Command::Login);
    assert_eq!(Command::from_byte(0x02), Command::Ping);
    assert_eq!(Command::from_byte(0x03), Command::Unknown);
}
