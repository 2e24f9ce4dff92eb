//! The chat client's side of the protocol: building requests, reading
//! replies and notifications, and rendering the local message list. The
//! caller owns the streams and the screen; everything here is bytes in,
//! bytes or lines out.

use crate::chat::login::LoginInput;
use crate::chat::message::{dec_messages, msg_views, Message, MessageV, SendMessageInput};
use crate::chat::user::{dec_user, User};
use crate::chat::{ClientCommand, ServerCommand};
use crate::codec::{enc_str, str_encodable, DecodeError, EncodeError};
use crate::store::trimmed;
use vstd::prelude::*;
use vstd::string::StringExecFns;
use vstd::utf8::{decode_utf8, valid_utf8};

verus! {

/// The bytes of a login exchange request: the login tag, then the trimmed
/// name the peer asks for.
pub fn build_login_request(username: &str) -> (r: Result<Vec<u8>, EncodeError>)
    ensures
        ({
            match r {
                Ok(b) => str_encodable(trimmed(username@)) && b@ == seq![
                    ServerCommand::Login.spec_byte(),
                ] + enc_str(trimmed(username@)),
                Err(e) => !str_encodable(trimmed(username@)) && e == EncodeError::ValueTooLarge,
            }
        }),
{
    let name: String = crate::store::trim_str(username);
    let input = LoginInput::new(name.as_str());
    let mut out: Vec<u8> = Vec::new();
    crate::codec::write_u8(ServerCommand::Login.to_byte(), &mut out);
    match input.write_to(&mut out) {
        Ok(()) => {
            proof {
                crate::codec::lemma_enc_u8_byte(ServerCommand::Login.spec_byte());
                assert(out@ =~= seq![ServerCommand::Login.spec_byte()] + enc_str(
                    trimmed(username@),
                ));
            }
            Ok(out)
        },
        Err(e) => Err(e),
    }
}

/// The bytes of a send-message exchange request: the send-message tag, then
/// the trimmed line of text.
pub fn build_send_message_request(text: &str) -> (r: Result<Vec<u8>, EncodeError>)
    ensures
        ({
            match r {
                Ok(b) => str_encodable(trimmed(text@)) && b@ == seq![
                    ServerCommand::SendMessage.spec_byte(),
                ] + enc_str(trimmed(text@)),
                Err(e) => !str_encodable(trimmed(text@)) && e == EncodeError::ValueTooLarge,
            }
        }),
{
    let line: String = crate::store::trim_str(text);
    let input = SendMessageInput::new(line.as_str());
    let mut out: Vec<u8> = Vec::new();
    crate::codec::write_u8(ServerCommand::SendMessage.to_byte(), &mut out);
    match input.write_to(&mut out) {
        Ok(()) => {
            proof {
                crate::codec::lemma_enc_u8_byte(ServerCommand::SendMessage.spec_byte());
                assert(out@ =~= seq![ServerCommand::SendMessage.spec_byte()] + enc_str(
                    trimmed(text@),
                ));
            }
            Ok(out)
        },
        Err(e) => Err(e),
    }
}

/// What a login exchange came back with.
pub enum LoginReply {
    /// The server accepted and answered with the logged-in identity.
    Accepted(User),
    /// The server refused; the raw text after the error status says why.
    Refused(String),
}

/// Reads the response to a login exchange: a status byte, then the identity
/// on success, or the raw refusal text — read to the end of the stream, no
/// length prefix — on the error status or any unknown status byte.
pub fn parse_login_reply(bytes: &Vec<u8>) -> (r: Result<LoginReply, DecodeError>)
    ensures
        ({
            if bytes@.len() == 0 {
                r == Err::<LoginReply, DecodeError>(DecodeError::UnexpectedEnd)
            } else if bytes@[0] == 0 {
                match dec_user(bytes@, 1) {
                    Ok(d) => r matches Ok(LoginReply::Accepted(u)) && u@ == d.0,
                    Err(e) => r == Err::<LoginReply, DecodeError>(e),
                }
            } else {
                let rest = bytes@.subrange(1, bytes@.len() as int);
                if valid_utf8(rest) {
                    r matches Ok(LoginReply::Refused(t)) && t@ == decode_utf8(rest)
                } else {
                    r == Err::<LoginReply, DecodeError>(DecodeError::InvalidEncoding)
                }
            }
        }),
{
    if bytes.len() == 0 {
        return Err(DecodeError::UnexpectedEnd);
    }
    let status = bytes[0];
    if status == 0 {
        match User::read_from(bytes, 1) {
            Ok((u, _)) => Ok(LoginReply::Accepted(u)),
            Err(e) => Err(e),
        }
    } else {
        let rest: Vec<u8> = crate::codec::copy_range(bytes, 1, bytes.len());
        match crate::codec::vec_to_string(rest) {
            Ok(t) => Ok(LoginReply::Refused(t)),
            Err(e) => Err(e),
        }
    }
}

/// Applies one one-way notification to the local message list. A
/// new-message batch is appended whole, in order; an unknown tag changes
/// nothing and is not an error; a malformed batch changes nothing and
/// reports why.
pub fn apply_notification(messages: &mut Vec<Message>, bytes: &Vec<u8>) -> (r: Result<
    (),
    DecodeError,
>)
    ensures
        ({
            if bytes@.len() == 0 {
                r == Err::<(), DecodeError>(DecodeError::UnexpectedEnd) && final(messages)@ == old(
                    messages,
                )@
            } else if ClientCommand::spec_of_byte(bytes@[0]) == ClientCommand::NewMessage {
                match dec_messages(bytes@, 1) {
                    Ok(d) => r == Ok::<(), DecodeError>(()) && msg_views(final(messages)@)
                        == msg_views(old(messages)@) + d.0,
                    Err(e) => r == Err::<(), DecodeError>(e) && final(messages)@ == old(messages)@,
                }
            } else {
                r == Ok::<(), DecodeError>(()) && final(messages)@ == old(messages)@
            }
        }),
{
    if bytes.len() == 0 {
        return Err(DecodeError::UnexpectedEnd);
    }
    let tag = bytes[0];
    match ClientCommand::from_byte(tag) {
        ClientCommand::NewMessage => {
            let mut batch = match crate::chat::message::read_messages(bytes, 1) {
                Ok(x) => x.0,
                Err(e) => {
                    return Err(e);
                },
            };
            let ghost pre = messages@;
            let ghost incoming = batch@;
            messages.append(&mut batch);
            proof {
                assert(msg_views(messages@) =~= msg_views(pre) + msg_views(incoming));
            }
            Ok(())
        },
        ClientCommand::Unknown => Ok(()),
    }
}

/// The line a message shows as: the sender's name, a separating colon, and
/// the text; a server-authored message is its text alone.
pub open spec fn render_line(m: MessageV) -> Seq<char> {
    match m.sent_by {
        Some(u) => u.username + ": "@ + m.message,
        None => m.message,
    }
}

/// The screen lines for a message list, one per message, in order.
pub fn render_messages(messages: &Vec<Message>) -> (r: Vec<String>)
    ensures
        r@.len() == messages@.len(),
        forall|i: int| 0 <= i < r@.len() ==> (#[trigger] r@[i])@ == render_line(messages@[i]@),
{
    let n = messages.len();
    let mut lines: Vec<String> = Vec::new();
    let mut k: usize = 0;
    while k < n
        invariant
            k <= n,
            n == messages@.len(),
            lines@.len() == k,
            forall|i: int|
                0 <= i < k ==> (#[trigger] lines@[i])@ == render_line(messages@[i]@),
        decreases n - k,
    {
        let m = &messages[k];
        let line: String = match m.sent_by() {
            Some(u) => {
                let mut s: String = u.username().to_owned();
                StringExecFns::append(&mut s, ": ");
                StringExecFns::append(&mut s, m.message());
                s
            },
            None => m.message().to_owned(),
        };
        proof {
            assert(line@ == render_line(messages@[k as int]@));
        }
        lines.push(line);
        k = k + 1;
    }
    lines
}

} // verus!
