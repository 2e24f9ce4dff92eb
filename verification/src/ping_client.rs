//! The ping client's side of the protocol: building the credential login
//! and the probes, and reading the answers back. The caller owns the
//! streams and the retry loop.

use crate::codec::{DecodeError, EncodeError};
use crate::ping::{dec_login_output, dec_ping_output, enc_login_input, enc_ping_input, Command,
    LoginInput, LoginInputV, PingInput, PingInputV};
use vstd::prelude::*;
use vstd::utf8::{decode_utf8, valid_utf8};

verus! {

/// The bytes of a login exchange request: the login tag, then the
/// credentials.
pub fn build_login_request(username: String, password: String) -> (r: Result<
    Vec<u8>,
    EncodeError,
>)
    ensures
        ({
            let v = LoginInputV { username: username@, password: password@ };
            match r {
                Ok(b) => crate::ping::login_input_encodable(v) && b@ == seq![
                    Command::Login.spec_byte(),
                ] + enc_login_input(v),
                Err(e) => !crate::ping::login_input_encodable(v) && e
                    == EncodeError::ValueTooLarge,
            }
        }),
{
    let ghost v = LoginInputV { username: username@, password: password@ };
    let input = LoginInput::new(username, password);
    let mut out: Vec<u8> = Vec::new();
    crate::codec::write_u8(Command::Login.to_byte(), &mut out);
    match input.write_to(&mut out) {
        Ok(()) => {
            proof {
                crate::codec::lemma_enc_u8_byte(Command::Login.spec_byte());
                assert(out@ =~= seq![Command::Login.spec_byte()] + enc_login_input(v));
            }
            Ok(out)
        },
        Err(e) => Err(e),
    }
}

/// The bytes of a probe: the ping tag, then the session identifier and the
/// sequence counter. A probe is fixed-width and always fits.
pub fn build_ping_request(client_id: u128, iteration: u32) -> (r: Vec<u8>)
    ensures
        r@ == seq![Command::Ping.spec_byte()] + enc_ping_input(
            PingInputV { client_id, iteration },
        ),
{
    let input = PingInput::new(client_id, iteration);
    let mut out: Vec<u8> = Vec::new();
    crate::codec::write_u8(Command::Ping.to_byte(), &mut out);
    input.write_to(&mut out);
    proof {
        crate::codec::lemma_enc_u8_byte(Command::Ping.spec_byte());
        assert(out@ =~= seq![Command::Ping.spec_byte()] + enc_ping_input(
            PingInputV { client_id, iteration },
        ));
    }
    out
}

/// What a credential login came back with.
pub enum PingLoginReply {
    /// The issued session identifier.
    Accepted(u128),
    /// The raw refusal text that followed the error status.
    Refused(String),
}

/// Reads the response to a credential login: a status byte, then the
/// identifier on success, or the raw refusal text — read to the end of the
/// stream — on any other status.
pub fn parse_login_reply(bytes: &Vec<u8>) -> (r: Result<PingLoginReply, DecodeError>)
    ensures
        ({
            if bytes@.len() == 0 {
                r == Err::<PingLoginReply, DecodeError>(DecodeError::UnexpectedEnd)
            } else if bytes@[0] == 0 {
                match dec_login_output(bytes@, 1) {
                    Ok(d) => r matches Ok(PingLoginReply::Accepted(id)) && id == d.0,
                    Err(e) => r == Err::<PingLoginReply, DecodeError>(e),
                }
            } else {
                let rest = bytes@.subrange(1, bytes@.len() as int);
                if valid_utf8(rest) {
                    r matches Ok(PingLoginReply::Refused(t)) && t@ == decode_utf8(rest)
                } else {
                    r == Err::<PingLoginReply, DecodeError>(DecodeError::InvalidEncoding)
                }
            }
        }),
{
    if bytes.len() == 0 {
        return Err(DecodeError::UnexpectedEnd);
    }
    let status = bytes[0];
    if status == 0 {
        match crate::codec::read_u128(bytes, 1) {
            Ok((id, _)) => Ok(PingLoginReply::Accepted(id)),
            Err(e) => Err(e),
        }
    } else {
        let rest: Vec<u8> = crate::codec::copy_range(bytes, 1, bytes.len());
        match crate::codec::vec_to_string(rest) {
            Ok(t) => Ok(PingLoginReply::Refused(t)),
            Err(e) => Err(e),
        }
    }
}

/// Reads the answer to a probe: a status byte — whose value the prober does
/// not act on — then the echoed counter.
pub fn parse_ping_reply(bytes: &Vec<u8>) -> (r: Result<u32, DecodeError>)
    ensures
        ({
            if bytes@.len() == 0 {
                r == Err::<u32, DecodeError>(DecodeError::UnexpectedEnd)
            } else {
                match dec_ping_output(bytes@, 1) {
                    Ok(d) => r == Ok::<u32, DecodeError>(d.0),
                    Err(e) => r == Err::<u32, DecodeError>(e),
                }
            }
        }),
{
    if bytes.len() == 0 {
        return Err(DecodeError::UnexpectedEnd);
    }
    match crate::codec::read_u32(bytes, 1) {
        Ok((it, _)) => Ok(it),
        Err(e) => Err(e),
    }
}

} // verus!
