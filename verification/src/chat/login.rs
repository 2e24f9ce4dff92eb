//! The login request and response of the chat protocol.

use crate::codec::{dec_str, dec_u128, enc_str, enc_u128, lemma_dec_enc_str, lemma_dec_enc_u128,
    str_encodable, DecodeError, EncodeError};
use vstd::prelude::*;

verus! {

/// The request that opens a session: the display name the peer asks for.
pub struct LoginInput {
    username: String,
}

/// A login request travels as its name text.
pub open spec fn enc_login_input(username: Seq<char>) -> Seq<u8> {
    enc_str(username)
}

pub open spec fn dec_login_input(input: Seq<u8>, pos: int) -> Result<(Seq<char>, int),
    DecodeError> {
    dec_str(input, pos)
}

impl View for LoginInput {
    type V = Seq<char>;

    closed spec fn view(&self) -> Seq<char> {
        self.username@
    }
}

impl LoginInput {
    pub fn new(username: &str) -> (r: LoginInput)
        ensures
            r@ == username@,
    {
        LoginInput { username: username.to_owned() }
    }

    pub fn username(&self) -> (r: &str)
        ensures
            r@ == self@,
    {
        self.username.as_str()
    }

    pub fn write_to(&self, out: &mut Vec<u8>) -> (r: Result<(), EncodeError>)
        ensures
            str_encodable(self@) ==> r == Ok::<(), EncodeError>(()) && final(out)@ == old(out)@
                + enc_login_input(self@),
            !str_encodable(self@) ==> r == Err::<(), EncodeError>(EncodeError::ValueTooLarge)
                && final(out)@ == old(out)@,
    {
        crate::codec::write_string(&self.username, out)
    }

    pub fn read_from(input: &Vec<u8>, pos: usize) -> (r: Result<(LoginInput, usize), DecodeError>)
        ensures
            ({
                match (r, dec_login_input(input@, pos as int)) {
                    (Ok(o), Ok(d)) => o.0@ == d.0 && o.1 as int == d.1,
                    (Err(e), Err(d)) => e == d,
                    _ => false,
                }
            }),
    {
        match crate::codec::read_string(input, pos) {
            Ok((s, end)) => Ok((LoginInput { username: s }, end)),
            Err(e) => Err(e),
        }
    }
}

/// Decoding the encoding of any login request yields exactly that request.
pub proof fn lemma_dec_enc_login_input(input: Seq<u8>, pos: int, username: Seq<char>)
    requires
        0 <= pos,
        str_encodable(username),
        pos + enc_login_input(username).len() <= input.len(),
        input.subrange(pos, pos + enc_login_input(username).len()) == enc_login_input(username),
    ensures
        dec_login_input(input, pos) == Ok::<(Seq<char>, int), DecodeError>((
            username,
            pos + enc_login_input(username).len(),
        )),
{
    lemma_dec_enc_str(input, pos, username);
}

/// The response to a successful login: the session identifier the server
/// issued.
pub struct LoginOutput {
    client_id: u128,
}

/// A login response travels as its sixteen-byte identifier.
pub open spec fn enc_login_output(client_id: u128) -> Seq<u8> {
    enc_u128(client_id)
}

pub open spec fn dec_login_output(input: Seq<u8>, pos: int) -> Result<(u128, int), DecodeError> {
    dec_u128(input, pos)
}

impl View for LoginOutput {
    type V = u128;

    closed spec fn view(&self) -> u128 {
        self.client_id
    }
}

impl LoginOutput {
    pub fn new(client_id: u128) -> (r: LoginOutput)
        ensures
            r@ == client_id,
    {
        LoginOutput { client_id }
    }

    pub fn client_id(&self) -> (r: u128)
        ensures
            r == self@,
    {
        self.client_id
    }

    pub fn write_to(&self, out: &mut Vec<u8>)
        ensures
            final(out)@ == old(out)@ + enc_login_output(self@),
    {
        crate::codec::write_u128(self.client_id, out);
    }

    pub fn read_from(input: &Vec<u8>, pos: usize) -> (r: Result<(LoginOutput, usize), DecodeError>)
        ensures
            ({
                match (r, dec_login_output(input@, pos as int)) {
                    (Ok(o), Ok(d)) => o.0@ == d.0 && o.1 as int == d.1,
                    (Err(e), Err(d)) => e == d,
                    _ => false,
                }
            }),
    {
        match crate::codec::read_u128(input, pos) {
            Ok((v, end)) => Ok((LoginOutput { client_id: v }, end)),
            Err(e) => Err(e),
        }
    }
}

/// Decoding the encoding of any login response yields exactly that response.
pub proof fn lemma_dec_enc_login_output(input: Seq<u8>, pos: int, client_id: u128)
    requires
        0 <= pos,
        pos + 16 <= input.len(),
        input.subrange(pos, pos + 16) == enc_login_output(client_id),
    ensures
        dec_login_output(input, pos) == Ok::<(u128, int), DecodeError>((client_id, pos + 16)),
{
    lemma_dec_enc_u128(input, pos, client_id);
}

} // verus!
