//! The ping protocol: a credential login followed by request/response
//! liveness probes, each exchange echoing a sequence counter.

use crate::codec::{dec_str, dec_u128, dec_u32, enc_str, enc_u128, enc_u32, lemma_dec_enc_str,
    lemma_dec_enc_u128, lemma_dec_enc_u32, lemma_subrange_split, str_encodable, DecodeError,
    EncodeError};
use vstd::prelude::*;

verus! {

/// A command tag sent from a client to the server. An out-of-range byte maps
/// to `Unknown`, which the server ignores for that exchange.
#[derive(Clone, Copy, Debug, PartialEq, Eq, Structural)]
pub enum Command {
    /// Input: a credential login request. Output: the session identifier.
    Login,
    /// Input: an identifier and a counter. Output: the counter echoed.
    Ping,
    Unknown,
}

impl Command {
    pub open spec fn spec_byte(self) -> u8 {
        match self {
            Command::Login => 0x01,
            Command::Ping => 0x02,
            Command::Unknown => 0xff,
        }
    }

    pub open spec fn spec_of_byte(b: u8) -> Command {
        if b == 0x01 {
            Command::Login
        } else if b == 0x02 {
            Command::Ping
        } else {
            Command::Unknown
        }
    }

    pub fn to_byte(&self) -> (b: u8)
        ensures
            b == self.spec_byte(),
    {
        match self {
            Command::Login => 0x01,
            Command::Ping => 0x02,
            Command::Unknown => 0xff,
        }
    }

    pub fn from_byte(b: u8) -> (c: Command)
        ensures
            c == Command::spec_of_byte(b),
    {
        if b == 0x01 {
            Command::Login
        } else if b == 0x02 {
            Command::Ping
        } else {
            Command::Unknown
        }
    }
}

/// Reading back the byte of any command tag yields that tag.
pub proof fn lemma_command_round_trip(c: Command)
    ensures
        Command::spec_of_byte(c.spec_byte()) == c,
{
}

/// The credentials a client logs in with.
pub struct LoginInput {
    username: String,
    password: String,
}

/// The mathematical image of a [`LoginInput`].
pub struct LoginInputV {
    pub username: Seq<char>,
    pub password: Seq<char>,
}

impl View for LoginInput {
    type V = LoginInputV;

    closed spec fn view(&self) -> LoginInputV {
        LoginInputV { username: self.username@, password: self.password@ }
    }
}

pub open spec fn login_input_encodable(v: LoginInputV) -> bool {
    str_encodable(v.username) && str_encodable(v.password)
}

/// A credential login travels as the name text followed by the password
/// text.
pub open spec fn enc_login_input(v: LoginInputV) -> Seq<u8> {
    enc_str(v.username) + enc_str(v.password)
}

pub open spec fn dec_login_input(input: Seq<u8>, pos: int) -> Result<(LoginInputV, int),
    DecodeError> {
    match dec_str(input, pos) {
        Ok(d) => match dec_str(input, d.1) {
            Ok(e) => Ok((LoginInputV { username: d.0, password: e.0 }, e.1)),
            Err(err) => Err(err),
        },
        Err(err) => Err(err),
    }
}

impl LoginInput {
    pub fn new(username: String, password: String) -> (r: LoginInput)
        ensures
            r@ == (LoginInputV { username: username@, password: password@ }),
    {
        LoginInput { username, password }
    }

    pub fn username(&self) -> (r: &str)
        ensures
            r@ == self@.username,
    {
        self.username.as_str()
    }

    pub fn password(&self) -> (r: &str)
        ensures
            r@ == self@.password,
    {
        self.password.as_str()
    }

    pub fn write_to(&self, out: &mut Vec<u8>) -> (r: Result<(), EncodeError>)
        ensures
            login_input_encodable(self@) ==> r == Ok::<(), EncodeError>(()) && final(out)@ == old(
                out,
            )@ + enc_login_input(self@),
            !login_input_encodable(self@) ==> r == Err::<(), EncodeError>(
                EncodeError::ValueTooLarge,
            ) && final(out)@ == old(out)@,
    {
        let mut buf: Vec<u8> = Vec::new();
        match crate::codec::write_string(&self.username, &mut buf) {
            Ok(()) => (),
            Err(e) => {
                return Err(e);
            },
        }
        match crate::codec::write_string(&self.password, &mut buf) {
            Ok(()) => (),
            Err(e) => {
                return Err(e);
            },
        }
        out.append(&mut buf);
        proof {
            assert(final(out)@ =~= old(out)@ + enc_login_input(self@));
        }
        Ok(())
    }

    pub fn read_from(input: &Vec<u8>, pos: usize) -> (r: Result<(LoginInput, usize), DecodeError>)
        ensures
            ({
                match (r, dec_login_input(input@, pos as int)) {
                    (Ok(o), Ok(d)) => o.0@ == d.0 && o.1 as int == d.1,
                    (Err(e), Err(d)) => e == d,
                    _ => false,
                }
            }),
    {
        let (username, p) = match crate::codec::read_string(input, pos) {
            Ok(x) => x,
            Err(e) => return Err(e),
        };
        let (password, end) = match crate::codec::read_string(input, p) {
            Ok(x) => x,
            Err(e) => return Err(e),
        };
        Ok((LoginInput { username, password }, end))
    }
}

/// Decoding the encoding of any credential login yields exactly that login.
pub proof fn lemma_dec_enc_login_input(input: Seq<u8>, pos: int, v: LoginInputV)
    requires
        0 <= pos,
        login_input_encodable(v),
        pos + enc_login_input(v).len() <= input.len(),
        input.subrange(pos, pos + enc_login_input(v).len()) == enc_login_input(v),
    ensures
        dec_login_input(input, pos) == Ok::<(LoginInputV, int), DecodeError>((
            v,
            pos + enc_login_input(v).len(),
        )),
{
    lemma_subrange_split(input, pos, enc_str(v.username), enc_str(v.password));
    lemma_dec_enc_str(input, pos, v.username);
    lemma_dec_enc_str(input, pos + enc_str(v.username).len(), v.password);
}

/// The response to a successful credential login: the session identifier.
pub struct LoginOutput {
    client_id: u128,
}

pub open spec fn enc_login_output(client_id: u128) -> Seq<u8> {
    enc_u128(client_id)
}

pub open spec fn dec_login_output(input: Seq<u8>, pos: int) -> Result<(u128, int), DecodeError> {
    dec_u128(input, pos)
}

impl View for LoginOutput {
    type V = u128;

    closed spec fn view(&self) -> u128 {
        self.client_id
    }
}

impl LoginOutput {
    pub fn new(client_id: u128) -> (r: LoginOutput)
        ensures
            r@ == client_id,
    {
        LoginOutput { client_id }
    }

    pub fn client_id(&self) -> (r: u128)
        ensures
            r == self@,
    {
        self.client_id
    }

    pub fn write_to(&self, out: &mut Vec<u8>)
        ensures
            final(out)@ == old(out)@ + enc_login_output(self@),
    {
        crate::codec::write_u128(self.client_id, out);
    }

    pub fn read_from(input: &Vec<u8>, pos: usize) -> (r: Result<(LoginOutput, usize), DecodeError>)
        ensures
            ({
                match (r, dec_login_output(input@, pos as int)) {
                    (Ok(o), Ok(d)) => o.0@ == d.0 && o.1 as int == d.1,
                    (Err(e), Err(d)) => e == d,
                    _ => false,
                }
            }),
    {
        match crate::codec::read_u128(input, pos) {
            Ok((v, end)) => Ok((LoginOutput { client_id: v }, end)),
            Err(e) => Err(e),
        }
    }
}

/// Decoding the encoding of any login response yields exactly that response.
pub proof fn lemma_dec_enc_login_output(input: Seq<u8>, pos: int, client_id: u128)
    requires
        0 <= pos,
        pos + 16 <= input.len(),
        input.subrange(pos, pos + 16) == enc_login_output(client_id),
    ensures
        dec_login_output(input, pos) == Ok::<(u128, int), DecodeError>((client_id, pos + 16)),
{
    lemma_dec_enc_u128(input, pos, client_id);
}

/// A liveness probe: the prober's session identifier and a sequence counter.
pub struct PingInput {
    client_id: u128,
    iteration: u32,
}

/// The mathematical image of a [`PingInput`].
pub struct PingInputV {
    pub client_id: u128,
    pub iteration: u32,
}

impl View for PingInput {
    type V = PingInputV;

    closed spec fn view(&self) -> PingInputV {
        PingInputV { client_id: self.client_id, iteration: self.iteration }
    }
}

/// A probe travels as its identifier followed by its counter.
pub open spec fn enc_ping_input(v: PingInputV) -> Seq<u8> {
    enc_u128(v.client_id) + enc_u32(v.iteration)
}

pub open spec fn dec_ping_input(input: Seq<u8>, pos: int) -> Result<(PingInputV, int),
    DecodeError> {
    match dec_u128(input, pos) {
        Ok(d) => match dec_u32(input, d.1) {
            Ok(e) => Ok((PingInputV { client_id: d.0, iteration: e.0 }, e.1)),
            Err(err) => Err(err),
        },
        Err(err) => Err(err),
    }
}

impl PingInput {
    pub fn new(client_id: u128, iteration: u32) -> (r: PingInput)
        ensures
            r@ == (PingInputV { client_id, iteration }),
    {
        PingInput { client_id, iteration }
    }

    pub fn iteration(&self) -> (r: u32)
        ensures
            r == self@.iteration,
    {
        self.iteration
    }

    pub fn client_id(&self) -> (r: u128)
        ensures
            r == self@.client_id,
    {
        self.client_id
    }

    pub fn write_to(&self, out: &mut Vec<u8>)
        ensures
            final(out)@ == old(out)@ + enc_ping_input(self@),
    {
        crate::codec::write_u128(self.client_id, out);
        crate::codec::write_u32(self.iteration, out);
        proof {
            assert(final(out)@ =~= old(out)@ + enc_ping_input(self@));
        }
    }

    pub fn read_from(input: &Vec<u8>, pos: usize) -> (r: Result<(PingInput, usize), DecodeError>)
        ensures
            ({
                match (r, dec_ping_input(input@, pos as int)) {
                    (Ok(o), Ok(d)) => o.0@ == d.0 && o.1 as int == d.1,
                    (Err(e), Err(d)) => e == d,
                    _ => false,
                }
            }),
    {
        let (id, p) = match crate::codec::read_u128(input, pos) {
            Ok(x) => x,
            Err(e) => return Err(e),
        };
        let (iteration, end) = match crate::codec::read_u32(input, p) {
            Ok(x) => x,
            Err(e) => return Err(e),
        };
        Ok((PingInput { client_id: id, iteration }, end))
    }
}

/// Decoding the encoding of any probe yields exactly that probe.
pub proof fn lemma_dec_enc_ping_input(input: Seq<u8>, pos: int, v: PingInputV)
    requires
        0 <= pos,
        pos + enc_ping_input(v).len() <= input.len(),
        input.subrange(pos, pos + enc_ping_input(v).len()) == enc_ping_input(v),
    ensures
        dec_ping_input(input, pos) == Ok::<(PingInputV, int), DecodeError>((
            v,
            pos + enc_ping_input(v).len(),
        )),
{
    lemma_subrange_split(input, pos, enc_u128(v.client_id), enc_u32(v.iteration));
    crate::codec::lemma_be_bytes_len(v.client_id as nat, 16);
    crate::codec::lemma_be_bytes_len(v.iteration as nat, 4);
    lemma_dec_enc_u128(input, pos, v.client_id);
    lemma_dec_enc_u32(input, pos + 16, v.iteration);
}

/// The answer to a probe: the same counter echoed back.
pub struct PingOutput {
    iteration: u32,
}

pub open spec fn enc_ping_output(iteration: u32) -> Seq<u8> {
    enc_u32(iteration)
}

pub open spec fn dec_ping_output(input: Seq<u8>, pos: int) -> Result<(u32, int), DecodeError> {
    dec_u32(input, pos)
}

impl View for PingOutput {
    type V = u32;

    closed spec fn view(&self) -> u32 {
        self.iteration
    }
}

impl PingOutput {
    pub fn new(iteration: u32) -> (r: PingOutput)
        ensures
            r@ == iteration,
    {
        PingOutput { iteration }
    }

    pub fn iteration(&self) -> (r: u32)
        ensures
            r == self@,
    {
        self.iteration
    }

    pub fn write_to(&self, out: &mut Vec<u8>)
        ensures
            final(out)@ == old(out)@ + enc_ping_output(self@),
    {
        crate::codec::write_u32(self.iteration, out);
    }

    pub fn read_from(input: &Vec<u8>, pos: usize) -> (r: Result<(PingOutput, usize), DecodeError>)
        ensures
            ({
                match (r, dec_ping_output(input@, pos as int)) {
                    (Ok(o), Ok(d)) => o.0@ == d.0 && o.1 as int == d.1,
                    (Err(e), Err(d)) => e == d,
                    _ => false,
                }
            }),
    {
        match crate::codec::read_u32(input, pos) {
            Ok((v, end)) => Ok((PingOutput { iteration: v }, end)),
            Err(e) => Err(e),
        }
    }
}

/// Decoding the encoding of any probe answer yields exactly that answer.
pub proof fn lemma_dec_enc_ping_output(input: Seq<u8>, pos: int, iteration: u32)
    requires
        0 <= pos,
        pos + 4 <= input.len(),
        input.subrange(pos, pos + 4) == enc_ping_output(iteration),
    ensures
        dec_ping_output(input, pos) == Ok::<(u32, int), DecodeError>((iteration, pos + 4)),
{
    lemma_dec_enc_u32(input, pos, iteration);
}

} // verus!
