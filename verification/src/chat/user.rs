//! The peer identity that the chat protocol carries on the wire and keeps in
//! the session store.

use crate::codec::{dec_str, dec_u128, dec_u8, enc_str, enc_u128, enc_u8, lemma_dec_enc_str,
    lemma_dec_enc_u128, lemma_dec_enc_u8, lemma_subrange_split, str_encodable, DecodeError,
    EncodeError};
use vstd::prelude::*;

verus! {

/// A logged-in peer: the 128-bit session identifier issued at login and the
/// display name chosen by the peer.
pub struct User {
    client_id: u128,
    username: String,
}

/// The mathematical image of a [`User`].
pub struct UserV {
    pub client_id: u128,
    pub username: Seq<char>,
}

impl View for User {
    type V = UserV;

    closed spec fn view(&self) -> UserV {
        UserV { client_id: self.client_id, username: self.username@ }
    }
}

/// A user fits on the wire when its name does.
pub open spec fn user_encodable(u: UserV) -> bool {
    str_encodable(u.username)
}

/// A user travels as its identifier followed by its name.
pub open spec fn enc_user(u: UserV) -> Seq<u8> {
    enc_u128(u.client_id) + enc_str(u.username)
}

pub open spec fn dec_user(input: Seq<u8>, pos: int) -> Result<(UserV, int), DecodeError> {
    match dec_u128(input, pos) {
        Ok(d) => match dec_str(input, d.1) {
            Ok(e) => Ok((UserV { client_id: d.0, username: e.0 }, e.1)),
            Err(err) => Err(err),
        },
        Err(err) => Err(err),
    }
}

impl User {
    pub fn new(client_id: u128, username: &str) -> (r: User)
        ensures
            r@ == (UserV { client_id, username: username@ }),
    {
        User { client_id, username: username.to_owned() }
    }

    pub fn username(&self) -> (r: &str)
        ensures
            r@ == self@.username,
    {
        self.username.as_str()
    }

    pub fn client_id(&self) -> (r: u128)
        ensures
            r == self@.client_id,
    {
        self.client_id
    }

    /// A fresh value equal to this one.
    pub fn duplicate(&self) -> (r: User)
        ensures
            r == *self,
    {
        User { client_id: self.client_id, username: self.username.clone() }
    }

    pub fn encodable(&self) -> (b: bool)
        ensures
            b == user_encodable(self@),
    {
        let bytes: Vec<u8> = vstd::string::StrSliceExecFns::as_bytes_vec(self.username.as_str());
        bytes.len() <= 0xffff
    }

    pub fn write_to(&self, out: &mut Vec<u8>) -> (r: Result<(), EncodeError>)
        ensures
            user_encodable(self@) ==> r == Ok::<(), EncodeError>(()) && final(out)@ == old(out)@
                + enc_user(self@),
            !user_encodable(self@) ==> r == Err::<(), EncodeError>(EncodeError::ValueTooLarge)
                && final(out)@ == old(out)@,
    {
        let mut tail: Vec<u8> = Vec::new();
        match crate::codec::write_string(&self.username, &mut tail) {
            Ok(()) => {
                crate::codec::write_u128(self.client_id, out);
                out.append(&mut tail);
                proof {
                    assert(final(out)@ =~= old(out)@ + enc_user(self@));
                }
                Ok(())
            },
            Err(e) => Err(e),
        }
    }

    pub fn read_from(input: &Vec<u8>, pos: usize) -> (r: Result<(User, usize), DecodeError>)
        ensures
            ({
                match (r, dec_user(input@, pos as int)) {
                    (Ok(o), Ok(d)) => o.0@ == d.0 && o.1 as int == d.1,
                    (Err(e), Err(d)) => e == d,
                    _ => false,
                }
            }),
    {
        let (id, p) = match crate::codec::read_u128(input, pos) {
            Ok(x) => x,
            Err(e) => return Err(e),
        };
        let (name, end) = match crate::codec::read_string(input, p) {
            Ok(x) => x,
            Err(e) => return Err(e),
        };
        Ok((User { client_id: id, username: name }, end))
    }
}

/// Decoding the encoding of any user, wherever it sits in a buffer, yields
/// exactly that user.
pub proof fn lemma_dec_enc_user(input: Seq<u8>, pos: int, u: UserV)
    requires
        0 <= pos,
        user_encodable(u),
        pos + enc_user(u).len() <= input.len(),
        input.subrange(pos, pos + enc_user(u).len()) == enc_user(u),
    ensures
        dec_user(input, pos) == Ok::<(UserV, int), DecodeError>((u, pos + enc_user(u).len())),
{
    lemma_subrange_split(input, pos, enc_u128(u.client_id), enc_str(u.username));
    crate::codec::lemma_be_bytes_len(u.client_id as nat, 16);
    lemma_dec_enc_u128(input, pos, u.client_id);
    lemma_dec_enc_str(input, pos + 16, u.username);
}

/// An optional user travels as a one-byte presence flag, `0x01` before a
/// present user. Any other flag byte reads back as absence; only `0x01` and
/// `0x00` are ever written.
pub open spec fn opt_user_encodable(o: Option<UserV>) -> bool {
    match o {
        Some(u) => user_encodable(u),
        None => true,
    }
}

pub open spec fn enc_opt_user(o: Option<UserV>) -> Seq<u8> {
    match o {
        Some(u) => enc_u8(1) + enc_user(u),
        None => enc_u8(0),
    }
}

pub open spec fn dec_opt_user(input: Seq<u8>, pos: int) -> Result<(Option<UserV>, int),
    DecodeError> {
    match dec_u8(input, pos) {
        Ok(d) => {
            if d.0 == 1 {
                match dec_user(input, d.1) {
                    Ok(e) => Ok((Some(e.0), e.1)),
                    Err(err) => Err(err),
                }
            } else {
                Ok((None, d.1))
            }
        },
        Err(err) => Err(err),
    }
}

pub fn write_opt_user(o: &Option<User>, out: &mut Vec<u8>) -> (r: Result<(), EncodeError>)
    ensures
        opt_user_encodable(view_opt_user(*o)) ==> r == Ok::<(), EncodeError>(()) && final(out)@
            == old(out)@ + enc_opt_user(view_opt_user(*o)),
        !opt_user_encodable(view_opt_user(*o)) ==> r == Err::<(), EncodeError>(
            EncodeError::ValueTooLarge,
        ) && final(out)@ == old(out)@,
{
    match o {
        Some(u) => {
            if !u.encodable() {
                return Err(EncodeError::ValueTooLarge);
            }
            crate::codec::write_u8(1, out);
            match u.write_to(out) {
                Ok(()) => {
                    proof {
                        assert(final(out)@ =~= old(out)@ + enc_opt_user(view_opt_user(*o)));
                    }
                    Ok(())
                },
                Err(e) => {
                    proof {
                        assert(false);
                    }
                    Err(e)
                },
            }
        },
        None => {
            crate::codec::write_u8(0, out);
            Ok(())
        },
    }
}

pub fn read_opt_user(input: &Vec<u8>, pos: usize) -> (r: Result<(Option<User>, usize),
    DecodeError>)
    ensures
        ({
            match (r, dec_opt_user(input@, pos as int)) {
                (Ok(o), Ok(d)) => view_opt_user(o.0) == d.0 && o.1 as int == d.1,
                (Err(e), Err(d)) => e == d,
                _ => false,
            }
        }),
{
    let (flag, p) = match crate::codec::read_u8(input, pos) {
        Ok(x) => x,
        Err(e) => return Err(e),
    };
    if flag == 1 {
        match User::read_from(input, p) {
            Ok((u, end)) => Ok((Some(u), end)),
            Err(e) => Err(e),
        }
    } else {
        Ok((None, p))
    }
}

/// The mathematical image of an optional user.
pub open spec fn view_opt_user(o: Option<User>) -> Option<UserV> {
    match o {
        Some(u) => Some(u@),
        None => None,
    }
}

/// Decoding the encoding of an optional user, wherever it sits in a buffer,
/// yields exactly the value that was written, present or absent.
pub proof fn lemma_dec_enc_opt_user(input: Seq<u8>, pos: int, o: Option<UserV>)
    requires
        0 <= pos,
        opt_user_encodable(o),
        pos + enc_opt_user(o).len() <= input.len(),
        input.subrange(pos, pos + enc_opt_user(o).len()) == enc_opt_user(o),
    ensures
        dec_opt_user(input, pos) == Ok::<(Option<UserV>, int), DecodeError>((
            o,
            pos + enc_opt_user(o).len(),
        )),
{
    crate::codec::lemma_be_bytes_len(1, 1);
    crate::codec::lemma_be_bytes_len(0, 1);
    match o {
        Some(u) => {
            lemma_subrange_split(input, pos, enc_u8(1), enc_user(u));
            lemma_dec_enc_u8(input, pos, 1);
            lemma_dec_enc_user(input, pos + 1, u);
        },
        None => {
            assert(input.subrange(pos, pos + 1) =~= enc_u8(0));
            lemma_dec_enc_u8(input, pos, 0);
        },
    }
}

} // verus!
