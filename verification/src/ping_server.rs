//! The ping server's command dispatch: a credential login that issues a
//! session identifier, then request/response liveness probes.
//!
//! Its discipline is payload-scoped: a probe carries the session identifier
//! it claims, and the server answers only identifiers it has issued; an
//! unknown identifier is refused with the error status, never trusted.

use crate::codec::{enc_u128, enc_u32, DecodeError};
use crate::ping::{dec_login_input, dec_ping_input, Command, LoginInput, PingInput};
use crate::store::{fresh_session_id, str_eq};
use vstd::prelude::*;
use vstd::utf8::encode_utf8;

verus! {

/// The identifiers issued to logged-in clients, in order of issue.
pub struct PingRegistry {
    ids: Vec<u128>,
}

/// The credentials the server accepts.
pub open spec fn creds_ok(username: Seq<char>, password: Seq<char>) -> bool {
    username == "test"@ && password == "test"@
}

/// The response to an accepted login: the success status and the issued
/// identifier.
pub open spec fn accepted_login_response(id: u128) -> Seq<u8> {
    seq![0u8] + enc_u128(id)
}

/// The response to wrong credentials: the error status and the raw
/// explanatory text, with no length prefix.
pub open spec fn refused_login_response() -> Seq<u8> {
    seq![1u8] + encode_utf8("Invalid username or password."@)
}

/// The answer to a probe from a known session: the success status and the
/// probe's own counter echoed back.
pub open spec fn pong_response(iteration: u32) -> Seq<u8> {
    seq![0u8] + enc_u32(iteration)
}

/// The answer to a probe whose claimed identifier was never issued.
pub open spec fn unknown_session_response() -> Seq<u8> {
    seq![1u8]
}

impl PingRegistry {
    /// The issued identifiers, oldest first.
    pub closed spec fn ids(&self) -> Seq<u128> {
        self.ids@
    }

    pub fn new() -> (r: PingRegistry)
        ensures
            r.ids() == Seq::<u128>::empty(),
    {
        PingRegistry { ids: Vec::new() }
    }

    pub fn contains(&self, id: u128) -> (r: bool)
        ensures
            r == self.ids().contains(id),
    {
        let n = self.ids.len();
        let mut k: usize = 0;
        while k < n
            invariant
                k <= n,
                n == self.ids@.len(),
                forall|j: int| 0 <= j < k ==> self.ids@[j] != id,
            decreases n - k,
        {
            if self.ids[k] == id {
                return true;
            }
            k = k + 1;
        }
        proof {
            if self.ids@.contains(id) {
                let j = choose|j: int| 0 <= j < self.ids@.len() && self.ids@[j] == id;
                assert(self.ids@[j] == id);
            }
        }
        false
    }
}

/// Handles the bytes of one exchange against the registry: the returned
/// bytes answer the exchange's own stream, and `None` abandons it — a
/// malformed request or an unknown tag never stops the connection's loop.
/// Nothing is promised of a fresh identifier's value: it comes from a random
/// source.
pub fn handle_request(reg: &mut PingRegistry, request: &Vec<u8>) -> (r: Option<Vec<u8>>)
    ensures
        ({
            if request@.len() == 0 || Command::spec_of_byte(request@[0]) == Command::Unknown {
                r is None && final(reg).ids() == old(reg).ids()
            } else if Command::spec_of_byte(request@[0]) == Command::Login {
                match dec_login_input(request@, 1) {
                    Ok(d) => {
                        if creds_ok(d.0.username, d.0.password) {
                            &&& final(reg).ids().len() == old(reg).ids().len() + 1
                            &&& final(reg).ids() == old(reg).ids().push(final(reg).ids().last())
                            &&& r matches Some(b) && b@ == accepted_login_response(
                                final(reg).ids().last(),
                            )
                        } else {
                            &&& final(reg).ids() == old(reg).ids()
                            &&& r matches Some(b) && b@ == refused_login_response()
                        }
                    },
                    Err(_) => r is None && final(reg).ids() == old(reg).ids(),
                }
            } else {
                final(reg).ids() == old(reg).ids() && (match dec_ping_input(request@, 1) {
                    Ok(d) => {
                        if old(reg).ids().contains(d.0.client_id) {
                            r matches Some(b) && b@ == pong_response(d.0.iteration)
                        } else {
                            r matches Some(b) && b@ == unknown_session_response()
                        }
                    },
                    Err(_) => r is None,
                })
            }
        }),
{
    if request.len() == 0 {
        return None;
    }
    let tag = request[0];
    match Command::from_byte(tag) {
        Command::Login => {
            let input: LoginInput = match LoginInput::read_from(request, 1) {
                Ok(x) => x.0,
                Err(_) => {
                    return None;
                },
            };
            if str_eq(input.username(), "test") && str_eq(input.password(), "test") {
                let id: u128 = fresh_session_id();
                reg.ids.push(id);
                let mut resp: Vec<u8> = Vec::new();
                crate::codec::write_u8(0, &mut resp);
                crate::codec::write_u128(id, &mut resp);
                proof {
                    crate::codec::lemma_enc_u8_byte(0);
                    assert(resp@ =~= accepted_login_response(id));
                    assert(final(reg).ids().last() == id);
                }
                Some(resp)
            } else {
                let mut resp: Vec<u8> = Vec::new();
                crate::codec::write_u8(1, &mut resp);
                let text_bytes: Vec<u8> = vstd::string::StrSliceExecFns::as_bytes_vec(
                    "Invalid username or password.",
                );
                crate::codec::push_bytes(&mut resp, &text_bytes);
                proof {
                    crate::codec::lemma_enc_u8_byte(1);
                    assert(resp@ =~= refused_login_response());
                }
                Some(resp)
            }
        },
        Command::Ping => {
            let input: PingInput = match PingInput::read_from(request, 1) {
                Ok(x) => x.0,
                Err(_) => {
                    return None;
                },
            };
            if reg.contains(input.client_id()) {
                let mut resp: Vec<u8> = Vec::new();
                crate::codec::write_u8(0, &mut resp);
                crate::codec::write_u32(input.iteration(), &mut resp);
                proof {
                    crate::codec::lemma_enc_u8_byte(0);
                    assert(resp@ =~= pong_response(input@.iteration));
                }
                Some(resp)
            } else {
                let mut resp: Vec<u8> = Vec::new();
                crate::codec::write_u8(1, &mut resp);
                proof {
                    crate::codec::lemma_enc_u8_byte(1);
                    assert(resp@ =~= unknown_session_response());
                }
                Some(resp)
            }
        },
        Command::Unknown => None,
    }
}

} // verus!
