//! The chat server's command dispatch: one call per exchange, one call per
//! disconnect.
//!
//! Each exchange arrives as the raw bytes of one bidirectional stream: a
//! one-byte command tag and the schema-encoded request. The dispatcher
//! decodes it, queries or mutates the session store, and hands back what to
//! write: an optional response for the same stream, and the notifications to
//! push over fresh one-way streams. The caller performs the writes; nothing
//! here touches a socket.
//!
//! The per-connection discipline is connection-scoped: a sender's identity
//! comes from the table entry keyed by its own connection, never from the
//! request payload, and a broadcast of a peer's message excludes that peer's
//! own connection.
//!
//! A request that cannot be decoded aborts only its own exchange: the reply
//! says to write nothing, the store is untouched, and the connection's loop
//! goes on. An unknown tag is ignored the same way, never an error.

use crate::chat::login::{dec_login_input, LoginInput};
use crate::chat::message::{dec_send_message_input, enc_messages, messages_encodable, msg_encodable,
    msg_views, Message, MessageV, SendMessageInput};
use crate::chat::user::{enc_user, UserV};
use crate::chat::{ClientCommand, ServerCommand, ServerResponse};
use crate::codec::str_encodable;
use crate::store::{excluding, keys_of, name_taken, remove_first_key, trimmed, SessionStore};
use vstd::pervasive::cloned;
use vstd::prelude::*;
use vstd::string::StringExecFns;
use vstd::utf8::encode_utf8;

verus! {

/// One notification: a payload for a fresh one-way stream to each of the
/// listed connections.
pub struct Push<C> {
    pub connections: Vec<(u64, C)>,
    pub payload: Vec<u8>,
}

/// What one exchange asks the caller to do: write a response on the
/// exchange's own stream (nothing, when the exchange is abandoned), then
/// deliver the pushes.
pub struct ExchangeReply<C> {
    pub response: Option<Vec<u8>>,
    pub pushes: Vec<Push<C>>,
}

/// The connection keys a push addresses, in order.
pub open spec fn push_ids<C>(p: Push<C>) -> Seq<u64> {
    keys_of(p.connections@)
}

/// Every handle in the push is a clone of the one the table holds under the
/// same key.
pub open spec fn push_conns_cloned<C: Clone>(p: Push<C>, m: Map<u64, C>) -> bool {
    forall|i: int|
        0 <= i < p.connections@.len() ==> m.dom().contains((#[trigger] p.connections@[i]).0)
            && cloned::<C>(m[p.connections@[i].0], p.connections@[i].1)
}

/// The reply that abandons the exchange: nothing written, nothing pushed.
pub open spec fn ignored<C>(r: ExchangeReply<C>) -> bool {
    r.response is None && r.pushes@.len() == 0
}

/// The reply writes exactly these bytes on the exchange's stream.
pub open spec fn responds<C>(r: ExchangeReply<C>, bytes: Seq<u8>) -> bool {
    match r.response {
        Some(b) => b@ == bytes,
        None => false,
    }
}

/// The payload of an asynchronous notification: the new-message tag followed
/// by an encoded batch.
pub open spec fn notify_payload(ms: Seq<MessageV>) -> Seq<u8> {
    seq![ClientCommand::NewMessage.spec_byte()] + enc_messages(ms)
}

pub open spec fn joined_text(name: Seq<char>) -> Seq<char> {
    name + " has entered the chat!"@
}

pub open spec fn left_text(name: Seq<char>) -> Seq<char> {
    name + " has left the chat!"@
}

/// The server-authored message announcing a new peer.
pub open spec fn joined_msg(name: Seq<char>) -> MessageV {
    MessageV { message: joined_text(name), sent_by: None }
}

/// The server-authored message announcing a departed peer.
pub open spec fn left_msg(name: Seq<char>) -> MessageV {
    MessageV { message: left_text(name), sent_by: None }
}

/// A peer's broadcast message: its text and its resolved sender.
pub open spec fn chat_msg(text: Seq<char>, sender: UserV) -> MessageV {
    MessageV { message: text, sent_by: Some(sender) }
}

/// The response to a login whose name is already in use: the error status
/// followed by the raw explanatory text, with no length prefix.
pub open spec fn refused_login_response() -> Seq<u8> {
    seq![ServerResponse::Error.spec_byte()] + encode_utf8("Username already used!"@)
}

/// What a successful login did: the peer and its handle are in the tables
/// under its connection key, the response carries the issued identity, the
/// new peer is sent the prior history (when it can travel), and every other
/// peer is told of the arrival (when that notice can travel).
pub open spec fn login_accepted<C: Clone>(
    pre: SessionStore<C>,
    post: SessionStore<C>,
    r: ExchangeReply<C>,
    conn_id: u64,
    conn: C,
    name: Seq<char>,
) -> bool {
    let u = post.users_map()[conn_id];
    &&& post.users_map().dom().contains(conn_id)
    &&& u@.username == name
    &&& !name_taken(pre.users_map(), name)
    &&& post.users_map() == pre.users_map().insert(conn_id, u)
    &&& post.conns_map().dom().contains(conn_id)
    &&& cloned::<C>(conn, post.conns_map()[conn_id])
    &&& post.conns_map() == pre.conns_map().insert(conn_id, post.conns_map()[conn_id])
    &&& post.order() == (if pre.users_map().dom().contains(conn_id) {
        pre.order()
    } else {
        pre.order().push(conn_id)
    })
    &&& post.history() == pre.history()
    &&& responds(r, seq![ServerResponse::Success.spec_byte()] + enc_user(u@))
    &&& ({
        let h_ok = messages_encodable(pre.history());
        let j_ok = msg_encodable(joined_msg(name));
        let hn: int = if h_ok {
            1
        } else {
            0
        };
        &&& r.pushes@.len() == hn + (if j_ok {
            1int
        } else {
            0
        })
        &&& h_ok ==> push_ids(r.pushes@[0]) == seq![conn_id] && r.pushes@[0].payload@
            == notify_payload(pre.history()) && cloned::<C>(conn, r.pushes@[0].connections@[0].1)
        &&& j_ok ==> push_ids(r.pushes@[hn]) == excluding(post.order(), conn_id)
            && r.pushes@[hn].payload@ == notify_payload(seq![joined_msg(name)])
            && push_conns_cloned(r.pushes@[hn], post.conns_map())
    })
}

/// What an accepted message did: it entered the history, the sender got the
/// success status, and exactly that message goes out to every connection but
/// the sender's own.
pub open spec fn message_accepted<C: Clone>(
    pre: SessionStore<C>,
    post: SessionStore<C>,
    r: ExchangeReply<C>,
    conn_id: u64,
    text: Seq<char>,
) -> bool {
    let m = chat_msg(text, pre.users_map()[conn_id]@);
    &&& post.users_map() == pre.users_map()
    &&& post.conns_map() == pre.conns_map()
    &&& post.order() == pre.order()
    &&& post.history() == pre.history().push(m)
    &&& responds(r, seq![ServerResponse::Success.spec_byte()])
    &&& r.pushes@.len() == 1
    &&& push_ids(r.pushes@[0]) == excluding(post.order(), conn_id)
    &&& r.pushes@[0].payload@ == notify_payload(seq![m])
    &&& push_conns_cloned(r.pushes@[0], post.conns_map())
}

/// Handles the bytes of one exchange against the store, under the calling
/// connection's key. `conn` is the connection's own handle, kept by the
/// store on a successful login.
pub fn handle_exchange<C: Clone>(
    store: &mut SessionStore<C>,
    conn_id: u64,
    conn: C,
    request: &Vec<u8>,
) -> (r: ExchangeReply<C>)
    requires
        old(store).wf(),
    ensures
        final(store).wf(),
        ({
            if request@.len() == 0 || ServerCommand::spec_of_byte(request@[0])
                == ServerCommand::Unknown {
                ignored(r) && *final(store) == *old(store)
            } else if ServerCommand::spec_of_byte(request@[0]) == ServerCommand::Login {
                match dec_login_input(request@, 1) {
                    Ok(d) => {
                        let name = trimmed(d.0);
                        if !str_encodable(name) || !msg_encodable(joined_msg(name)) {
                            ignored(r) && *final(store) == *old(store)
                        } else if name_taken(old(store).users_map(), name) {
                            responds(r, refused_login_response()) && r.pushes@.len() == 0
                                && *final(store) == *old(store)
                        } else {
                            login_accepted(*old(store), *final(store), r, conn_id, conn, name)
                        }
                    },
                    Err(_) => ignored(r) && *final(store) == *old(store),
                }
            } else {
                match dec_send_message_input(request@, 1) {
                    Ok(d) => {
                        if old(store).users_map().dom().contains(conn_id) && msg_encodable(
                            chat_msg(d.0, old(store).users_map()[conn_id]@),
                        ) {
                            message_accepted(*old(store), *final(store), r, conn_id, d.0)
                        } else {
                            responds(r, seq![ServerResponse::Error.spec_byte()])
                                && r.pushes@.len() == 0 && *final(store) == *old(store)
                        }
                    },
                    Err(_) => ignored(r) && *final(store) == *old(store),
                }
            }
        }),
{
    if request.len() == 0 {
        return ExchangeReply { response: None, pushes: Vec::new() };
    }
    let tag = request[0];
    match ServerCommand::from_byte(tag) {
        ServerCommand::Login => handle_login(store, conn_id, conn, request),
        ServerCommand::SendMessage => handle_send_message(store, conn_id, request),
        ServerCommand::Unknown => ExchangeReply { response: None, pushes: Vec::new() },
    }
}

fn handle_login<C: Clone>(
    store: &mut SessionStore<C>,
    conn_id: u64,
    conn: C,
    request: &Vec<u8>,
) -> (r: ExchangeReply<C>)
    requires
        old(store).wf(),
        request@.len() >= 1,
        ServerCommand::spec_of_byte(request@[0]) == ServerCommand::Login,
    ensures
        final(store).wf(),
        ({
            match dec_login_input(request@, 1) {
                Ok(d) => {
                    let name = trimmed(d.0);
                    if !str_encodable(name) || !msg_encodable(joined_msg(name)) {
                        ignored(r) && *final(store) == *old(store)
                    } else if name_taken(old(store).users_map(), name) {
                        responds(r, refused_login_response()) && r.pushes@.len() == 0
                            && *final(store) == *old(store)
                    } else {
                        login_accepted(*old(store), *final(store), r, conn_id, conn, name)
                    }
                },
                Err(_) => ignored(r) && *final(store) == *old(store),
            }
        }),
{
    let input: LoginInput = match LoginInput::read_from(request, 1) {
        Ok(x) => x.0,
        Err(_) => {
            return ExchangeReply { response: None, pushes: Vec::new() };
        },
    };
    let name: String = crate::store::trim_str(input.username());
    let mut join_line: String = name.clone();
    StringExecFns::append(&mut join_line, " has entered the chat!");
    let join_message = Message::new(join_line.as_str(), None);
    let name_bytes: Vec<u8> = vstd::string::StrSliceExecFns::as_bytes_vec(name.as_str());
    if name_bytes.len() > 0xffff || !join_message.encodable() {
        return ExchangeReply { response: None, pushes: Vec::new() };
    }
    let conn_for_store: C = conn.clone();
    let user = match store.register(input.username(), conn_id, conn_for_store) {
        Ok(u) => u,
        Err(_) => {
            let mut resp: Vec<u8> = Vec::new();
            crate::codec::write_u8(ServerResponse::Error.to_byte(), &mut resp);
            let text: &str = "Username already used!";
            let text_bytes: Vec<u8> = vstd::string::StrSliceExecFns::as_bytes_vec(text);
            crate::codec::push_bytes(&mut resp, &text_bytes);
            proof {
                crate::codec::lemma_enc_u8_byte(ServerResponse::Error.spec_byte());
                assert(resp@ =~= refused_login_response());
            }
            return ExchangeReply { response: Some(resp), pushes: Vec::new() };
        },
    };
    let mut resp: Vec<u8> = Vec::new();
    crate::codec::write_u8(ServerResponse::Success.to_byte(), &mut resp);
    match user.write_to(&mut resp) {
        Ok(()) => (),
        Err(_) => {
            proof {
                assert(false);
            }
            return ExchangeReply { response: None, pushes: Vec::new() };
        },
    }
    proof {
        crate::codec::lemma_enc_u8_byte(ServerResponse::Success.spec_byte());
        assert(resp@ =~= seq![ServerResponse::Success.spec_byte()] + enc_user(user@));
    }
    let mut pushes: Vec<Push<C>> = Vec::new();
    // History replay for the new peer, on a fresh one-way stream.
    let history = store.history_snapshot();
    let mut replay: Vec<u8> = Vec::new();
    crate::codec::write_u8(ClientCommand::NewMessage.to_byte(), &mut replay);
    match crate::chat::message::write_messages(&history, &mut replay) {
        Ok(()) => {
            let mut only_new: Vec<(u64, C)> = Vec::new();
            only_new.push((conn_id, conn));
            proof {
                crate::codec::lemma_enc_u8_byte(ClientCommand::NewMessage.spec_byte());
                assert(push_ids(Push { connections: only_new, payload: replay }) =~= seq![conn_id]);
                assert(replay@ =~= notify_payload(old(store).history()));
            }
            pushes.push(Push { connections: only_new, payload: replay });
        },
        Err(_) => (),
    }
    // Tell every other peer of the arrival.
    let mut announce: Vec<u8> = Vec::new();
    crate::codec::write_u8(ClientCommand::NewMessage.to_byte(), &mut announce);
    let batch = vec![join_message];
    proof {
        assert(msg_views(batch@) =~= seq![joined_msg(trimmed(input@))]);
        assert(messages_encodable(msg_views(batch@)));
    }
    match crate::chat::message::write_messages(&batch, &mut announce) {
        Ok(()) => (),
        Err(_) => {
            proof {
                assert(false);
            }
            return ExchangeReply { response: None, pushes: Vec::new() };
        },
    }
    proof {
        crate::codec::lemma_enc_u8_byte(ClientCommand::NewMessage.spec_byte());
        assert(announce@ =~= notify_payload(seq![joined_msg(trimmed(input@))]));
    }
    let targets = store.fanout_snapshot(conn_id);
    pushes.push(Push { connections: targets, payload: announce });
    ExchangeReply { response: Some(resp), pushes }
}

fn handle_send_message<C: Clone>(
    store: &mut SessionStore<C>,
    conn_id: u64,
    request: &Vec<u8>,
) -> (r: ExchangeReply<C>)
    requires
        old(store).wf(),
        request@.len() >= 1,
        ServerCommand::spec_of_byte(request@[0]) == ServerCommand::SendMessage,
    ensures
        final(store).wf(),
        ({
            match dec_send_message_input(request@, 1) {
                Ok(d) => {
                    if old(store).users_map().dom().contains(conn_id) && msg_encodable(
                        chat_msg(d.0, old(store).users_map()[conn_id]@),
                    ) {
                        message_accepted(*old(store), *final(store), r, conn_id, d.0)
                    } else {
                        responds(r, seq![ServerResponse::Error.spec_byte()])
                            && r.pushes@.len() == 0 && *final(store) == *old(store)
                    }
                },
                Err(_) => ignored(r) && *final(store) == *old(store),
            }
        }),
{
    let input: SendMessageInput = match SendMessageInput::read_from(request, 1) {
        Ok(x) => x.0,
        Err(_) => {
            return ExchangeReply { response: None, pushes: Vec::new() };
        },
    };
    let sender = match store.lookup(conn_id) {
        Some(u) => u,
        None => {
            let mut resp: Vec<u8> = Vec::new();
            crate::codec::write_u8(ServerResponse::Error.to_byte(), &mut resp);
            proof {
                crate::codec::lemma_enc_u8_byte(ServerResponse::Error.spec_byte());
                assert(resp@ =~= seq![ServerResponse::Error.spec_byte()]);
            }
            return ExchangeReply { response: Some(resp), pushes: Vec::new() };
        },
    };
    let message = Message::new(input.message(), Some(sender));
    if !message.encodable() {
        let mut resp: Vec<u8> = Vec::new();
        crate::codec::write_u8(ServerResponse::Error.to_byte(), &mut resp);
        proof {
            crate::codec::lemma_enc_u8_byte(ServerResponse::Error.spec_byte());
            assert(resp@ =~= seq![ServerResponse::Error.spec_byte()]);
        }
        return ExchangeReply { response: Some(resp), pushes: Vec::new() };
    }
    let mut payload: Vec<u8> = Vec::new();
    crate::codec::write_u8(ClientCommand::NewMessage.to_byte(), &mut payload);
    let batch = vec![message.duplicate()];
    proof {
        assert(msg_views(batch@) =~= seq![message@]);
        assert(messages_encodable(msg_views(batch@)));
    }
    match crate::chat::message::write_messages(&batch, &mut payload) {
        Ok(()) => (),
        Err(_) => {
            proof {
                assert(false);
            }
            return ExchangeReply { response: None, pushes: Vec::new() };
        },
    }
    proof {
        crate::codec::lemma_enc_u8_byte(ClientCommand::NewMessage.spec_byte());
        assert(payload@ =~= notify_payload(seq![message@]));
    }
    store.append_history(message);
    let targets = store.fanout_snapshot(conn_id);
    let mut resp: Vec<u8> = Vec::new();
    crate::codec::write_u8(ServerResponse::Success.to_byte(), &mut resp);
    proof {
        crate::codec::lemma_enc_u8_byte(ServerResponse::Success.spec_byte());
        assert(resp@ =~= seq![ServerResponse::Success.spec_byte()]);
    }
    let mut pushes: Vec<Push<C>> = Vec::new();
    pushes.push(Push { connections: targets, payload });
    ExchangeReply { response: Some(resp), pushes }
}

/// Handles a connection's termination: removes its identity and handle
/// together — its key is afterwards absent from both tables — and, when a
/// peer was logged in there, says who to tell that it left. The departure
/// notice goes to every remaining connection, exactly once.
pub fn handle_disconnect<C: Clone>(store: &mut SessionStore<C>, conn_id: u64) -> (r: Option<
    Push<C>,
>)
    requires
        old(store).wf(),
    ensures
        final(store).wf(),
        final(store).users_map() == old(store).users_map().remove(conn_id),
        final(store).conns_map() == old(store).conns_map().remove(conn_id),
        final(store).order() == remove_first_key(old(store).order(), conn_id),
        final(store).history() == old(store).history(),
        ({
            match r {
                Some(p) => {
                    let name = old(store).users_map()[conn_id]@.username;
                    &&& old(store).users_map().dom().contains(conn_id)
                    &&& msg_encodable(left_msg(name))
                    &&& push_ids(p) == excluding(final(store).order(), conn_id)
                    &&& p.payload@ == notify_payload(seq![left_msg(name)])
                    &&& push_conns_cloned(p, final(store).conns_map())
                },
                None => !old(store).users_map().dom().contains(conn_id) || !msg_encodable(
                    left_msg(old(store).users_map()[conn_id]@.username),
                ),
            }
        }),
{
    let user = match store.unregister(conn_id) {
        Some(u) => u,
        None => {
            return None;
        },
    };
    let mut line: String = user.username().to_owned();
    StringExecFns::append(&mut line, " has left the chat!");
    let notice = Message::new(line.as_str(), None);
    if !notice.encodable() {
        return None;
    }
    let mut payload: Vec<u8> = Vec::new();
    crate::codec::write_u8(ClientCommand::NewMessage.to_byte(), &mut payload);
    let batch = vec![notice];
    proof {
        assert(msg_views(batch@) =~= seq![left_msg(old(store).users_map()[conn_id]@.username)]);
        assert(messages_encodable(msg_views(batch@)));
    }
    match crate::chat::message::write_messages(&batch, &mut payload) {
        Ok(()) => (),
        Err(_) => {
            proof {
                assert(false);
            }
            return None;
        },
    }
    proof {
        crate::codec::lemma_enc_u8_byte(ClientCommand::NewMessage.spec_byte());
        assert(payload@ =~= notify_payload(
            seq![left_msg(old(store).users_map()[conn_id]@.username)],
        ));
    }
    let targets = store.fanout_snapshot(conn_id);
    Some(Push { connections: targets, payload })
}

} // verus!
