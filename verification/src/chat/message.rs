//! The chat message schema and the send-message request, together with the
//! homogeneous-sequence encoding used to push message batches to peers.

use crate::chat::user::{dec_opt_user, enc_opt_user, lemma_dec_enc_opt_user, opt_user_encodable,
    read_opt_user, view_opt_user, write_opt_user, User, UserV};
use crate::codec::{dec_str, dec_u32, enc_str, enc_u32, lemma_dec_enc_str, lemma_dec_enc_u32,
    lemma_subrange_split, str_encodable, DecodeError, EncodeError};
use vstd::prelude::*;

verus! {

/// One chat message: its text and, when a peer rather than the server wrote
/// it, the sending peer's identity. Immutable once constructed.
pub struct Message {
    message: String,
    sent_by: Option<User>,
}

/// The mathematical image of a [`Message`].
pub struct MessageV {
    pub message: Seq<char>,
    pub sent_by: Option<UserV>,
}

impl View for Message {
    type V = MessageV;

    closed spec fn view(&self) -> MessageV {
        MessageV { message: self.message@, sent_by: view_opt_user(self.sent_by) }
    }
}

pub open spec fn msg_encodable(m: MessageV) -> bool {
    str_encodable(m.message) && opt_user_encodable(m.sent_by)
}

/// A message travels as its text followed by its optional sender.
pub open spec fn enc_msg(m: MessageV) -> Seq<u8> {
    enc_str(m.message) + enc_opt_user(m.sent_by)
}

pub open spec fn dec_msg(input: Seq<u8>, pos: int) -> Result<(MessageV, int), DecodeError> {
    match dec_str(input, pos) {
        Ok(d) => match dec_opt_user(input, d.1) {
            Ok(e) => Ok((MessageV { message: d.0, sent_by: e.0 }, e.1)),
            Err(err) => Err(err),
        },
        Err(err) => Err(err),
    }
}

impl Message {
    pub fn new(message: &str, sent_by: Option<User>) -> (r: Message)
        ensures
            r@ == (MessageV { message: message@, sent_by: view_opt_user(sent_by) }),
    {
        Message { message: message.to_owned(), sent_by }
    }

    pub fn message(&self) -> (r: &str)
        ensures
            r@ == self@.message,
    {
        self.message.as_str()
    }

    pub fn sent_by(&self) -> (r: Option<&User>)
        ensures
            ({
                match (r, self@.sent_by) {
                    (Some(a), Some(b)) => a@ == b,
                    (None, None) => true,
                    _ => false,
                }
            }),
    {
        self.sent_by.as_ref()
    }

    /// A fresh value equal to this one.
    pub fn duplicate(&self) -> (r: Message)
        ensures
            r == *self,
    {
        let sent_by: Option<User> = match &self.sent_by {
            Some(u) => Some(u.duplicate()),
            None => None,
        };
        Message { message: self.message.clone(), sent_by }
    }

    pub fn encodable(&self) -> (b: bool)
        ensures
            b == msg_encodable(self@),
    {
        let bytes: Vec<u8> = vstd::string::StrSliceExecFns::as_bytes_vec(self.message.as_str());
        if bytes.len() > 0xffff {
            return false;
        }
        match &self.sent_by {
            Some(u) => u.encodable(),
            None => true,
        }
    }

    pub fn write_to(&self, out: &mut Vec<u8>) -> (r: Result<(), EncodeError>)
        ensures
            msg_encodable(self@) ==> r == Ok::<(), EncodeError>(()) && final(out)@ == old(out)@
                + enc_msg(self@),
            !msg_encodable(self@) ==> r == Err::<(), EncodeError>(EncodeError::ValueTooLarge)
                && final(out)@ == old(out)@,
    {
        let mut buf: Vec<u8> = Vec::new();
        match crate::codec::write_string(&self.message, &mut buf) {
            Ok(()) => (),
            Err(e) => {
                return Err(e);
            },
        }
        match write_opt_user(&self.sent_by, &mut buf) {
            Ok(()) => (),
            Err(e) => {
                return Err(e);
            },
        }
        out.append(&mut buf);
        proof {
            assert(final(out)@ =~= old(out)@ + enc_msg(self@));
        }
        Ok(())
    }

    pub fn read_from(input: &Vec<u8>, pos: usize) -> (r: Result<(Message, usize), DecodeError>)
        ensures
            ({
                match (r, dec_msg(input@, pos as int)) {
                    (Ok(o), Ok(d)) => o.0@ == d.0 && o.1 as int == d.1,
                    (Err(e), Err(d)) => e == d,
                    _ => false,
                }
            }),
    {
        let (text, p) = match crate::codec::read_string(input, pos) {
            Ok(x) => x,
            Err(e) => return Err(e),
        };
        let (sender, end) = match read_opt_user(input, p) {
            Ok(x) => x,
            Err(e) => return Err(e),
        };
        Ok((Message { message: text, sent_by: sender }, end))
    }
}

/// Decoding the encoding of any message, wherever it sits in a buffer,
/// yields exactly that message.
pub proof fn lemma_dec_enc_msg(input: Seq<u8>, pos: int, m: MessageV)
    requires
        0 <= pos,
        msg_encodable(m),
        pos + enc_msg(m).len() <= input.len(),
        input.subrange(pos, pos + enc_msg(m).len()) == enc_msg(m),
    ensures
        dec_msg(input, pos) == Ok::<(MessageV, int), DecodeError>((m, pos + enc_msg(m).len())),
{
    lemma_subrange_split(input, pos, enc_str(m.message), enc_opt_user(m.sent_by));
    lemma_dec_enc_str(input, pos, m.message);
    lemma_dec_enc_opt_user(input, pos + enc_str(m.message).len(), m.sent_by);
}

/// The images of a vector of messages, in order.
pub open spec fn msg_views(ms: Seq<Message>) -> Seq<MessageV> {
    ms.map_values(|m: Message| m@)
}

pub open spec fn msgs_all_encodable(ms: Seq<MessageV>) -> bool {
    forall|i: int| 0 <= i < ms.len() ==> msg_encodable(#[trigger] ms[i])
}

/// A batch fits on the wire when each message does and the count fits its
/// four-byte prefix.
pub open spec fn messages_encodable(ms: Seq<MessageV>) -> bool {
    ms.len() <= 0xffffffff && msgs_all_encodable(ms)
}

/// The body of a batch: each message's encoding, in order.
pub open spec fn enc_msg_seq(ms: Seq<MessageV>) -> Seq<u8>
    decreases ms.len(),
{
    if ms.len() == 0 {
        Seq::empty()
    } else {
        enc_msg(ms.first()) + enc_msg_seq(ms.drop_first())
    }
}

/// A batch travels as a four-byte element count followed by the elements.
pub open spec fn enc_messages(ms: Seq<MessageV>) -> Seq<u8> {
    enc_u32(ms.len() as u32) + enc_msg_seq(ms)
}

pub open spec fn dec_msg_seq(input: Seq<u8>, pos: int, count: nat) -> Result<(Seq<MessageV>, int),
    DecodeError>
    decreases count,
{
    if count == 0 {
        Ok((Seq::empty(), pos))
    } else {
        match dec_msg(input, pos) {
            Ok(d) => match dec_msg_seq(input, d.1, (count - 1) as nat) {
                Ok(e) => Ok((seq![d.0] + e.0, e.1)),
                Err(err) => Err(err),
            },
            Err(err) => Err(err),
        }
    }
}

pub open spec fn dec_messages(input: Seq<u8>, pos: int) -> Result<(Seq<MessageV>, int),
    DecodeError> {
    match dec_u32(input, pos) {
        Ok(d) => dec_msg_seq(input, d.1, d.0 as nat),
        Err(err) => Err(err),
    }
}

/// Appending one message to a batch appends its encoding to the body.
pub proof fn lemma_enc_msg_seq_push(ms: Seq<MessageV>, m: MessageV)
    ensures
        enc_msg_seq(ms.push(m)) == enc_msg_seq(ms) + enc_msg(m),
    decreases ms.len(),
{
    if ms.len() == 0 {
        assert(ms.push(m).drop_first() =~= Seq::<MessageV>::empty());
        assert(ms.push(m).first() == m);
        assert(enc_msg_seq(ms.push(m)) == enc_msg(m) + enc_msg_seq(ms.push(m).drop_first()));
        assert(enc_msg_seq(Seq::<MessageV>::empty()) == Seq::<u8>::empty());
        assert(ms =~= Seq::<MessageV>::empty());
        assert(enc_msg(m) + Seq::<u8>::empty() =~= Seq::<u8>::empty() + enc_msg(m));
    } else {
        assert(ms.push(m).first() == ms.first());
        assert(ms.push(m).drop_first() =~= ms.drop_first().push(m));
        assert(enc_msg_seq(ms.push(m)) == enc_msg(ms.first()) + enc_msg_seq(
            ms.drop_first().push(m),
        ));
        assert(enc_msg_seq(ms) == enc_msg(ms.first()) + enc_msg_seq(ms.drop_first()));
        lemma_enc_msg_seq_push(ms.drop_first(), m);
        assert(enc_msg(ms.first()) + (enc_msg_seq(ms.drop_first()) + enc_msg(m)) =~= (enc_msg(
            ms.first(),
        ) + enc_msg_seq(ms.drop_first())) + enc_msg(m));
    }
}

pub fn write_messages(msgs: &Vec<Message>, out: &mut Vec<u8>) -> (r: Result<(), EncodeError>)
    ensures
        messages_encodable(msg_views(msgs@)) ==> r == Ok::<(), EncodeError>(()) && final(out)@
            == old(out)@ + enc_messages(msg_views(msgs@)),
        !messages_encodable(msg_views(msgs@)) ==> r == Err::<(), EncodeError>(
            EncodeError::ValueTooLarge,
        ) && final(out)@ == old(out)@,
{
    let ghost views = msg_views(msgs@);
    if msgs.len() as u64 > 0xffffffff {
        return Err(EncodeError::ValueTooLarge);
    }
    let mut i: usize = 0;
    while i < msgs.len()
        invariant
            i <= msgs@.len(),
            views == msg_views(msgs@),
            forall|j: int| 0 <= j < i ==> msg_encodable(#[trigger] views[j]),
        decreases msgs@.len() - i,
    {
        let m: &Message = &msgs[i];
        proof {
            assert(views[i as int] == msgs@[i as int]@);
        }
        if !m.encodable() {
            return Err(EncodeError::ValueTooLarge);
        }
        i = i + 1;
    }
    crate::codec::write_u32(msgs.len() as u32, out);
    proof {
        assert(out@ + enc_msg_seq(views.take(0)) =~= out@);
    }
    let ghost mid = out@;
    let mut k: usize = 0;
    while k < msgs.len()
        invariant
            k <= msgs@.len(),
            views == msg_views(msgs@),
            messages_encodable(views),
            mid == old(out)@ + enc_u32(msgs@.len() as u32),
            out@ == mid + enc_msg_seq(views.take(k as int)),
        decreases msgs@.len() - k,
    {
        let m: &Message = &msgs[k];
        proof {
            assert(views[k as int] == msgs@[k as int]@);
        }
        match m.write_to(out) {
            Ok(()) => (),
            Err(e) => {
                proof {
                    assert(false);
                }
                return Err(e);
            },
        }
        k = k + 1;
        proof {
            lemma_enc_msg_seq_push(views.take(k - 1 as int), views[k - 1]);
            assert(views.take(k - 1 as int).push(views[k - 1]) =~= views.take(k as int));
            assert(out@ =~= mid + enc_msg_seq(views.take(k as int)));
        }
    }
    proof {
        assert(views.take(msgs@.len() as int) =~= views);
        assert(out@ =~= old(out)@ + enc_messages(views));
    }
    Ok(())
}

pub fn read_messages(input: &Vec<u8>, pos: usize) -> (r: Result<(Vec<Message>, usize),
    DecodeError>)
    ensures
        ({
            match (r, dec_messages(input@, pos as int)) {
                (Ok(o), Ok(d)) => msg_views(o.0@) == d.0 && o.1 as int == d.1,
                (Err(e), Err(d)) => e == d,
                _ => false,
            }
        }),
{
    let (count, start) = match crate::codec::read_u32(input, pos) {
        Ok(x) => x,
        Err(e) => return Err(e),
    };
    let mut acc: Vec<Message> = Vec::new();
    let mut cur: usize = start;
    let mut i: u32 = 0;
    proof {
        assert(msg_views(acc@) =~= Seq::<MessageV>::empty());
    }
    while i < count
        invariant
            i <= count,
            dec_messages(input@, pos as int) == dec_msg_seq(input@, start as int, count as nat),
            ({
                match dec_msg_seq(input@, cur as int, (count - i) as nat) {
                    Ok(e) => dec_msg_seq(input@, start as int, count as nat) == Ok::<(Seq<
                        MessageV,
                    >, int), DecodeError>((msg_views(acc@) + e.0, e.1)),
                    Err(err) => dec_msg_seq(input@, start as int, count as nat) == Err::<(Seq<
                        MessageV,
                    >, int), DecodeError>(err),
                }
            }),
        decreases count - i,
    {
        let ghost acc0 = acc@;
        let ghost cur0 = cur as int;
        let ghost rem0 = (count - i) as nat;
        let step = Message::read_from(input, cur);
        let (m, next) = match step {
            Ok(x) => x,
            Err(e) => {
                proof {
                    assert(dec_msg_seq(input@, cur as int, (count - i) as nat) == Err::<(Seq<
                        MessageV,
                    >, int), DecodeError>(e));
                    assert(dec_messages(input@, pos as int) == Err::<(Seq<MessageV>, int),
                        DecodeError>(e));
                }
                return Err(e);
            },
        };
        proof {
            assert(msg_views(acc0.push(m)) =~= msg_views(acc0).push(m@));
        }
        acc.push(m);
        cur = next;
        i = i + 1;
        proof {
            let rem1 = (count - i) as nat;
            assert(rem0 == rem1 + 1);
            assert(dec_msg_seq(input@, cur0, rem0) == (match dec_msg_seq(
                input@,
                cur as int,
                rem1,
            ) {
                Ok(e) => Ok::<(Seq<MessageV>, int), DecodeError>((seq![m@] + e.0, e.1)),
                Err(err) => Err::<(Seq<MessageV>, int), DecodeError>(err),
            }));
            match dec_msg_seq(input@, cur as int, rem1) {
                Ok(e) => {
                    assert(msg_views(acc@) + e.0 =~= msg_views(acc0) + (seq![m@] + e.0));
                },
                Err(err) => {},
            }
        }
    }
    proof {
        assert(msg_views(acc@) + Seq::<MessageV>::empty() =~= msg_views(acc@));
    }
    Ok((acc, cur))
}

/// Decoding the encoding of any batch body yields exactly the batch.
pub proof fn lemma_dec_enc_msg_seq(input: Seq<u8>, pos: int, ms: Seq<MessageV>)
    requires
        0 <= pos,
        msgs_all_encodable(ms),
        pos + enc_msg_seq(ms).len() <= input.len(),
        input.subrange(pos, pos + enc_msg_seq(ms).len()) == enc_msg_seq(ms),
    ensures
        dec_msg_seq(input, pos, ms.len() as nat) == Ok::<(Seq<MessageV>, int), DecodeError>((
            ms,
            pos + enc_msg_seq(ms).len(),
        )),
    decreases ms.len(),
{
    if ms.len() == 0 {
        assert(ms =~= Seq::<MessageV>::empty());
    } else {
        lemma_subrange_split(input, pos, enc_msg(ms.first()), enc_msg_seq(ms.drop_first()));
        lemma_dec_enc_msg(input, pos, ms.first());
        assert(ms.drop_first().len() == ms.len() - 1);
        lemma_dec_enc_msg_seq(input, pos + enc_msg(ms.first()).len(), ms.drop_first());
        assert(seq![ms.first()] + ms.drop_first() =~= ms);
        assert(dec_msg_seq(input, pos, ms.len() as nat) == (match dec_msg_seq(
            input,
            pos + enc_msg(ms.first()).len(),
            (ms.len() - 1) as nat,
        ) {
            Ok(e) => Ok::<(Seq<MessageV>, int), DecodeError>((seq![ms.first()] + e.0, e.1)),
            Err(err) => Err::<(Seq<MessageV>, int), DecodeError>(err),
        }));
        assert(pos + enc_msg(ms.first()).len() + enc_msg_seq(ms.drop_first()).len() == pos
            + enc_msg_seq(ms).len());
        assert(dec_msg_seq(input, pos, ms.len() as nat) == Ok::<(Seq<MessageV>, int),
            DecodeError>((seq![ms.first()] + ms.drop_first(), pos + enc_msg_seq(ms).len())));
    }
}

/// Round trip for message batches: decoding the encoding of any batch,
/// wherever it sits in a buffer, yields exactly the messages that were
/// written, in order.
pub proof fn lemma_dec_enc_messages(input: Seq<u8>, pos: int, ms: Seq<MessageV>)
    requires
        0 <= pos,
        messages_encodable(ms),
        pos + enc_messages(ms).len() <= input.len(),
        input.subrange(pos, pos + enc_messages(ms).len()) == enc_messages(ms),
    ensures
        dec_messages(input, pos) == Ok::<(Seq<MessageV>, int), DecodeError>((
            ms,
            pos + enc_messages(ms).len(),
        )),
{
    lemma_subrange_split(input, pos, enc_u32(ms.len() as u32), enc_msg_seq(ms));
    crate::codec::lemma_be_bytes_len((ms.len() as u32) as nat, 4);
    lemma_dec_enc_u32(input, pos, ms.len() as u32);
    lemma_dec_enc_msg_seq(input, pos + 4, ms);
}

/// The request a peer sends to have a line of text broadcast.
pub struct SendMessageInput {
    message: String,
}

/// The mathematical image of a [`SendMessageInput`]: the text it carries.
pub open spec fn enc_send_message_input(message: Seq<char>) -> Seq<u8> {
    enc_str(message)
}

pub open spec fn dec_send_message_input(input: Seq<u8>, pos: int) -> Result<(Seq<char>, int),
    DecodeError> {
    dec_str(input, pos)
}

impl View for SendMessageInput {
    type V = Seq<char>;

    closed spec fn view(&self) -> Seq<char> {
        self.message@
    }
}

impl SendMessageInput {
    pub fn new(message: &str) -> (r: SendMessageInput)
        ensures
            r@ == message@,
    {
        SendMessageInput { message: message.to_owned() }
    }

    pub fn message(&self) -> (r: &str)
        ensures
            r@ == self@,
    {
        self.message.as_str()
    }

    pub fn write_to(&self, out: &mut Vec<u8>) -> (r: Result<(), EncodeError>)
        ensures
            str_encodable(self@) ==> r == Ok::<(), EncodeError>(()) && final(out)@ == old(out)@
                + enc_send_message_input(self@),
            !str_encodable(self@) ==> r == Err::<(), EncodeError>(EncodeError::ValueTooLarge)
                && final(out)@ == old(out)@,
    {
        crate::codec::write_string(&self.message, out)
    }

    pub fn read_from(input: &Vec<u8>, pos: usize) -> (r: Result<(SendMessageInput, usize),
        DecodeError>)
        ensures
            ({
                match (r, dec_send_message_input(input@, pos as int)) {
                    (Ok(o), Ok(d)) => o.0@ == d.0 && o.1 as int == d.1,
                    (Err(e), Err(d)) => e == d,
                    _ => false,
                }
            }),
    {
        match crate::codec::read_string(input, pos) {
            Ok((s, end)) => Ok((SendMessageInput { message: s }, end)),
            Err(e) => Err(e),
        }
    }
}

} // verus!

