//! The session store: the shared tables that map a connection to its peer
//! identity and its live connection handle, plus the append-only chat
//! history.
//!
//! The store is a plain value; the caller wraps it in one lock, so every
//! method here is one critical section. The two tables are kept aligned:
//! entry `i` of the peer table and entry `i` of the connection table carry
//! the same key, keys are unique, and display names are unique — the
//! name-uniqueness check and the insertion are a single call, so no other
//! registration can observe a partially inserted state.
//!
//! The connection handle type is a type parameter: the store never looks
//! inside a handle, it only keys, stores and hands out copies of them.

use crate::chat::message::{msg_views, Message, MessageV};
use crate::chat::user::{User, UserV};
use vstd::pervasive::cloned;
use vstd::prelude::*;

verus! {

/// The name asked for at registration is already in use.
#[derive(Clone, Copy, Debug, PartialEq, Eq, Structural)]
pub struct DuplicateNameError;

/// What `str::trim` returns: the text without leading and trailing
/// whitespace.
pub uninterp spec fn trimmed(s: Seq<char>) -> Seq<char>;

/// Relies on `str::trim`: the result depends on the characters alone.
#[verifier::external_body]
pub(crate) fn trim_str(s: &str) -> (r: String)
    ensures
        r@ == trimmed(s@),
{
    s.trim().to_owned()
}

/// Relies on `str`'s `==`: two string slices are equal exactly when their
/// character sequences are.
#[verifier::external_body]
pub(crate) fn str_eq(a: &str, b: &str) -> (r: bool)
    ensures
        r == (a@ == b@),
{
    a == b
}

/// Relies on `uuid::Uuid::new_v4`, a randomly generated 128-bit identifier;
/// nothing is promised of the value.
#[verifier::external_body]
pub(crate) fn fresh_session_id() -> u128 {
    uuid::Uuid::new_v4().as_u128()
}

/// The map an association list denotes; later entries shadow earlier ones,
/// though the store keeps its keys unique.
pub open spec fn amap_of<V>(s: Seq<(u64, V)>) -> Map<u64, V>
    decreases s.len(),
{
    if s.len() == 0 {
        Map::empty()
    } else {
        amap_of(s.drop_last()).insert(s.last().0, s.last().1)
    }
}

/// The keys of an association list, in table order.
pub open spec fn keys_of<V>(s: Seq<(u64, V)>) -> Seq<u64> {
    s.map_values(|p: (u64, V)| p.0)
}

pub open spec fn distinct_keys<V>(s: Seq<(u64, V)>) -> bool {
    forall|i: int, j: int|
        0 <= i < j < s.len() ==> (#[trigger] s[i]).0 != (#[trigger] s[j]).0
}

proof fn lemma_distinct_drop_last<V>(s: Seq<(u64, V)>)
    requires
        distinct_keys(s),
        s.len() > 0,
    ensures
        distinct_keys(s.drop_last()),
{
    assert forall|i: int, j: int| 0 <= i < j < s.drop_last().len() implies (#[trigger] s.drop_last()[i]).0
        != (#[trigger] s.drop_last()[j]).0 by {
        assert(s.drop_last()[i] == s[i]);
        assert(s.drop_last()[j] == s[j]);
    }
}

proof fn lemma_amap_contains<V>(s: Seq<(u64, V)>, id: u64)
    ensures
        amap_of(s).dom().contains(id) <==> exists|i: int|
            0 <= i < s.len() && (#[trigger] s[i]).0 == id,
    decreases s.len(),
{
    if s.len() == 0 {
    } else {
        lemma_amap_contains(s.drop_last(), id);
        assert(forall|i: int| 0 <= i < s.len() - 1 ==> s.drop_last()[i] == s[i]);
        if s.last().0 == id {
            assert((s[s.len() - 1]).0 == id);
        } else {
            if exists|i: int| 0 <= i < s.len() && (#[trigger] s[i]).0 == id {
                let i = choose|i: int| 0 <= i < s.len() && (#[trigger] s[i]).0 == id;
                assert(s[s.len() - 1] == s.last());
                assert(i < s.len() - 1);
                assert(s.drop_last()[i].0 == id);
            }
        }
    }
}

proof fn lemma_amap_index<V>(s: Seq<(u64, V)>, i: int)
    requires
        distinct_keys(s),
        0 <= i < s.len(),
    ensures
        amap_of(s).dom().contains(s[i].0),
        amap_of(s)[s[i].0] == s[i].1,
    decreases s.len(),
{
    if i == s.len() - 1 {
        assert(s.last() == s[i]);
    } else {
        lemma_distinct_drop_last(s);
        assert(s.drop_last()[i] == s[i]);
        lemma_amap_index(s.drop_last(), i);
        assert(s.last() == s[s.len() - 1]);
        assert(s.last().0 != s[i].0);
    }
}

proof fn lemma_amap_update<V>(s: Seq<(u64, V)>, i: int, v: V)
    requires
        distinct_keys(s),
        0 <= i < s.len(),
    ensures
        amap_of(s.update(i, (s[i].0, v))) == amap_of(s).insert(s[i].0, v),
    decreases s.len(),
{
    let t = s.update(i, (s[i].0, v));
    if i == s.len() - 1 {
        assert(t.drop_last() =~= s.drop_last());
        assert(t.last() == (s[i].0, v));
        assert(s.last() == s[i]);
        assert(amap_of(s.drop_last()).insert(s[i].0, s[i].1).insert(s[i].0, v) =~= amap_of(
            s.drop_last(),
        ).insert(s[i].0, v));
    } else {
        lemma_distinct_drop_last(s);
        assert(t.drop_last() =~= s.drop_last().update(i, (s[i].0, v)));
        assert(t.last() == s.last());
        assert(s.drop_last()[i] == s[i]);
        lemma_amap_update(s.drop_last(), i, v);
        assert(s.last() == s[s.len() - 1]);
        assert(s.last().0 != s[i].0);
        assert(amap_of(s.drop_last()).insert(s[i].0, v).insert(s.last().0, s.last().1) =~= amap_of(
            s.drop_last(),
        ).insert(s.last().0, s.last().1).insert(s[i].0, v));
    }
}

proof fn lemma_amap_remove<V>(s: Seq<(u64, V)>, i: int)
    requires
        distinct_keys(s),
        0 <= i < s.len(),
    ensures
        amap_of(s.remove(i)) == amap_of(s).remove(s[i].0),
    decreases s.len(),
{
    let t = s.remove(i);
    if i == s.len() - 1 {
        assert(t =~= s.drop_last());
        lemma_amap_contains(s.drop_last(), s[i].0);
        assert(forall|j: int| 0 <= j < s.len() - 1 ==> s.drop_last()[j] == s[j]);
        assert(s.last() == s[s.len() - 1]);
        assert(!amap_of(s.drop_last()).dom().contains(s[i].0)) by {
            if exists|j: int| 0 <= j < s.drop_last().len() && (#[trigger] s.drop_last()[j]).0 == s[
                i].0 {
                let j = choose|j: int|
                    0 <= j < s.drop_last().len() && (#[trigger] s.drop_last()[j]).0 == s[i].0;
                assert(s[j].0 == s[i].0);
            }
        }
        assert(amap_of(s.drop_last()).insert(s[i].0, s[i].1).remove(s[i].0) =~= amap_of(
            s.drop_last(),
        ));
    } else {
        lemma_distinct_drop_last(s);
        assert(t.drop_last() =~= s.drop_last().remove(i));
        assert(t.last() == s.last());
        assert(s.drop_last()[i] == s[i]);
        lemma_amap_remove(s.drop_last(), i);
        assert(s.last() == s[s.len() - 1]);
        assert(s.last().0 != s[i].0);
        assert(amap_of(s.drop_last()).remove(s[i].0).insert(s.last().0, s.last().1) =~= amap_of(
            s.drop_last(),
        ).insert(s.last().0, s.last().1).remove(s[i].0));
    }
}

/// A key sequence with its first occurrence of `id` taken out; the sequence
/// itself where `id` does not occur.
pub open spec fn remove_first_key(s: Seq<u64>, id: u64) -> Seq<u64>
    decreases s.len(),
{
    if s.len() == 0 {
        s
    } else if s.first() == id {
        s.drop_first()
    } else {
        seq![s.first()] + remove_first_key(s.drop_first(), id)
    }
}

proof fn lemma_remove_first_key_at(s: Seq<u64>, i: int)
    requires
        0 <= i < s.len(),
        forall|j: int| 0 <= j < i ==> s[j] != s[i],
    ensures
        remove_first_key(s, s[i]) == s.remove(i),
    decreases s.len(),
{
    if i == 0 {
        assert(s.first() == s[0]);
        assert(s.remove(0) =~= s.drop_first());
    } else {
        assert(s.first() == s[0]);
        assert(s.first() != s[i]);
        assert(s.drop_first()[i - 1] == s[i]);
        assert(forall|j: int| 0 <= j < i - 1 ==> s.drop_first()[j] == s[j + 1]);
        lemma_remove_first_key_at(s.drop_first(), i - 1);
        assert(seq![s.first()] + s.drop_first().remove(i - 1) =~= s.remove(i));
    }
}

proof fn lemma_remove_first_key_absent(s: Seq<u64>, id: u64)
    requires
        forall|j: int| 0 <= j < s.len() ==> s[j] != id,
    ensures
        remove_first_key(s, id) == s,
    decreases s.len(),
{
    if s.len() > 0 {
        assert(s.first() == s[0]);
        assert(forall|j: int| 0 <= j < s.drop_first().len() ==> s.drop_first()[j] == s[j + 1]);
        lemma_remove_first_key_absent(s.drop_first(), id);
        assert(seq![s.first()] + s.drop_first() =~= s);
    }
}

/// A key sequence without every occurrence of `id`: the fan-out targets
/// when `id` is excluded.
pub open spec fn excluding(s: Seq<u64>, id: u64) -> Seq<u64>
    decreases s.len(),
{
    if s.len() == 0 {
        Seq::empty()
    } else if s.first() == id {
        excluding(s.drop_first(), id)
    } else {
        seq![s.first()] + excluding(s.drop_first(), id)
    }
}

/// Law: an excluded connection is never among the fan-out targets.
pub proof fn lemma_excluding_no_id(s: Seq<u64>, id: u64)
    ensures
        forall|j: int| 0 <= j < excluding(s, id).len() ==> excluding(s, id)[j] != id,
    decreases s.len(),
{
    if s.len() > 0 {
        lemma_excluding_no_id(s.drop_first(), id);
        if s.first() != id {
            assert forall|j: int| 0 <= j < excluding(s, id).len() implies excluding(s, id)[j]
                != id by {
                if j == 0 {
                    assert(excluding(s, id)[0] == s.first());
                } else {
                    assert(excluding(s, id)[j] == excluding(s.drop_first(), id)[j - 1]);
                }
            }
        } else {
            assert(excluding(s, id) == excluding(s.drop_first(), id));
            assert forall|j: int| 0 <= j < excluding(s, id).len() implies excluding(s, id)[j]
                != id by {
                assert(excluding(s, id)[j] == excluding(s.drop_first(), id)[j]);
            }
        }
    }
}

/// Law: every connection other than the excluded one stays a fan-out
/// target.
pub proof fn lemma_excluding_keeps(s: Seq<u64>, id: u64, x: u64)
    requires
        x != id,
    ensures
        excluding(s, id).contains(x) <==> s.contains(x),
    decreases s.len(),
{
    if s.len() > 0 {
        lemma_excluding_keeps(s.drop_first(), id, x);
        if s.contains(x) && s.first() != x {
            let j = choose|j: int| 0 <= j < s.len() && s[j] == x;
            assert(s.drop_first()[j - 1] == x);
            assert(s.drop_first().contains(x));
        }
        if s.drop_first().contains(x) {
            let j = choose|j: int| 0 <= j < s.drop_first().len() && s.drop_first()[j] == x;
            assert(s[j + 1] == x);
            assert(s.contains(x));
        }
        if s.first() == id {
            assert(excluding(s, id) == excluding(s.drop_first(), id));
        } else {
            assert(excluding(s, id) == seq![s.first()] + excluding(s.drop_first(), id));
            if s.first() == x {
                assert(s[0] == x);
                assert(s.contains(x));
                assert(excluding(s, id)[0] == x);
                assert(excluding(s, id).contains(x));
            } else {
                if excluding(s, id).contains(x) {
                    let j = choose|j: int|
                        0 <= j < excluding(s, id).len() && excluding(s, id)[j] == x;
                    assert(excluding(s, id)[0] == s.first());
                    assert(j != 0);
                    assert(excluding(s.drop_first(), id)[j - 1] == x);
                    assert(excluding(s.drop_first(), id).contains(x));
                }
                if excluding(s.drop_first(), id).contains(x) {
                    let j = choose|j: int|
                        0 <= j < excluding(s.drop_first(), id).len() && excluding(
                            s.drop_first(),
                            id,
                        )[j] == x;
                    assert(excluding(s, id)[j + 1] == x);
                    assert(excluding(s, id).contains(x));
                }
            }
        }
    }
}

/// Whether some live peer in the table carries this display name.
pub open spec fn name_taken(m: Map<u64, User>, name: Seq<char>) -> bool {
    exists|id: u64| #[trigger] m.dom().contains(id) && m[id]@.username == name
}

proof fn lemma_name_taken_iff(s: Seq<(u64, User)>, name: Seq<char>)
    requires
        distinct_keys(s),
    ensures
        name_taken(amap_of(s), name) <==> exists|i: int|
            0 <= i < s.len() && (#[trigger] s[i]).1@.username == name,
{
    if name_taken(amap_of(s), name) {
        let id = choose|id: u64| #[trigger] amap_of(s).dom().contains(id) && amap_of(s)[id]@.username
            == name;
        lemma_amap_contains(s, id);
        let i = choose|i: int| 0 <= i < s.len() && (#[trigger] s[i]).0 == id;
        lemma_amap_index(s, i);
        assert(s[i].1@.username == name);
    }
    if exists|i: int| 0 <= i < s.len() && (#[trigger] s[i]).1@.username == name {
        let i = choose|i: int| 0 <= i < s.len() && (#[trigger] s[i]).1@.username == name;
        lemma_amap_index(s, i);
    }
}

/// The shared session state: peer identities and connection handles keyed by
/// connection, aligned entry for entry, plus the chat history.
pub struct SessionStore<C> {
    users: Vec<(u64, User)>,
    connections: Vec<(u64, C)>,
    messages: Vec<Message>,
}

impl<C> SessionStore<C> {
    /// Both tables aligned on the same unique keys, and no display name
    /// twice.
    pub closed spec fn wf(&self) -> bool {
        &&& self.users@.len() == self.connections@.len()
        &&& forall|i: int|
            0 <= i < self.users@.len() ==> (#[trigger] self.users@[i]).0 == (
            #[trigger] self.connections@[i]).0
        &&& distinct_keys(self.users@)
        &&& forall|i: int, j: int|
            0 <= i < j < self.users@.len() ==> (#[trigger] self.users@[i]).1@.username != (
            #[trigger] self.users@[j]).1@.username
    }

    /// The peer table as a map from connection key to identity.
    pub closed spec fn users_map(&self) -> Map<u64, User> {
        amap_of(self.users@)
    }

    /// The connection table as a map from connection key to handle.
    pub closed spec fn conns_map(&self) -> Map<u64, C> {
        amap_of(self.connections@)
    }

    /// The connection keys in table order; fan-out walks them in this order.
    pub closed spec fn order(&self) -> Seq<u64> {
        keys_of(self.users@)
    }

    /// The broadcast history, oldest first.
    pub closed spec fn history(&self) -> Seq<MessageV> {
        msg_views(self.messages@)
    }

    pub fn new() -> (r: SessionStore<C>)
        ensures
            r.wf(),
            r.users_map() == Map::<u64, User>::empty(),
            r.conns_map() == Map::<u64, C>::empty(),
            r.order() == Seq::<u64>::empty(),
            r.history() == Seq::<MessageV>::empty(),
    {
        let r = SessionStore { users: Vec::new(), connections: Vec::new(), messages: Vec::new() };
        proof {
            assert(keys_of(r.users@) =~= Seq::<u64>::empty());
            assert(msg_views(r.messages@) =~= Seq::<MessageV>::empty());
        }
        r
    }

    /// Registers a peer under its connection key: in one atomic step, checks
    /// that no live peer carries the trimmed name, issues a fresh session
    /// identifier, and inserts identity and connection handle together.
    /// Nothing is promised of the identifier's value: it comes from a random
    /// source.
    pub fn register(&mut self, username: &str, conn_id: u64, conn: C) -> (r: Result<
        User,
        DuplicateNameError,
    >)
        requires
            old(self).wf(),
        ensures
            final(self).wf(),
            final(self).history() == old(self).history(),
            ({
                let name = trimmed(username@);
                match r {
                    Ok(u) => {
                        &&& !name_taken(old(self).users_map(), name)
                        &&& u@.username == name
                        &&& final(self).users_map() == old(self).users_map().insert(conn_id, u)
                        &&& final(self).conns_map() == old(self).conns_map().insert(conn_id, conn)
                        &&& final(self).order() == (if old(self).users_map().dom().contains(
                            conn_id,
                        ) {
                            old(self).order()
                        } else {
                            old(self).order().push(conn_id)
                        })
                        &&& name_taken(final(self).users_map(), name)
                    },
                    Err(e) => {
                        &&& name_taken(old(self).users_map(), name)
                        &&& *final(self) == *old(self)
                    },
                }
            }),
    {
        let name: String = trim_str(username);
        let n = self.users.len();
        let mut i: usize = 0;
        while i < n
            invariant
                old(self) == self,
                old(self).wf(),
                n == self.users@.len(),
                i <= n,
                name@ == trimmed(username@),
                forall|j: int| 0 <= j < i ==> (#[trigger] self.users@[j]).1@.username != name@,
            decreases n - i,
        {
            let taken = {
                let entry = &self.users[i];
                str_eq(entry.1.username(), name.as_str())
            };
            if taken {
                proof {
                    lemma_name_taken_iff(self.users@, trimmed(username@));
                }
                return Err(DuplicateNameError);
            }
            i = i + 1;
        }
        proof {
            lemma_name_taken_iff(self.users@, trimmed(username@));
        }
        let id: u128 = fresh_session_id();
        let user = User::new(id, name.as_str());
        let mut k: usize = 0;
        while k < n
            invariant
                old(self) == self,
                old(self).wf(),
                n == self.users@.len(),
                k <= n,
                user@ == (UserV { client_id: id, username: trimmed(username@) }),
                forall|j: int|
                    0 <= j < n ==> (#[trigger] self.users@[j]).1@.username != trimmed(username@),
                forall|j: int| 0 <= j < k ==> (#[trigger] self.users@[j]).0 != conn_id,
            decreases n - k,
        {
            let hit = self.users[k].0 == conn_id;
            if hit {
                let stored = user.duplicate();
                proof {
                    lemma_conns_distinct(self);
                    lemma_amap_index(self.users@, k as int);
                    lemma_amap_update(self.users@, k as int, stored);
                    lemma_amap_update(self.connections@, k as int, conn);
                    lemma_amap_contains(self.users@, conn_id);
                    lemma_name_taken_iff(self.users@, trimmed(username@));
                }
                let ghost pre = *self;
                vstd::pervasive::VecAdditionalExecFns::set(&mut self.users, k, (conn_id, stored));
                vstd::pervasive::VecAdditionalExecFns::set(&mut self.connections, k, (conn_id, conn));
                proof {
                    assert(keys_of(self.users@) =~= keys_of(pre.users@));
                    assert(msg_views(self.messages@) == pre.history());
                    assert forall|i1: int, j1: int| 0 <= i1 < j1 < self.users@.len() implies (
                    #[trigger] self.users@[i1]).0 != (#[trigger] self.users@[j1]).0 by {
                        assert(pre.users@[i1].0 == if i1 == k { conn_id } else {
                            self.users@[i1].0
                        });
                        assert(pre.users@[j1].0 == if j1 == k { conn_id } else {
                            self.users@[j1].0
                        });
                    }
                    assert forall|i1: int, j1: int| 0 <= i1 < j1 < self.users@.len() implies (
                    #[trigger] self.users@[i1]).1@.username != (
                    #[trigger] self.users@[j1]).1@.username by {
                        if i1 == k {
                            assert(self.users@[j1] == pre.users@[j1]);
                            assert(pre.users@[j1].1@.username != trimmed(username@));
                        } else if j1 == k {
                            assert(self.users@[i1] == pre.users@[i1]);
                            assert(pre.users@[i1].1@.username != trimmed(username@));
                        } else {
                            assert(self.users@[i1] == pre.users@[i1]);
                            assert(self.users@[j1] == pre.users@[j1]);
                        }
                    }
                    lemma_name_taken_iff(self.users@, trimmed(username@));
                    assert((self.users@[k as int]).1@.username == trimmed(username@));
                }
                return Ok(user);
            }
            k = k + 1;
        }
        proof {
            lemma_amap_contains(self.users@, conn_id);
        }
        let ghost pre = *self;
        self.users.push((conn_id, user.duplicate()));
        self.connections.push((conn_id, conn));
        proof {
            assert(self.users@.drop_last() =~= pre.users@);
            assert(self.connections@.drop_last() =~= pre.connections@);
            assert(keys_of(self.users@) =~= keys_of(pre.users@).push(conn_id));
            lemma_name_taken_iff(self.users@, trimmed(username@));
        }
        Ok(user)
    }

    /// Removes a connection's identity and handle together; idempotent, a
    /// key that is absent leaves the store as it was. Returns the identity
    /// that was removed, if one was.
    pub fn unregister(&mut self, conn_id: u64) -> (r: Option<User>)
        requires
            old(self).wf(),
        ensures
            final(self).wf(),
            final(self).history() == old(self).history(),
            final(self).users_map() == old(self).users_map().remove(conn_id),
            final(self).conns_map() == old(self).conns_map().remove(conn_id),
            final(self).order() == remove_first_key(old(self).order(), conn_id),
            ({
                match r {
                    Some(u) => old(self).users_map().dom().contains(conn_id) && u == old(
                        self,
                    ).users_map()[conn_id],
                    None => !old(self).users_map().dom().contains(conn_id),
                }
            }),
    {
        let n = self.users.len();
        let mut k: usize = 0;
        while k < n
            invariant
                old(self) == self,
                old(self).wf(),
                n == self.users@.len(),
                k <= n,
                forall|j: int| 0 <= j < k ==> (#[trigger] self.users@[j]).0 != conn_id,
            decreases n - k,
        {
            let hit = self.users[k].0 == conn_id;
            if hit {
                proof {
                    lemma_conns_distinct(self);
                    lemma_amap_index(self.users@, k as int);
                    lemma_amap_remove(self.users@, k as int);
                    lemma_amap_remove(self.connections@, k as int);
                    assert(forall|j: int|
                        0 <= j < k ==> keys_of(self.users@)[j] == (#[trigger] self.users@[j]).0);
                    lemma_remove_first_key_at(keys_of(self.users@), k as int);
                }
                let ghost pre = *self;
                let entry = self.users.remove(k);
                self.connections.remove(k);
                proof {
                    assert(keys_of(self.users@) =~= keys_of(pre.users@).remove(k as int));
                    assert(msg_views(self.messages@) == pre.history());
                }
                return Some(entry.1);
            }
            k = k + 1;
        }
        proof {
            lemma_amap_contains(self.users@, conn_id);
            lemma_amap_contains(self.connections@, conn_id);
            assert forall|j: int| 0 <= j < self.connections@.len() implies (
            #[trigger] self.connections@[j]).0 != conn_id by {
                assert(self.users@[j].0 == self.connections@[j].0);
                assert(self.users@[j].0 != conn_id);
            }
            assert(!self.users_map().dom().contains(conn_id));
            assert(!self.conns_map().dom().contains(conn_id));
            assert(forall|j: int|
                0 <= j < self.users@.len() ==> keys_of(self.users@)[j] == (
                #[trigger] self.users@[j]).0);
            lemma_remove_first_key_absent(keys_of(self.users@), conn_id);
            assert(self.users_map().remove(conn_id).dom() =~= self.users_map().dom());
            assert(self.users_map().remove(conn_id) =~= self.users_map());
            assert(self.conns_map().remove(conn_id).dom() =~= self.conns_map().dom());
            assert(self.conns_map().remove(conn_id) =~= self.conns_map());
        }
        None
    }

    /// The identity registered under a connection key, as a fresh value.
    pub fn lookup(&self, conn_id: u64) -> (r: Option<User>)
        requires
            self.wf(),
        ensures
            ({
                match r {
                    Some(u) => self.users_map().dom().contains(conn_id) && u
                        == self.users_map()[conn_id],
                    None => !self.users_map().dom().contains(conn_id),
                }
            }),
    {
        let n = self.users.len();
        let mut k: usize = 0;
        while k < n
            invariant
                self.wf(),
                n == self.users@.len(),
                k <= n,
                forall|j: int| 0 <= j < k ==> (#[trigger] self.users@[j]).0 != conn_id,
            decreases n - k,
        {
            let hit = self.users[k].0 == conn_id;
            if hit {
                proof {
                    lemma_amap_index(self.users@, k as int);
                }
                let entry = &self.users[k];
                return Some(entry.1.duplicate());
            }
            k = k + 1;
        }
        proof {
            lemma_amap_contains(self.users@, conn_id);
        }
        None
    }

    /// Appends one message to the history; the tables are untouched.
    pub fn append_history(&mut self, m: Message)
        ensures
            final(self).history() == old(self).history().push(m@),
            final(self).users_map() == old(self).users_map(),
            final(self).conns_map() == old(self).conns_map(),
            final(self).order() == old(self).order(),
            final(self).wf() == old(self).wf(),
    {
        self.messages.push(m);
        proof {
            assert(msg_views(self.messages@) =~= msg_views(old(self).messages@).push(m@));
        }
    }

    /// A point-in-time copy of the history, oldest first; the store lock
    /// need not be held while the copy is read or sent.
    pub fn history_snapshot(&self) -> (r: Vec<Message>)
        ensures
            msg_views(r@) == self.history(),
    {
        let n = self.messages.len();
        let mut acc: Vec<Message> = Vec::new();
        let mut k: usize = 0;
        while k < n
            invariant
                n == self.messages@.len(),
                k <= n,
                acc@ == self.messages@.take(k as int),
            decreases n - k,
        {
            let m = {
                let entry = &self.messages[k];
                entry.duplicate()
            };
            proof {
                assert(m == self.messages@[k as int]);
            }
            acc.push(m);
            k = k + 1;
            proof {
                assert(acc@ =~= self.messages@.take(k as int));
            }
        }
        proof {
            assert(self.messages@.take(n as int) =~= self.messages@);
        }
        acc
    }
}

impl<C: Clone> SessionStore<C> {
    /// A point-in-time copy of the connection table, in table order: used
    /// for fan-out, so no lock is held across the network writes that
    /// follow. Each handle is a clone of the stored one.
    pub fn snapshot_connections(&self) -> (r: Vec<(u64, C)>)
        requires
            self.wf(),
        ensures
            r@.len() == self.order().len(),
            forall|i: int|
                0 <= i < r@.len() ==> (#[trigger] r@[i]).0 == self.order()[i]
                    && self.conns_map().dom().contains(r@[i].0) && cloned::<C>(
                    self.conns_map()[r@[i].0],
                    r@[i].1,
                ),
    {
        let n = self.connections.len();
        let mut acc: Vec<(u64, C)> = Vec::new();
        let mut k: usize = 0;
        while k < n
            invariant
                self.wf(),
                n == self.connections@.len(),
                k <= n,
                acc@.len() == k,
                forall|i: int|
                    0 <= i < k ==> (#[trigger] acc@[i]).0 == self.order()[i]
                        && self.conns_map().dom().contains(acc@[i].0) && cloned::<C>(
                        self.conns_map()[acc@[i].0],
                        acc@[i].1,
                    ),
            decreases n - k,
        {
            let key: u64 = self.connections[k].0;
            let handle: C = {
                let entry = &self.connections[k];
                entry.1.clone()
            };
            proof {
                lemma_conns_distinct(self);
                lemma_amap_index(self.connections@, k as int);
                assert(keys_of(self.users@)[k as int] == (self.users@[k as int]).0);
            }
            acc.push((key, handle));
            k = k + 1;
        }
        acc
    }

    /// A point-in-time copy of every connection but the excluded one, in
    /// table order: who a broadcast goes to. Each handle is a clone of the
    /// stored one.
    pub fn fanout_snapshot(&self, exclude: u64) -> (r: Vec<(u64, C)>)
        requires
            self.wf(),
        ensures
            keys_of(r@) == excluding(self.order(), exclude),
            forall|i: int|
                0 <= i < r@.len() ==> self.conns_map().dom().contains((#[trigger] r@[i]).0)
                    && cloned::<C>(self.conns_map()[r@[i].0], r@[i].1) && r@[i].0 != exclude,
    {
        let n = self.connections.len();
        let mut acc: Vec<(u64, C)> = Vec::new();
        let mut k: usize = 0;
        proof {
            assert(keys_of(self.connections@) =~= self.order());
            assert(self.order().skip(0) =~= self.order());
            assert(keys_of(acc@) =~= Seq::<u64>::empty());
            assert(keys_of(acc@) + excluding(self.order().skip(0), exclude) =~= excluding(
                self.order(),
                exclude,
            ));
        }
        while k < n
            invariant
                self.wf(),
                k <= n,
                n == self.connections@.len(),
                n == self.order().len(),
                keys_of(self.connections@) == self.order(),
                keys_of(acc@) + excluding(self.order().skip(k as int), exclude) == excluding(
                    self.order(),
                    exclude,
                ),
                forall|i: int|
                    0 <= i < acc@.len() ==> self.conns_map().dom().contains(
                        (#[trigger] acc@[i]).0,
                    ) && cloned::<C>(self.conns_map()[acc@[i].0], acc@[i].1) && acc@[i].0
                        != exclude,
            decreases n - k,
        {
            let ghost ids0 = keys_of(acc@);
            let key: u64 = self.connections[k].0;
            proof {
                assert(self.order().skip(k as int).first() == self.order()[k as int]);
                assert(self.order()[k as int] == keys_of(self.connections@)[k as int]);
                assert(self.order().skip(k as int).drop_first() =~= self.order().skip(
                    k as int + 1,
                ));
            }
            if key != exclude {
                let handle: C = {
                    let entry = &self.connections[k];
                    entry.1.clone()
                };
                proof {
                    lemma_conns_distinct(self);
                    lemma_amap_index(self.connections@, k as int);
                }
                acc.push((key, handle));
                proof {
                    assert(keys_of(acc@) =~= ids0.push(key));
                    assert(ids0.push(key) + excluding(self.order().skip(k as int + 1), exclude)
                        =~= ids0 + (seq![self.order()[k as int]] + excluding(
                        self.order().skip(k as int + 1),
                        exclude,
                    )));
                }
            }
            k = k + 1;
        }
        proof {
            assert(self.order().skip(n as int) =~= Seq::<u64>::empty());
            assert(keys_of(acc@) + Seq::<u64>::empty() =~= keys_of(acc@));
        }
        acc
    }
}

proof fn lemma_conns_distinct<C>(s: &SessionStore<C>)
    requires
        s.wf(),
    ensures
        distinct_keys(s.connections@),
{
    assert forall|i: int, j: int| 0 <= i < j < s.connections@.len() implies (
    #[trigger] s.connections@[i]).0 != (#[trigger] s.connections@[j]).0 by {
        assert(s.users@[i].0 == s.connections@[i].0);
        assert(s.users@[j].0 == s.connections@[j].0);
        assert(s.users@[i].0 != s.users@[j].0);
    }
}

/// Law: a well-formed store never holds two peers with the same display
/// name.
pub proof fn lemma_names_unique<C>(s: &SessionStore<C>, a: u64, b: u64)
    requires
        s.wf(),
        a != b,
        s.users_map().dom().contains(a),
        s.users_map().dom().contains(b),
    ensures
        s.users_map()[a]@.username != s.users_map()[b]@.username,
{
    lemma_amap_contains(s.users@, a);
    lemma_amap_contains(s.users@, b);
    let i = choose|i: int| 0 <= i < s.users@.len() && (#[trigger] s.users@[i]).0 == a;
    let j = choose|j: int| 0 <= j < s.users@.len() && (#[trigger] s.users@[j]).0 == b;
    lemma_amap_index(s.users@, i);
    lemma_amap_index(s.users@, j);
}

/// Law: of two registrations asking for the same name, the second finds the
/// name taken. A registration succeeds exactly when the name is free, and a
/// successful one leaves it taken; so of two calls with one name, at most
/// one can succeed, whichever order the store serializes them in.
pub proof fn lemma_register_exclusive(
    pre: Map<u64, User>,
    conn_id: u64,
    u: User,
    name: Seq<char>,
)
    requires
        u@.username == name,
    ensures
        name_taken(pre.insert(conn_id, u), name),
{
    assert(pre.insert(conn_id, u).dom().contains(conn_id));
}

} // verus!
