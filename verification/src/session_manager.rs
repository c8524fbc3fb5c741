//! The session registry: a two-level index from session id to connection id
//! to connection record, where every connection owns a bounded outbound
//! mailbox.  Every operation is a single atomic step on the structure; a
//! caller that shares the registry between tasks guards it with a lock and
//! thereby gets the linearizable view each contract describes.
use crate::auth::{Claims, ClaimsView};
use vstd::prelude::*;

verus! {

/// Number of outbound payloads a connection's mailbox can hold; an enqueue
/// onto a full mailbox drops the payload and counts it instead of blocking.
pub const MAILBOX_CAPACITY: usize = 16;

/// Mathematical image of a [`Connection`]: the queued payloads in arrival
/// order, and the identity captured at registration.
pub struct ConnectionView {
    pub mailbox: Seq<Seq<char>>,
    pub user_info: ClaimsView,
}

/// One client's record in the registry: its bounded outbound mailbox and the
/// identity snapshot captured when the dispatcher registered it.
pub struct Connection {
    mailbox: Vec<String>,
    pub user_info: Claims,
}

impl View for Connection {
    type V = ConnectionView;

    closed spec fn view(&self) -> ConnectionView {
        ConnectionView { mailbox: self.mailbox@.map_values(|p: String| p@), user_info: self.user_info@ }
    }
}

impl Connection {
    /// A connection record with an empty mailbox and the given identity.
    pub fn new(user_info: Claims) -> (r: Connection)
        ensures
            r@.mailbox == Seq::<Seq<char>>::empty(),
            r@.user_info == user_info@,
    {
        let r = Connection { mailbox: Vec::new(), user_info };
        proof {
            assert(r@.mailbox =~= Seq::<Seq<char>>::empty());
        }
        r
    }

    /// Whether the mailbox respects its bound.
    pub open spec fn wf(self) -> bool {
        self@.mailbox.len() <= MAILBOX_CAPACITY
    }

    fn deliver(&mut self, message: &str) -> (delivered: bool)
        requires
            old(self).wf(),
        ensures
            final(self).wf(),
            final(self)@ == spec_deliver(old(self)@, message@),
            delivered == (old(self)@.mailbox.len() < MAILBOX_CAPACITY),
    {
        if self.mailbox.len() < MAILBOX_CAPACITY {
            self.mailbox.push(message.to_owned());
            proof {
                assert(self@.mailbox =~= spec_deliver(old(self)@, message@).mailbox);
            }
            true
        } else {
            false
        }
    }

    fn pop_front(&mut self) -> (r: Option<String>)
        requires
            old(self).wf(),
        ensures
            final(self).wf(),
            match r {
                Some(m) => old(self)@.mailbox.len() > 0 && m@ == old(self)@.mailbox[0] && final(self)@.mailbox == old(self)@.mailbox.subrange(
                    1,
                    old(self)@.mailbox.len() as int,
                ) && final(self)@.user_info == old(self)@.user_info,
                None => old(self)@.mailbox.len() == 0 && *final(self) == *old(self),
            },
    {
        if self.mailbox.len() == 0 {
            proof {
                assert(self@.mailbox.len() == 0);
            }
            None
        } else {
            let m = self.mailbox.remove(0);
            proof {
                assert(self@.mailbox =~= old(self)@.mailbox.subrange(
                    1,
                    old(self)@.mailbox.len() as int,
                ));
            }
            Some(m)
        }
    }
}

/// Registry model of `insert`: the connection is stored under
/// `(session_id, conn_id)`, creating the session entry if absent and
/// displacing a prior record under the same pair.
pub open spec fn spec_insert(
    m: Map<u128, Map<usize, ConnectionView>>,
    session_id: u128,
    conn_id: usize,
    c: ConnectionView,
) -> Map<u128, Map<usize, ConnectionView>> {
    let inner = if m.contains_key(session_id) {
        m[session_id]
    } else {
        Map::<usize, ConnectionView>::empty()
    };
    m.insert(session_id, inner.insert(conn_id, c))
}

/// Registry model of `remove`: the connection goes away if present, and the
/// session entry is erased in the same step when the connection was its last.
pub open spec fn spec_remove(
    m: Map<u128, Map<usize, ConnectionView>>,
    session_id: u128,
    conn_id: usize,
) -> Map<u128, Map<usize, ConnectionView>> {
    if m.contains_key(session_id) {
        let inner = m[session_id].remove(conn_id);
        if inner.dom().len() == 0 {
            m.remove(session_id)
        } else {
            m.insert(session_id, inner)
        }
    } else {
        m
    }
}

/// Model of one non-blocking enqueue: the payload lands at the mailbox tail
/// when there is spare capacity and is dropped otherwise.
pub open spec fn spec_deliver(c: ConnectionView, msg: Seq<char>) -> ConnectionView {
    if c.mailbox.len() < MAILBOX_CAPACITY {
        ConnectionView { mailbox: c.mailbox.push(msg), user_info: c.user_info }
    } else {
        c
    }
}

/// Registry model of `broadcast_message`: every connection of the session but
/// the skipped one gets one enqueue attempt; identities and the membership of
/// every session are untouched.
pub open spec fn spec_broadcast(
    m: Map<u128, Map<usize, ConnectionView>>,
    session_id: u128,
    msg: Seq<char>,
    skip_id: Option<usize>,
) -> Map<u128, Map<usize, ConnectionView>> {
    if m.contains_key(session_id) {
        m.insert(
            session_id,
            m[session_id].map_values(|c: ConnectionView| spec_deliver(c, msg)).union_prefer_right(
                match skip_id {
                    Some(k) => m[session_id].restrict(set![k]),
                    None => Map::<usize, ConnectionView>::empty(),
                },
            ),
        )
    } else {
        m
    }
}

/// The connection ids of `session` that a broadcast with `skip_id` attempts
/// to reach.
pub open spec fn eligible_ids(session: Map<usize, ConnectionView>, skip_id: Option<usize>) -> Set<
    usize,
> {
    session.dom().filter(|cid: usize| skip_id != Some(cid))
}

/// The attempted connection ids whose mailboxes have spare capacity, i.e.
/// those a broadcast actually delivers to.
pub open spec fn spare_ids(session: Map<usize, ConnectionView>, skip_id: Option<usize>) -> Set<
    usize,
> {
    session.dom().filter(
        |cid: usize| skip_id != Some(cid) && session[cid].mailbox.len() < MAILBOX_CAPACITY,
    )
}

struct ConnEntry {
    id: usize,
    conn: Connection,
}

struct SessionEntry {
    id: u128,
    conns: Vec<ConnEntry>,
}

/// The registry: session id -> (connection id -> connection).
pub struct SessionManager {
    sessions: Vec<SessionEntry>,
}

/// The inner map a sequence of connection entries stands for; a later entry
/// with the same id wins, but well-formed registries keep the ids distinct.
spec fn conns_map(s: Seq<ConnEntry>) -> Map<usize, ConnectionView>
    decreases s.len(),
{
    if s.len() == 0 {
        Map::empty()
    } else {
        conns_map(s.drop_last()).insert(s.last().id, s.last().conn@)
    }
}

/// The outer map a sequence of session entries stands for.
spec fn sessions_map(s: Seq<SessionEntry>) -> Map<u128, Map<usize, ConnectionView>>
    decreases s.len(),
{
    if s.len() == 0 {
        Map::empty()
    } else {
        sessions_map(s.drop_last()).insert(s.last().id, conns_map(s.last().conns@))
    }
}

impl View for SessionManager {
    type V = Map<u128, Map<usize, ConnectionView>>;

    closed spec fn view(&self) -> Map<u128, Map<usize, ConnectionView>> {
        sessions_map(self.sessions@)
    }
}

impl SessionManager {
    /// A registry with no sessions.
    pub fn new() -> (r: SessionManager)
        ensures
            r@ == Map::<u128, Map<usize, ConnectionView>>::empty(),
            r.wf(),
    {
        let r = SessionManager { sessions: Vec::new() };
        proof {
            assert(r@ =~= Map::<u128, Map<usize, ConnectionView>>::empty());
        }
        r
    }

    spec fn inner_wf(s: Seq<ConnEntry>) -> bool {
        &&& forall|i: int, j: int| 0 <= i < j < s.len() ==> s[i].id != s[j].id
        &&& forall|i: int| 0 <= i < s.len() ==> (#[trigger] s[i]).conn.wf()
    }

    spec fn outer_wf(s: Seq<SessionEntry>) -> bool {
        &&& forall|i: int, j: int| 0 <= i < j < s.len() ==> s[i].id != s[j].id
        &&& forall|i: int| 0 <= i < s.len() ==> Self::inner_wf((#[trigger] s[i]).conns@)
        &&& forall|i: int| 0 <= i < s.len() ==> (#[trigger] s[i]).conns@.len() > 0
    }

    /// Well-formedness: ids on both levels are distinct, every mailbox is
    /// within its bound, and no session is empty.
    pub closed spec fn wf(self) -> bool {
        Self::outer_wf(self.sessions@)
    }
}

proof fn lemma_conns_contains(s: Seq<ConnEntry>, k: usize)
    ensures
        conns_map(s).contains_key(k) <==> exists|i: int| 0 <= i < s.len() && s[i].id == k,
    decreases s.len(),
{
    if s.len() > 0 {
        lemma_conns_contains(s.drop_last(), k);
        if s.last().id == k {
            assert(s[s.len() - 1].id == k);
        } else if conns_map(s).contains_key(k) {
            let i = choose|i: int| 0 <= i < s.drop_last().len() && s.drop_last()[i].id == k;
            assert(s[i].id == k);
        } else {
            assert forall|i: int| 0 <= i < s.len() implies s[i].id != k by {
                if i < s.len() - 1 {
                    assert(s.drop_last()[i].id != k);
                }
            }
        }
    }
}

proof fn lemma_conns_index(s: Seq<ConnEntry>, i: int)
    requires
        forall|p: int, q: int| 0 <= p < q < s.len() ==> s[p].id != s[q].id,
        0 <= i < s.len(),
    ensures
        conns_map(s).contains_key(s[i].id),
        conns_map(s)[s[i].id] == s[i].conn@,
    decreases s.len(),
{
    if i == s.len() - 1 {
    } else {
        lemma_conns_index(s.drop_last(), i);
        assert(s.drop_last()[i] == s[i]);
        assert(s[i].id != s.last().id);
    }
}

proof fn lemma_conns_finite(s: Seq<ConnEntry>)
    ensures
        conns_map(s).dom().finite(),
    decreases s.len(),
{
    if s.len() > 0 {
        lemma_conns_finite(s.drop_last());
    }
}

proof fn lemma_conns_len(s: Seq<ConnEntry>)
    requires
        forall|p: int, q: int| 0 <= p < q < s.len() ==> s[p].id != s[q].id,
    ensures
        conns_map(s).dom().len() == s.len(),
    decreases s.len(),
{
    if s.len() > 0 {
        let dl = s.drop_last();
        lemma_conns_len(dl);
        lemma_conns_finite(dl);
        lemma_conns_contains(dl, s.last().id);
        assert forall|i: int| 0 <= i < dl.len() implies dl[i].id != s.last().id by {
            assert(s[i].id != s[s.len() - 1].id);
        }
        assert(!conns_map(dl).contains_key(s.last().id));
    }
}

proof fn lemma_conns_update(s: Seq<ConnEntry>, i: int, e: ConnEntry)
    requires
        forall|p: int, q: int| 0 <= p < q < s.len() ==> s[p].id != s[q].id,
        0 <= i < s.len(),
        e.id == s[i].id,
    ensures
        conns_map(s.update(i, e)) =~= conns_map(s).insert(e.id, e.conn@),
    decreases s.len(),
{
    let su = s.update(i, e);
    if i == s.len() - 1 {
        assert(su.drop_last() =~= s.drop_last());
    } else {
        lemma_conns_update(s.drop_last(), i, e);
        assert(su.drop_last() =~= s.drop_last().update(i, e));
        assert(su.last() == s.last());
        assert(s[i].id != s.last().id);
    }
}

proof fn lemma_conns_remove(s: Seq<ConnEntry>, i: int)
    requires
        forall|p: int, q: int| 0 <= p < q < s.len() ==> s[p].id != s[q].id,
        0 <= i < s.len(),
    ensures
        conns_map(s.remove(i)) =~= conns_map(s).remove(s[i].id),
    decreases s.len(),
{
    let sr = s.remove(i);
    if i == s.len() - 1 {
        assert(sr =~= s.drop_last());
        lemma_conns_contains(s.drop_last(), s[i].id);
        assert forall|j: int| 0 <= j < s.drop_last().len() implies s.drop_last()[j].id != s[i].id
            by {
            assert(s[j].id != s[s.len() - 1].id);
        }
        assert(!conns_map(s.drop_last()).contains_key(s[i].id));
    } else {
        lemma_conns_remove(s.drop_last(), i);
        assert(sr.drop_last() =~= s.drop_last().remove(i));
        assert(sr.last() == s.last());
        assert(s[i].id != s.last().id);
    }
}

proof fn lemma_sessions_finite(s: Seq<SessionEntry>)
    ensures
        sessions_map(s).dom().finite(),
    decreases s.len(),
{
    if s.len() > 0 {
        lemma_sessions_finite(s.drop_last());
    }
}

proof fn lemma_sessions_len(s: Seq<SessionEntry>)
    requires
        forall|p: int, q: int| 0 <= p < q < s.len() ==> s[p].id != s[q].id,
    ensures
        sessions_map(s).dom().len() == s.len(),
    decreases s.len(),
{
    if s.len() > 0 {
        let dl = s.drop_last();
        lemma_sessions_len(dl);
        lemma_sessions_finite(dl);
        lemma_sessions_contains(dl, s.last().id);
        assert forall|i: int| 0 <= i < dl.len() implies dl[i].id != s.last().id by {
            assert(s[i].id != s[s.len() - 1].id);
        }
        assert(!sessions_map(dl).contains_key(s.last().id));
    }
}

proof fn lemma_sessions_contains(s: Seq<SessionEntry>, k: u128)
    ensures
        sessions_map(s).contains_key(k) <==> exists|i: int| 0 <= i < s.len() && s[i].id == k,
    decreases s.len(),
{
    if s.len() > 0 {
        lemma_sessions_contains(s.drop_last(), k);
        if s.last().id == k {
            assert(s[s.len() - 1].id == k);
        } else if sessions_map(s).contains_key(k) {
            let i = choose|i: int| 0 <= i < s.drop_last().len() && s.drop_last()[i].id == k;
            assert(s[i].id == k);
        } else {
            assert forall|i: int| 0 <= i < s.len() implies s[i].id != k by {
                if i < s.len() - 1 {
                    assert(s.drop_last()[i].id != k);
                }
            }
        }
    }
}

proof fn lemma_sessions_index(s: Seq<SessionEntry>, i: int)
    requires
        forall|p: int, q: int| 0 <= p < q < s.len() ==> s[p].id != s[q].id,
        0 <= i < s.len(),
    ensures
        sessions_map(s).contains_key(s[i].id),
        sessions_map(s)[s[i].id] == conns_map(s[i].conns@),
    decreases s.len(),
{
    if i == s.len() - 1 {
    } else {
        lemma_sessions_index(s.drop_last(), i);
        assert(s.drop_last()[i] == s[i]);
        assert(s[i].id != s.last().id);
    }
}

proof fn lemma_sessions_update(s: Seq<SessionEntry>, i: int, e: SessionEntry)
    requires
        forall|p: int, q: int| 0 <= p < q < s.len() ==> s[p].id != s[q].id,
        0 <= i < s.len(),
        e.id == s[i].id,
    ensures
        sessions_map(s.update(i, e)) =~= sessions_map(s).insert(e.id, conns_map(e.conns@)),
    decreases s.len(),
{
    let su = s.update(i, e);
    if i == s.len() - 1 {
        assert(su.drop_last() =~= s.drop_last());
    } else {
        lemma_sessions_update(s.drop_last(), i, e);
        assert(su.drop_last() =~= s.drop_last().update(i, e));
        assert(su.last() == s.last());
        assert(s[i].id != s.last().id);
    }
}

proof fn lemma_sessions_remove(s: Seq<SessionEntry>, i: int)
    requires
        forall|p: int, q: int| 0 <= p < q < s.len() ==> s[p].id != s[q].id,
        0 <= i < s.len(),
    ensures
        sessions_map(s.remove(i)) =~= sessions_map(s).remove(s[i].id),
    decreases s.len(),
{
    let sr = s.remove(i);
    if i == s.len() - 1 {
        assert(sr =~= s.drop_last());
        lemma_sessions_contains(s.drop_last(), s[i].id);
        assert forall|j: int| 0 <= j < s.drop_last().len() implies s.drop_last()[j].id != s[i].id
            by {
            assert(s[j].id != s[s.len() - 1].id);
        }
        assert(!sessions_map(s.drop_last()).contains_key(s[i].id));
    } else {
        lemma_sessions_remove(s.drop_last(), i);
        assert(sr.drop_last() =~= s.drop_last().remove(i));
        assert(sr.last() == s.last());
        assert(s[i].id != s.last().id);
    }
}

impl SessionManager {
    fn find_session(&self, session_id: u128) -> (r: Option<usize>)
        requires
            self.wf(),
        ensures
            match r {
                Some(i) => i < self.sessions@.len() && self.sessions@[i as int].id == session_id
                    && self@.contains_key(session_id) && self@[session_id] == conns_map(
                    self.sessions@[i as int].conns@,
                ),
                None => !self@.contains_key(session_id),
            },
    {
        let n = self.sessions.len();
        for i in 0..n
            invariant
                n == self.sessions@.len(),
                forall|j: int| 0 <= j < i ==> self.sessions@[j].id != session_id,
                self.wf(),
        {
            if self.sessions[i].id == session_id {
                proof {
                    lemma_sessions_index(self.sessions@, i as int);
                }
                return Some(i);
            }
        }
        proof {
            lemma_sessions_contains(self.sessions@, session_id);
        }
        None
    }
}

impl SessionManager {
    /// Stores `conn` under `(session_id, conn_id)`, creating the session
    /// entry if absent; a prior record under the same pair is displaced.
    pub fn insert(&mut self, session_id: u128, conn_id: usize, conn: Connection)
        requires
            old(self).wf(),
            conn.wf(),
        ensures
            final(self).wf(),
            final(self)@ == spec_insert(old(self)@, session_id, conn_id, conn@),
    {
        let ghost m0 = self@;
        let ghost s0 = self.sessions@;
        match self.find_session(session_id) {
            Some(si) => {
                let ghost e0 = s0[si as int];
                let mut entry = self.sessions.remove(si);
                let ghost c0 = entry.conns@;
                match find_conn(&entry.conns, conn_id) {
                    Some(ci) => {
                        let mut ce = entry.conns.remove(ci);
                        ce.conn = conn;
                        proof {
                            assert(c0.remove(ci as int).insert(ci as int, ce) =~= c0.update(
                                ci as int,
                                ce,
                            ));
                            lemma_conns_update(c0, ci as int, ce);
                        }
                        entry.conns.insert(ci, ce);
                    },
                    None => {
                        proof {
                            lemma_conns_contains(c0, conn_id);
                            assert(c0.push(ConnEntry { id: conn_id, conn: conn }).drop_last()
                                =~= c0);
                        }
                        entry.conns.push(ConnEntry { id: conn_id, conn });
                    },
                }
                proof {
                    assert(conns_map(entry.conns@) =~= conns_map(c0).insert(conn_id, conn@));
                    assert(s0.remove(si as int).insert(si as int, entry) =~= s0.update(
                        si as int,
                        entry,
                    ));
                    lemma_sessions_update(s0, si as int, entry);
                }
                self.sessions.insert(si, entry);
                proof {
                    assert(self@ =~= spec_insert(m0, session_id, conn_id, conn@));
                }
            },
            None => {
                let mut conns: Vec<ConnEntry> = Vec::new();
                conns.push(ConnEntry { id: conn_id, conn });
                proof {
                    lemma_sessions_contains(s0, session_id);
                }
                proof {
                    let cs = conns@;
                    assert(cs.drop_last() =~= Seq::<ConnEntry>::empty());
                    assert(conns_map(Seq::<ConnEntry>::empty()) =~= Map::<
                        usize,
                        ConnectionView,
                    >::empty());
                    assert(conns_map(cs) =~= Map::<usize, ConnectionView>::empty().insert(
                        conn_id,
                        conn@,
                    ));
                }
                self.sessions.push(SessionEntry { id: session_id, conns });
                proof {
                    assert(self.sessions@.drop_last() =~= s0);
                    assert(self@ =~~= spec_insert(m0, session_id, conn_id, conn@));
                }
            },
        }
    }

    /// Removes the connection if present; erases the session entry in the
    /// same atomic step when the removed connection was its last.  A no-op
    /// when either key is absent.  Afterwards the registry holds no entry
    /// for `(session_id, conn_id)`.
    pub fn remove(&mut self, session_id: u128, conn_id: usize)
        requires
            old(self).wf(),
        ensures
            final(self).wf(),
            final(self)@ == spec_remove(old(self)@, session_id, conn_id),
            final(self)@.contains_key(session_id) ==> !final(self)@[session_id].contains_key(
                conn_id,
            ),
    {
        let ghost m0 = self@;
        let ghost s0 = self.sessions@;
        match self.find_session(session_id) {
            Some(si) => {
                let ghost e0 = s0[si as int];
                let mut entry = self.sessions.remove(si);
                let ghost c0 = entry.conns@;
                match find_conn(&entry.conns, conn_id) {
                    Some(ci) => {
                        entry.conns.remove(ci);
                        proof {
                            lemma_conns_remove(c0, ci as int);
                            lemma_conns_len(c0);
                            lemma_conns_len(entry.conns@);
                        }
                        if entry.conns.len() == 0 {
                            proof {
                                lemma_sessions_remove(s0, si as int);
                                assert(self@ =~= spec_remove(m0, session_id, conn_id));
                            }
                        } else {
                            proof {
                                assert(s0.remove(si as int).insert(si as int, entry) =~= s0.update(
                                    si as int,
                                    entry,
                                ));
                                lemma_sessions_update(s0, si as int, entry);
                            }
                            self.sessions.insert(si, entry);
                            proof {
                                assert(self@ =~= spec_remove(m0, session_id, conn_id));
                            }
                        }
                    },
                    None => {
                        proof {
                            assert(s0.remove(si as int).insert(si as int, entry) =~= s0);
                            assert(conns_map(c0).remove(conn_id) =~= conns_map(c0));
                            lemma_conns_len(c0);
                            assert(conns_map(c0).dom().len() > 0);
                        }
                        self.sessions.insert(si, entry);
                        proof {
                            assert(m0.insert(session_id, conns_map(c0).remove(conn_id)) =~= m0);
                            assert(self@ =~= spec_remove(m0, session_id, conn_id));
                        }
                    },
                }
            },
            None => {},
        }
    }

    /// Returns a copy of the identity captured when `(session_id, conn_id)`
    /// was registered, if that connection is present.
    pub fn get_user_info(&self, session_id: u128, conn_id: usize) -> (r: Option<Claims>)
        requires
            self.wf(),
        ensures
            match r {
                Some(c) => self@.contains_key(session_id) && self@[session_id].contains_key(
                    conn_id,
                ) && c@ == self@[session_id][conn_id].user_info,
                None => !self@.contains_key(session_id) || !self@[session_id].contains_key(
                    conn_id,
                ),
            },
    {
        match self.find_session(session_id) {
            Some(si) => {
                let entry = &self.sessions[si];
                match find_conn(&entry.conns, conn_id) {
                    Some(ci) => Some(entry.conns[ci].conn.user_info.clone()),
                    None => None,
                }
            },
            None => None,
        }
    }

    /// Takes the oldest payload out of the mailbox of `(session_id,
    /// conn_id)`, if the connection is present and its mailbox is not empty.
    /// Payloads leave the mailbox in exactly the order broadcasts enqueued
    /// them.
    pub fn pop_message(&mut self, session_id: u128, conn_id: usize) -> (r: Option<String>)
        requires
            old(self).wf(),
        ensures
            final(self).wf(),
            match r {
                Some(m) => {
                    let c = old(self)@[session_id][conn_id];
                    &&& old(self)@.contains_key(session_id)
                    &&& old(self)@[session_id].contains_key(conn_id)
                    &&& c.mailbox.len() > 0
                    &&& m@ == c.mailbox[0]
                    &&& final(self)@ == old(self)@.insert(
                        session_id,
                        old(self)@[session_id].insert(
                            conn_id,
                            ConnectionView {
                                mailbox: c.mailbox.subrange(1, c.mailbox.len() as int),
                                user_info: c.user_info,
                            },
                        ),
                    )
                },
                None => final(self)@ == old(self)@ && (!old(self)@.contains_key(session_id)
                    || !old(self)@[session_id].contains_key(conn_id)
                    || old(self)@[session_id][conn_id].mailbox.len() == 0),
            },
    {
        let ghost m0 = self@;
        let ghost s0 = self.sessions@;
        match self.find_session(session_id) {
            Some(si) => {
                let mut entry = self.sessions.remove(si);
                let ghost c0 = entry.conns@;
                let mut r: Option<String> = None;
                match find_conn(&entry.conns, conn_id) {
                    Some(ci) => {
                        let mut ce = entry.conns.remove(ci);
                        r = ce.conn.pop_front();
                        proof {
                            assert(c0.remove(ci as int).insert(ci as int, ce) =~= c0.update(
                                ci as int,
                                ce,
                            ));
                            lemma_conns_update(c0, ci as int, ce);
                        }
                        entry.conns.insert(ci, ce);
                    },
                    None => {},
                }
                proof {
                    assert(s0.remove(si as int).insert(si as int, entry) =~= s0.update(
                        si as int,
                        entry,
                    ));
                    lemma_sessions_update(s0, si as int, entry);
                }
                self.sessions.insert(si, entry);
                proof {
                    if r is None {
                        assert(self@ =~~= m0);
                    } else {
                        assert(self@ =~~= m0.insert(
                            session_id,
                            m0[session_id].insert(
                                conn_id,
                                ConnectionView {
                                    mailbox: m0[session_id][conn_id].mailbox.subrange(
                                        1,
                                        m0[session_id][conn_id].mailbox.len() as int,
                                    ),
                                    user_info: m0[session_id][conn_id].user_info,
                                },
                            ),
                        ));
                    }
                }
                r
            },
            None => None,
        }
    }
}

/// How many of the first `n` entries a broadcast with `skip` delivers to:
/// those not skipped whose mailbox has spare capacity.
spec fn count_spare(s: Seq<ConnEntry>, n: int, skip: Option<usize>) -> int
    decreases n,
{
    if n <= 0 {
        0
    } else {
        count_spare(s, n - 1, skip) + if skip != Some(s[n - 1].id) && s[n - 1].conn@.mailbox.len()
            < MAILBOX_CAPACITY {
            1int
        } else {
            0int
        }
    }
}

/// How many of the first `n` entries a broadcast with `skip` attempts.
spec fn count_eligible(s: Seq<ConnEntry>, n: int, skip: Option<usize>) -> int
    decreases n,
{
    if n <= 0 {
        0
    } else {
        count_eligible(s, n - 1, skip) + if skip != Some(s[n - 1].id) {
            1int
        } else {
            0int
        }
    }
}

proof fn lemma_count_prefix(s1: Seq<ConnEntry>, s2: Seq<ConnEntry>, n: int, skip: Option<usize>)
    requires
        0 <= n <= s1.len(),
        n <= s2.len(),
        forall|i: int| 0 <= i < n ==> s1[i] == s2[i],
    ensures
        count_spare(s1, n, skip) == count_spare(s2, n, skip),
        count_eligible(s1, n, skip) == count_eligible(s2, n, skip),
    decreases n,
{
    if n > 0 {
        lemma_count_prefix(s1, s2, n - 1, skip);
    }
}

proof fn lemma_counts_as_sets(s: Seq<ConnEntry>, skip: Option<usize>)
    requires
        forall|p: int, q: int| 0 <= p < q < s.len() ==> s[p].id != s[q].id,
    ensures
        count_spare(s, s.len() as int, skip) == spare_ids(conns_map(s), skip).len(),
        count_eligible(s, s.len() as int, skip) == eligible_ids(conns_map(s), skip).len(),
        spare_ids(conns_map(s), skip).finite(),
        eligible_ids(conns_map(s), skip).finite(),
    decreases s.len(),
{
    lemma_conns_finite(s);
    if s.len() == 0 {
        assert(conns_map(s) =~= Map::<usize, ConnectionView>::empty());
        assert(spare_ids(conns_map(s), skip) =~= Set::<usize>::empty());
        assert(eligible_ids(conns_map(s), skip) =~= Set::<usize>::empty());
    } else {
        let dl = s.drop_last();
        let lid = s.last().id;
        let lc = s.last().conn@;
        lemma_counts_as_sets(dl, skip);
        lemma_count_prefix(s, dl, s.len() - 1, skip);
        lemma_conns_contains(dl, lid);
        assert forall|i: int| 0 <= i < dl.len() implies dl[i].id != lid by {
            assert(s[i].id != s[s.len() - 1].id);
        }
        assert(!conns_map(dl).contains_key(lid));
        lemma_conns_finite(dl);
        assert(conns_map(s) == conns_map(dl).insert(lid, lc));
        if skip != Some(lid) && lc.mailbox.len() < MAILBOX_CAPACITY {
            assert(spare_ids(conns_map(s), skip) =~= spare_ids(conns_map(dl), skip).insert(lid));
        } else {
            assert(spare_ids(conns_map(s), skip) =~= spare_ids(conns_map(dl), skip));
        }
        if skip != Some(lid) {
            assert(eligible_ids(conns_map(s), skip) =~= eligible_ids(conns_map(dl), skip).insert(
                lid,
            ));
        } else {
            assert(eligible_ids(conns_map(s), skip) =~= eligible_ids(conns_map(dl), skip));
        }
    }
}

proof fn lemma_conns_transformed(
    s1: Seq<ConnEntry>,
    s2: Seq<ConnEntry>,
    msg: Seq<char>,
    skip: Option<usize>,
)
    requires
        forall|p: int, q: int| 0 <= p < q < s1.len() ==> s1[p].id != s1[q].id,
        s2.len() == s1.len(),
        forall|i: int| 0 <= i < s1.len() ==> (#[trigger] s2[i]).id == s1[i].id,
        forall|i: int|
            0 <= i < s1.len() ==> (#[trigger] s2[i]).conn@ == (if skip == Some(s1[i].id) {
                s1[i].conn@
            } else {
                spec_deliver(s1[i].conn@, msg)
            }),
    ensures
        conns_map(s2) =~= conns_map(s1).map_values(
            |c: ConnectionView| spec_deliver(c, msg),
        ).union_prefer_right(
            match skip {
                Some(k) => conns_map(s1).restrict(set![k]),
                None => Map::<usize, ConnectionView>::empty(),
            },
        ),
{
    let m1 = conns_map(s1);
    let m2 = conns_map(s2);
    let target = m1.map_values(|c: ConnectionView| spec_deliver(c, msg)).union_prefer_right(
        match skip {
            Some(k) => m1.restrict(set![k]),
            None => Map::<usize, ConnectionView>::empty(),
        },
    );
    assert forall|k: usize| m2.contains_key(k) implies target.contains_key(k) by {
        lemma_conns_contains(s2, k);
        lemma_conns_contains(s1, k);
    }
    assert forall|k: usize| target.contains_key(k) implies m2.contains_key(k) by {
        lemma_conns_contains(s1, k);
        let i = choose|i: int| 0 <= i < s1.len() && s1[i].id == k;
        assert(s2[i].id == k);
        lemma_conns_contains(s2, k);
    }
    assert forall|k: usize| m2.contains_key(k) implies m2[k] == target[k] by {
        lemma_conns_contains(s2, k);
        let i = choose|i: int| 0 <= i < s2.len() && s2[i].id == k;
        lemma_conns_index(s2, i);
        lemma_conns_index(s1, i);
    }
}

impl SessionManager {
    /// Attempts one non-blocking enqueue of `message` onto every connection
    /// of `session_id` except the one whose id equals `skip_id`, and returns
    /// `(delivered, dropped)`.  A full mailbox drops the payload for that
    /// recipient and counts it; identities and membership never change.  An
    /// absent session returns `(0, 0)`.
    pub fn broadcast_message(&mut self, session_id: u128, message: &str, skip_id: Option<usize>)
        -> (r: (usize, usize))
        requires
            old(self).wf(),
        ensures
            final(self).wf(),
            final(self)@ == spec_broadcast(old(self)@, session_id, message@, skip_id),
            old(self)@.contains_key(session_id) ==> r.0 == spare_ids(
                old(self)@[session_id],
                skip_id,
            ).len() && r.0 + r.1 == eligible_ids(old(self)@[session_id], skip_id).len(),
            !old(self)@.contains_key(session_id) ==> r.0 == 0 && r.1 == 0 && final(self)@ == old(
                self,
            )@,
    {
        let ghost m0 = self@;
        let ghost s0 = self.sessions@;
        match self.find_session(session_id) {
            Some(si) => {
                let mut entry = self.sessions.remove(si);
                let ghost c0 = entry.conns@;
                let r = deliver_all(&mut entry.conns, message, skip_id);
                proof {
                    lemma_counts_as_sets(c0, skip_id);
                    lemma_conns_transformed(c0, entry.conns@, message@, skip_id);
                    assert(s0.remove(si as int).insert(si as int, entry) =~= s0.update(
                        si as int,
                        entry,
                    ));
                    lemma_sessions_update(s0, si as int, entry);
                }
                self.sessions.insert(si, entry);
                proof {
                    assert(self@ =~~= spec_broadcast(m0, session_id, message@, skip_id));
                }
                r
            },
            None => (0, 0),
        }
    }
}

fn deliver_all(conns: &mut Vec<ConnEntry>, message: &str, skip_id: Option<usize>) -> (r: (
    usize,
    usize,
))
    requires
        SessionManager::inner_wf(old(conns)@),
    ensures
        SessionManager::inner_wf(final(conns)@),
        final(conns)@.len() == old(conns)@.len(),
        forall|i: int|
            0 <= i < old(conns)@.len() ==> (#[trigger] final(conns)@[i]).id == old(conns)@[i].id,
        forall|i: int|
            0 <= i < old(conns)@.len() ==> (#[trigger] final(conns)@[i]).conn@ == (if skip_id
                == Some(old(conns)@[i].id) {
                old(conns)@[i].conn@
            } else {
                spec_deliver(old(conns)@[i].conn@, message@)
            }),
        r.0 == count_spare(old(conns)@, old(conns)@.len() as int, skip_id),
        r.0 + r.1 == count_eligible(old(conns)@, old(conns)@.len() as int, skip_id),
{
    let ghost c0 = conns@;
    let n = conns.len();
    let mut sent: usize = 0;
    let mut failed: usize = 0;
    for i in 0..n
        invariant
            n == conns@.len(),
            n == c0.len(),
            SessionManager::inner_wf(conns@),
            forall|j: int| i <= j < n ==> conns@[j] == c0[j],
            forall|j: int| 0 <= j < n ==> (#[trigger] conns@[j]).id == c0[j].id,
            forall|j: int|
                0 <= j < i ==> (#[trigger] conns@[j]).conn@ == (if skip_id == Some(c0[j].id) {
                    c0[j].conn@
                } else {
                    spec_deliver(c0[j].conn@, message@)
                }),
            sent + failed <= i,
            sent == count_spare(c0, i as int, skip_id),
            sent + failed == count_eligible(c0, i as int, skip_id),
    {
        let ghost cprev = conns@;
        let mut ce = conns.remove(i);
        let skip_this = match skip_id {
            Some(k) => k == ce.id,
            None => false,
        };
        if !skip_this {
            if ce.conn.deliver(message) {
                sent = sent + 1;
            } else {
                failed = failed + 1;
            }
        }
        conns.insert(i, ce);
        proof {
            assert(conns@ =~= cprev.update(i as int, ce));
        }
    }
    (sent, failed)
}

fn find_conn(conns: &Vec<ConnEntry>, conn_id: usize) -> (r: Option<usize>)
    requires
        forall|p: int, q: int| 0 <= p < q < conns@.len() ==> conns@[p].id != conns@[q].id,
    ensures
        match r {
            Some(i) => i < conns@.len() && conns@[i as int].id == conn_id && conns_map(
                conns@,
            ).contains_key(conn_id) && conns_map(conns@)[conn_id] == conns@[i as int].conn@,
            None => !conns_map(conns@).contains_key(conn_id),
        },
{
    let n = conns.len();
    for i in 0..n
        invariant
            n == conns@.len(),
            forall|j: int| 0 <= j < i ==> conns@[j].id != conn_id,
            forall|p: int, q: int| 0 <= p < q < conns@.len() ==> conns@[p].id != conns@[q].id,
    {
        if conns[i].id == conn_id {
            proof {
                lemma_conns_index(conns@, i as int);
            }
            return Some(i);
        }
    }
    proof {
        lemma_conns_contains(conns@, conn_id);
    }
    None
}

impl SessionManager {
    /// How many sessions the registry currently holds.
    pub fn session_count(&self) -> (r: usize)
        requires
            self.wf(),
        ensures
            r == self@.dom().len(),
    {
        proof {
            lemma_sessions_len(self.sessions@);
        }
        self.sessions.len()
    }

    /// Whether the registry holds a session under `session_id`.
    pub fn contains_session(&self, session_id: u128) -> (r: bool)
        requires
            self.wf(),
        ensures
            r == self@.contains_key(session_id),
    {
        self.find_session(session_id).is_some()
    }

    /// How many connections the session under `session_id` holds; zero when
    /// the session is absent.
    pub fn session_len(&self, session_id: u128) -> (r: usize)
        requires
            self.wf(),
        ensures
            self@.contains_key(session_id) ==> r == self@[session_id].dom().len(),
            !self@.contains_key(session_id) ==> r == 0,
    {
        match self.find_session(session_id) {
            Some(si) => {
                let entry = &self.sessions[si];
                proof {
                    lemma_conns_len(entry.conns@);
                }
                entry.conns.len()
            },
            None => 0,
        }
    }

    /// Whether the registry holds a connection under `(session_id, conn_id)`.
    pub fn contains_conn(&self, session_id: u128, conn_id: usize) -> (r: bool)
        requires
            self.wf(),
        ensures
            r == (self@.contains_key(session_id) && self@[session_id].contains_key(conn_id)),
    {
        match self.find_session(session_id) {
            Some(si) => find_conn(&self.sessions[si].conns, conn_id).is_some(),
            None => false,
        }
    }
}

/// The identity stored under `(session_id, conn_id)`.
pub open spec fn identity_of(
    m: Map<u128, Map<usize, ConnectionView>>,
    session_id: u128,
    conn_id: usize,
) -> ClaimsView {
    m[session_id][conn_id].user_info
}

/// Law: a well-formed registry holds no session whose inner map is empty; a
/// session exists exactly as long as it has at least one connection.
pub proof fn lemma_no_empty_sessions(m: SessionManager)
    requires
        m.wf(),
    ensures
        forall|sid: u128| #[trigger] m@.contains_key(sid) ==> m@[sid].dom().len() > 0,
{
    assert forall|sid: u128| #[trigger] m@.contains_key(sid) implies m@[sid].dom().len() > 0 by {
        lemma_sessions_contains(m.sessions@, sid);
        let i = choose|i: int| 0 <= i < m.sessions@.len() && m.sessions@[i].id == sid;
        lemma_sessions_index(m.sessions@, i);
        lemma_conns_len(m.sessions@[i].conns@);
    }
}

/// The registry that results from inserting, one atomic step after another,
/// the connections `cs[i]` under `(session_id, ids[i])`.
pub open spec fn spec_insert_all(
    m: Map<u128, Map<usize, ConnectionView>>,
    session_id: u128,
    ids: Seq<usize>,
    cs: Seq<ConnectionView>,
) -> Map<u128, Map<usize, ConnectionView>>
    decreases ids.len(),
{
    if ids.len() == 0 {
        m
    } else {
        spec_insert(
            spec_insert_all(m, session_id, ids.drop_last(), cs.drop_last()),
            session_id,
            ids.last(),
            cs.last(),
        )
    }
}

/// Law: starting from a registry without `session_id`, inserts of `n`
/// connections into that session under pairwise distinct connection ids all
/// land, in any interleaving that serializes them: the session then holds
/// exactly those `n` connections, each under its own id.
pub proof fn lemma_parallel_inserts(
    m: Map<u128, Map<usize, ConnectionView>>,
    session_id: u128,
    ids: Seq<usize>,
    cs: Seq<ConnectionView>,
)
    requires
        ids.len() == cs.len(),
        forall|p: int, q: int| 0 <= p < q < ids.len() ==> ids[p] != ids[q],
        !m.contains_key(session_id),
        ids.len() > 0,
    ensures
        spec_insert_all(m, session_id, ids, cs).contains_key(session_id),
        spec_insert_all(m, session_id, ids, cs)[session_id].dom().finite(),
        spec_insert_all(m, session_id, ids, cs)[session_id].dom().len() == ids.len(),
        forall|k: usize|
            spec_insert_all(m, session_id, ids, cs)[session_id].contains_key(k) <==> ids.contains(
                k,
            ),
        forall|i: int|
            0 <= i < ids.len() ==> spec_insert_all(m, session_id, ids, cs)[session_id][ids[i]]
                == cs[i],
    decreases ids.len(),
{
    let r = spec_insert_all(m, session_id, ids, cs);
    if ids.len() == 1 {
        assert(ids.drop_last().len() == 0);
        assert(spec_insert_all(m, session_id, ids.drop_last(), cs.drop_last()) == m);
        assert(r == spec_insert(m, session_id, ids.last(), cs.last()));
        assert(r[session_id] =~= Map::<usize, ConnectionView>::empty().insert(ids[0], cs[0]));
        assert(r[session_id].dom() =~= Set::<usize>::empty().insert(ids[0]));
        assert(forall|k: usize| r[session_id].contains_key(k) ==> k == ids[0] && ids.contains(k));
        assert(ids.contains(ids[0]));
    } else {
        let idl = ids.drop_last();
        let cdl = cs.drop_last();
        lemma_parallel_inserts(m, session_id, idl, cdl);
        let prev = spec_insert_all(m, session_id, idl, cdl);
        assert(r == spec_insert(prev, session_id, ids.last(), cs.last()));
        assert(!idl.contains(ids.last())) by {
            if idl.contains(ids.last()) {
                let j = choose|j: int| 0 <= j < idl.len() && idl[j] == ids.last();
                assert(ids[j] == ids[ids.len() - 1]);
            }
        }
        assert(!prev[session_id].contains_key(ids.last()));
        assert(prev.contains_key(session_id));
        assert(r[session_id] == prev[session_id].insert(ids.last(), cs.last()));
        assert(r[session_id].dom() =~= prev[session_id].dom().insert(ids.last()));
        assert forall|k: usize| r[session_id].contains_key(k) implies ids.contains(k) by {
            if k == ids.last() {
                assert(ids[ids.len() - 1] == k);
            } else {
                assert(prev[session_id].contains_key(k));
                assert(idl.contains(k));
                let j = choose|j: int| 0 <= j < idl.len() && idl[j] == k;
                assert(ids[j] == k);
            }
        }
        assert forall|k: usize| ids.contains(k) implies r[session_id].contains_key(k) by {
            let j = choose|j: int| 0 <= j < ids.len() && ids[j] == k;
            if j < ids.len() - 1 {
                assert(idl[j] == k);
                assert(idl.contains(k));
                assert(prev[session_id].contains_key(k));
                assert(r[session_id].contains_key(k));
            } else {
                assert(k == ids.last());
                assert(r[session_id].contains_key(k));
            }
        }
        assert forall|i: int| 0 <= i < ids.len() implies r[session_id][ids[i]] == cs[i] by {
            if i < ids.len() - 1 {
                assert(idl[i] == ids[i]);
                assert(cdl[i] == cs[i]);
                assert(ids[i] != ids[ids.len() - 1]);
            }
        }
    }
}

/// Law: a broadcast never enqueues onto the skipped connection; whatever the
/// rest of the session looks like, the record under the skipped id is left
/// exactly as it was.
pub proof fn lemma_broadcast_skip_untouched(
    m: Map<u128, Map<usize, ConnectionView>>,
    session_id: u128,
    msg: Seq<char>,
    k: usize,
)
    ensures
        spec_broadcast(m, session_id, msg, Some(k)).contains_key(session_id)
            == m.contains_key(session_id),
        m.contains_key(session_id) ==> (spec_broadcast(
            m,
            session_id,
            msg,
            Some(k),
        )[session_id].contains_key(k) == m[session_id].contains_key(k)),
        m.contains_key(session_id) && m[session_id].contains_key(k) ==> spec_broadcast(
            m,
            session_id,
            msg,
            Some(k),
        )[session_id][k] == m[session_id][k],
{
}

/// Law: a broadcast without a skip attempts every connection of the session:
/// each one with spare capacity gets the payload appended, each full one is
/// left unchanged, and `delivered + dropped` equals the session size.
pub proof fn lemma_broadcast_no_skip_complete(
    m: Map<u128, Map<usize, ConnectionView>>,
    session_id: u128,
    msg: Seq<char>,
)
    requires
        m.contains_key(session_id),
    ensures
        forall|cid: usize|
            #[trigger] m[session_id].contains_key(cid) ==> spec_broadcast(
                m,
                session_id,
                msg,
                None,
            )[session_id][cid] == spec_deliver(m[session_id][cid], msg),
        eligible_ids(m[session_id], None) == m[session_id].dom(),
{
    assert(eligible_ids(m[session_id], None) =~= m[session_id].dom());
}

/// Law: the identity under `(session_id, conn_id)` is exactly the one the
/// insert that created the record captured, and no later operation changes
/// it: a broadcast, a removal of a different connection, and an insert under
/// a different key all leave it as it was.
pub proof fn lemma_identity_immutable(
    m: Map<u128, Map<usize, ConnectionView>>,
    session_id: u128,
    conn_id: usize,
)
    ensures
        forall|c: ConnectionView|
            identity_of(#[trigger] spec_insert(m, session_id, conn_id, c), session_id, conn_id)
                == c.user_info,
        forall|msg: Seq<char>, skip: Option<usize>|
            m.contains_key(session_id) && m[session_id].contains_key(conn_id) ==> identity_of(
                #[trigger] spec_broadcast(m, session_id, msg, skip),
                session_id,
                conn_id,
            ) == identity_of(m, session_id, conn_id),
        forall|s2: u128, c2: usize|
            m.contains_key(session_id) && m[session_id].contains_key(conn_id) && !(s2 == session_id
                && c2 == conn_id) && spec_remove(m, s2, c2).contains_key(session_id) ==>
                identity_of(#[trigger] spec_remove(m, s2, c2), session_id, conn_id)
                == identity_of(m, session_id, conn_id),
        forall|s2: u128, c2: usize, c: ConnectionView|
            m.contains_key(session_id) && m[session_id].contains_key(conn_id) && !(s2 == session_id
                && c2 == conn_id) ==> identity_of(
                #[trigger] spec_insert(m, s2, c2, c),
                session_id,
                conn_id,
            ) == identity_of(m, session_id, conn_id),
{
}

} // verus!

