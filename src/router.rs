//! The connection registry: bindings between keys and connections, the
//! per-key queues of undelivered payloads, and the sweep that drains them.
use std::collections::HashMap;
use tokio::sync::mpsc::UnboundedSender;
use vstd::prelude::*;

use crate::channel::Outbound;
use crate::error::VerifyError;
use crate::ConnId;

verus! {

broadcast use vstd::std_specs::hash::group_hash_axioms;

/// Relies on `rand::random::<u32>`: any value may come back.
#[verifier::external_body]
fn draw_conn_id() -> (r: u32) {
    rand::random::<u32>()
}

/// Abstract state of the registry.
pub ghost struct RouterModel {
    /// Connections that are registered.
    pub live: Set<ConnId>,
    /// Forward bindings: key to the connection bound to it.
    pub bound: Map<Seq<char>, ConnId>,
    /// Reverse bindings: connection to the key bound to it.
    pub reverse: Map<ConnId, Seq<char>>,
    /// Per-key queues of payloads not yet delivered, oldest first.
    pub queued: Map<Seq<char>, Seq<Seq<char>>>,
    /// For each registered connection, the payloads pushed to it so far.
    pub outbox: Map<ConnId, Seq<Seq<char>>>,
    /// Registered connections whose receiver is known to be gone: a push
    /// on them failed, and every later push fails too.
    pub shut: Set<ConnId>,
}

impl RouterModel {
    /// Each binding is recorded in both directions and names a registered
    /// connection, so a key is bound to at most one connection and a
    /// connection to at most one key; each registered connection has an
    /// outbox; only registered connections are shut; no queue is empty.
    pub open spec fn wf(self) -> bool {
        &&& forall|k: Seq<char>| #[trigger] self.bound.contains_key(k) ==> {
            &&& self.reverse.contains_key(self.bound[k])
            &&& self.reverse[self.bound[k]] == k
            &&& self.live.contains(self.bound[k])
        }
        &&& forall|c: ConnId| #[trigger] self.reverse.contains_key(c) ==> {
            &&& self.bound.contains_key(self.reverse[c])
            &&& self.bound[self.reverse[c]] == c
        }
        &&& self.outbox.dom() == self.live
        &&& self.shut.subset_of(self.live)
        &&& forall|k: Seq<char>| #[trigger] self.queued.contains_key(k) ==> self.queued[k].len() > 0
    }

    /// A payload for `k` may go straight out: nothing for `k` waits in a
    /// queue, and `k` is bound to a registered connection.
    pub open spec fn direct(self, k: Seq<char>) -> bool {
        &&& !self.queued.contains_key(k)
        &&& self.bound.contains_key(k)
        &&& self.live.contains(self.bound[k])
    }

    /// The payloads waiting for `k`, oldest first.
    pub open spec fn queue_of(self, k: Seq<char>) -> Seq<Seq<char>> {
        if self.queued.contains_key(k) {
            self.queued[k]
        } else {
            Seq::empty()
        }
    }
}

/// The registry after a connection `c` that was not registered joins.
pub open spec fn connect_next(m: RouterModel, c: ConnId) -> RouterModel {
    RouterModel { live: m.live.insert(c), outbox: m.outbox.insert(c, Seq::empty()), ..m }
}

/// The bindings without the one that names connection `c`.
pub open spec fn unbind_conn(bound: Map<Seq<char>, ConnId>, c: ConnId) -> Map<Seq<char>, ConnId> {
    Map::new(|k: Seq<char>| bound.contains_key(k) && bound[k] != c, |k: Seq<char>| bound[k])
}

/// The registry after connection `c` leaves; nothing changes if it was
/// not registered.
pub open spec fn disconnect_next(m: RouterModel, c: ConnId) -> RouterModel {
    RouterModel {
        live: m.live.remove(c),
        bound: unbind_conn(m.bound, c),
        reverse: m.reverse.remove(c),
        outbox: m.outbox.remove(c),
        shut: m.shut.remove(c),
        ..m
    }
}

proof fn lemma_connect_wf(m: RouterModel, c: ConnId)
    requires
        m.wf(),
        !m.live.contains(c),
    ensures
        connect_next(m, c).wf(),
{
    let n = connect_next(m, c);
    assert(n.outbox.dom() =~= n.live);
}

proof fn lemma_disconnect_wf(m: RouterModel, c: ConnId)
    requires
        m.wf(),
    ensures
        disconnect_next(m, c).wf(),
{
    let n = disconnect_next(m, c);
    assert(n.outbox.dom() =~= n.live);
    assert forall|k: Seq<char>| #[trigger] n.bound.contains_key(k) implies {
        &&& n.reverse.contains_key(n.bound[k])
        &&& n.reverse[n.bound[k]] == k
        &&& n.live.contains(n.bound[k])
    } by {
        assert(m.bound.contains_key(k));
    }
    assert forall|x: ConnId| #[trigger] n.reverse.contains_key(x) implies {
        &&& n.bound.contains_key(n.reverse[x])
        &&& n.bound[n.reverse[x]] == x
    } by {
        assert(m.reverse.contains_key(x));
    }
}

/// The characters of an optional string.
pub open spec fn option_view(o: Option<String>) -> Option<Seq<char>> {
    match o {
        Some(s) => Some(s@),
        None => None,
    }
}

/// The characters of a verification result.
pub open spec fn result_view(r: Result<String, VerifyError>) -> Result<Seq<char>, VerifyError> {
    match r {
        Ok(s) => Ok(s@),
        Err(e) => Err(e),
    }
}

/// What verifying `k` on connection `c` returns, given the credential
/// store's answer `found` for `k`.
pub open spec fn verify_outcome(
    m: RouterModel,
    k: Seq<char>,
    c: ConnId,
    found: Option<Seq<char>>,
) -> Result<Seq<char>, VerifyError> {
    match precheck(m, k, c) {
        Some(e) => Err(e),
        None => match found {
            Some(name) => Ok(name),
            None => Err(VerifyError::UnknownKey),
        },
    }
}

/// Why verifying `k` on `c` fails whatever the credential store says:
/// `k` is bound to another connection, or `c` is not registered.
pub open spec fn precheck(m: RouterModel, k: Seq<char>, c: ConnId) -> Option<VerifyError> {
    if m.bound.contains_key(k) && m.bound[k] != c {
        Some(VerifyError::DuplicateKey)
    } else if !m.live.contains(c) {
        Some(VerifyError::NotConnected)
    } else {
        None
    }
}

/// The registry with `k` bound to `c`, and `c` bound to nothing else.
pub open spec fn bind(m: RouterModel, k: Seq<char>, c: ConnId) -> RouterModel {
    RouterModel {
        bound: unbind_conn(m.bound, c).insert(k, c),
        reverse: m.reverse.insert(c, k),
        ..m
    }
}

/// The registry after verifying `k` on `c`: bound on success, unchanged
/// on failure.
pub open spec fn verify_next(
    m: RouterModel,
    k: Seq<char>,
    c: ConnId,
    found: Option<Seq<char>>,
) -> RouterModel {
    if verify_outcome(m, k, c, found) is Ok {
        bind(m, k, c)
    } else {
        m
    }
}

proof fn lemma_unbind_wf(m: RouterModel, c: ConnId)
    requires
        m.wf(),
    ensures
        (RouterModel { bound: unbind_conn(m.bound, c), reverse: m.reverse.remove(c), ..m }).wf(),
{
    let n = RouterModel { bound: unbind_conn(m.bound, c), reverse: m.reverse.remove(c), ..m };
    assert forall|k: Seq<char>| #[trigger] n.bound.contains_key(k) implies {
        &&& n.reverse.contains_key(n.bound[k])
        &&& n.reverse[n.bound[k]] == k
        &&& n.live.contains(n.bound[k])
    } by {
        assert(m.bound.contains_key(k));
    }
    assert forall|x: ConnId| #[trigger] n.reverse.contains_key(x) implies {
        &&& n.bound.contains_key(n.reverse[x])
        &&& n.bound[n.reverse[x]] == x
    } by {
        assert(m.reverse.contains_key(x));
    }
}

proof fn lemma_bind_wf(m: RouterModel, k: Seq<char>, c: ConnId)
    requires
        m.wf(),
        m.live.contains(c),
        m.bound.contains_key(k) ==> m.bound[k] == c,
    ensures
        bind(m, k, c).wf(),
{
    let n = bind(m, k, c);
    assert forall|k2: Seq<char>| #[trigger] n.bound.contains_key(k2) implies {
        &&& n.reverse.contains_key(n.bound[k2])
        &&& n.reverse[n.bound[k2]] == k2
        &&& n.live.contains(n.bound[k2])
    } by {
        if k2 != k {
            assert(m.bound.contains_key(k2));
        }
    }
    assert forall|x: ConnId| #[trigger] n.reverse.contains_key(x) implies {
        &&& n.bound.contains_key(n.reverse[x])
        &&& n.bound[n.reverse[x]] == x
    } by {
        if x != c {
            assert(m.reverse.contains_key(x));
            assert(m.bound.contains_key(m.reverse[x]));
            if m.reverse[x] == k {
                assert(m.bound[k] == c);
            }
        }
    }
}

/// The registry with `p` appended to the queue of `k`.
pub open spec fn enqueue(m: RouterModel, k: Seq<char>, p: Seq<char>) -> RouterModel {
    RouterModel { queued: m.queued.insert(k, m.queue_of(k).push(p)), ..m }
}

/// The registry with `p` pushed to the connection bound to `k`.
pub open spec fn push_to(m: RouterModel, k: Seq<char>, p: Seq<char>) -> RouterModel {
    RouterModel { outbox: m.outbox.insert(m.bound[k], m.outbox[m.bound[k]].push(p)), ..m }
}

/// The registry with connection `c` known to be shut.
pub open spec fn mark_shut(m: RouterModel, c: ConnId) -> RouterModel {
    RouterModel { shut: m.shut.insert(c), ..m }
}

/// The registry after delivering `p` to `k`, where `sent` tells whether
/// the payload went out on the channel of the bound connection. A payload
/// that could go out directly but was not sent found that channel shut.
pub open spec fn deliver_next(m: RouterModel, k: Seq<char>, p: Seq<char>, sent: bool) -> RouterModel {
    if sent {
        push_to(m, k, p)
    } else if m.direct(k) {
        enqueue(mark_shut(m, m.bound[k]), k, p)
    } else {
        enqueue(m, k, p)
    }
}

/// After a sweep, what left the queue of `k` went, in order, to the
/// connection bound to `k`; what stays is the rest of the queue, and stays
/// only because that connection turned out shut (nothing goes out on one
/// that was shut already). A key that is not bound keeps its queue.
pub open spec fn key_swept(m: RouterModel, n: RouterModel, k: Seq<char>) -> bool {
    if m.bound.contains_key(k) {
        let c = m.bound[k];
        let before = m.outbox[c];
        let after = n.outbox[c];
        &&& before.len() <= after.len()
        &&& after.subrange(0, before.len() as int) == before
        &&& after.skip(before.len() as int) + n.queue_of(k) == m.queued[k]
        &&& n.queued.contains_key(k) ==> n.shut.contains(c)
        &&& m.shut.contains(c) ==> after == before
    } else {
        n.queued.contains_key(k) && n.queued[k] == m.queued[k]
    }
}

/// `n` is the registry `m` after a sweep of its queues.
pub open spec fn swept(m: RouterModel, n: RouterModel) -> bool {
    &&& n.live == m.live
    &&& n.bound == m.bound
    &&& n.reverse == m.reverse
    &&& n.outbox.dom() == m.outbox.dom()
    &&& m.shut.subset_of(n.shut)
    &&& forall|c: ConnId|
        #[trigger] n.shut.contains(c) && !m.shut.contains(c) ==> m.reverse.contains_key(c)
            && m.queued.contains_key(m.reverse[c])
    &&& forall|k: Seq<char>| #[trigger] n.queued.contains_key(k) ==> m.queued.contains_key(k)
    &&& forall|k: Seq<char>| #[trigger] n.queued.contains_key(k) ==> n.queued[k].len() > 0
    &&& forall|k: Seq<char>|
        #[trigger] m.queued.contains_key(k) && m.bound.contains_key(k) && !n.shut.contains(
            m.bound[k],
        ) ==> !n.queued.contains_key(k)
    &&& forall|k: Seq<char>| #[trigger] m.queued.contains_key(k) ==> key_swept(m, n, k)
    &&& forall|c: ConnId|
        #[trigger] m.outbox.contains_key(c) && !(m.reverse.contains_key(c)
            && m.queued.contains_key(m.reverse[c])) ==> n.outbox[c] == m.outbox[c]
}

/// The connection registry. Every operation goes through `&mut self`, so
/// whoever owns it applies them one at a time.
pub struct WsServer {
    /// Outbound channel of each registered connection.
    sessions: HashMap<ConnId, Outbound>,
    /// Forward bindings, one entry per bound key.
    client_list: Vec<(String, ConnId)>,
    /// Reverse bindings.
    client_list_reverse: HashMap<ConnId, String>,
    /// Per-key queues, one entry per key with a non-empty queue.
    pending_messages: Vec<(String, Vec<String>)>,
    bound: Ghost<Map<Seq<char>, ConnId>>,
    queued: Ghost<Map<Seq<char>, Seq<Seq<char>>>>,
}

/// The characters of each queued payload.
pub open spec fn queue_view(q: Seq<String>) -> Seq<Seq<char>> {
    q.map_values(|s: String| s@)
}

impl View for WsServer {
    type V = RouterModel;

    closed spec fn view(&self) -> RouterModel {
        RouterModel {
            live: self.sessions@.dom(),
            bound: self.bound@,
            reverse: self.client_list_reverse@.map_values(|s: String| s@),
            queued: self.queued@,
            outbox: self.sessions@.map_values(|o: Outbound| o.sent()),
            shut: Set::new(
                |c: ConnId| self.sessions@.contains_key(c) && self.sessions@[c].is_closed(),
            ),
        }
    }
}

/// `list` holds one entry per key of `m`, with the value that `m` gives it.
pub open spec fn entries_match<T, U>(
    list: Seq<(String, T)>,
    m: Map<Seq<char>, U>,
    f: spec_fn(T) -> U,
) -> bool {
    &&& forall|i: int, j: int| 0 <= i < j < list.len() ==> list[i].0@ != list[j].0@
    &&& forall|i: int|
        0 <= i < list.len() ==> {
            &&& m.contains_key(#[trigger] list[i].0@)
            &&& m[list[i].0@] == f(list[i].1)
        }
    &&& forall|k: Seq<char>| #[trigger]
        m.contains_key(k) ==> exists|i: int| 0 <= i < list.len() && #[trigger] list[i].0@ == k
}

proof fn lemma_entries_remove<T, U>(
    list: Seq<(String, T)>,
    m: Map<Seq<char>, U>,
    f: spec_fn(T) -> U,
    i: int,
)
    requires
        entries_match(list, m, f),
        0 <= i < list.len(),
    ensures
        entries_match(list.remove(i), m.remove(list[i].0@), f),
{
    let l2 = list.remove(i);
    let m2 = m.remove(list[i].0@);
    assert forall|k: Seq<char>| #[trigger] m2.contains_key(k) implies exists|j: int|
        0 <= j < l2.len() && #[trigger] l2[j].0@ == k by {
        let j = choose|j: int| 0 <= j < list.len() && #[trigger] list[j].0@ == k;
        if j < i {
            assert(l2[j].0@ == k);
        } else {
            assert(j != i);
            assert(l2[j - 1].0@ == k);
        }
    }
}

proof fn lemma_entries_push<T, U>(
    list: Seq<(String, T)>,
    m: Map<Seq<char>, U>,
    f: spec_fn(T) -> U,
    e: (String, T),
)
    requires
        entries_match(list, m, f),
        !m.contains_key(e.0@),
    ensures
        entries_match(list.push(e), m.insert(e.0@, f(e.1)), f),
{
    let l2 = list.push(e);
    let m2 = m.insert(e.0@, f(e.1));
    assert forall|k: Seq<char>| #[trigger] m2.contains_key(k) implies exists|j: int|
        0 <= j < l2.len() && #[trigger] l2[j].0@ == k by {
        if k == e.0@ {
            assert(l2[list.len() as int].0@ == k);
        } else {
            let j = choose|j: int| 0 <= j < list.len() && #[trigger] list[j].0@ == k;
            assert(l2[j].0@ == k);
        }
    }
}

proof fn lemma_entries_update<T, U>(
    list: Seq<(String, T)>,
    m: Map<Seq<char>, U>,
    f: spec_fn(T) -> U,
    i: int,
    v: T,
)
    requires
        entries_match(list, m, f),
        0 <= i < list.len(),
    ensures
        entries_match(list.update(i, (list[i].0, v)), m.insert(list[i].0@, f(v)), f),
{
    let l2 = list.update(i, (list[i].0, v));
    let m2 = m.insert(list[i].0@, f(v));
    assert forall|k: Seq<char>| #[trigger] m2.contains_key(k) implies exists|j: int|
        0 <= j < l2.len() && #[trigger] l2[j].0@ == k by {
        if k == list[i].0@ {
            assert(l2[i].0@ == k);
        } else {
            let j = choose|j: int| 0 <= j < list.len() && #[trigger] list[j].0@ == k;
            assert(l2[j].0@ == k);
        }
    }
}

impl WsServer {
    /// The model is well formed, and the lists hold exactly the bindings
    /// and the queues that the model records.
    pub closed spec fn wf(&self) -> bool {
        &&& self@.wf()
        &&& entries_match(self.client_list@, self.bound@, |c: ConnId| c)
        &&& entries_match(
            self.pending_messages@,
            self.queued@,
            |q: Vec<String>| queue_view(q@),
        )
    }

    /// An empty registry.
    pub fn new() -> (r: WsServer)
        ensures
            r.wf(),
            r@.wf(),
            r@.live.is_empty(),
            r@.outbox.is_empty(),
            r@.shut.is_empty(),
            r@.bound.is_empty(),
            r@.reverse.is_empty(),
            r@.queued.is_empty(),
    {
        let r = WsServer {
            sessions: HashMap::new(),
            client_list: Vec::new(),
            client_list_reverse: HashMap::new(),
            pending_messages: Vec::new(),
            bound: Ghost(Map::empty()),
            queued: Ghost(Map::empty()),
        };
        assert(r@.reverse =~= Map::empty());
        assert(r@.outbox =~= Map::empty());
        assert(r@.shut =~= Set::empty());
        r
    }
}

/// The identifier tried after `j` taken ones, counting up from `start`.
spec fn probe(start: u32, j: int) -> int {
    (start as int + j) % 0x1_0000_0000
}

/// Index of the entry whose key is `key`, if there is one.
fn position_of<T>(list: &Vec<(String, T)>, key: &String) -> (r: Option<usize>)
    ensures
        match r {
            Some(i) => i < list@.len() && list@[i as int].0@ == key@,
            None => forall|i: int| 0 <= i < list@.len() ==> #[trigger] list@[i].0@ != key@,
        },
{
    let mut i: usize = 0;
    while i < list.len()
        invariant
            i <= list@.len(),
            forall|j: int| 0 <= j < i ==> #[trigger] list@[j].0@ != key@,
        decreases list@.len() - i,
    {
        if list[i].0 == *key {
            return Some(i);
        }
        i = i + 1;
    }
    None
}

impl WsServer {
    /// Registers the outbound channel of a new connection under a fresh
    /// identifier. The identifier is drawn at random; when the draw is
    /// taken, the next free one after it is used.
    pub fn connect(&mut self, tx: UnboundedSender<String>) -> (r: ConnId)
        requires
            old(self).wf(),
            old(self)@.live.len() < u32::MAX,
        ensures
            final(self).wf(),
            final(self)@.wf(),
            !old(self)@.live.contains(r),
            final(self)@ == connect_next(old(self)@, r),
    {
        let start = draw_conn_id();
        let mut id: u32 = start;
        let mut i: u64 = 0;
        let ghost mut seen: Set<u32> = Set::empty();
        let ghost dom = self.sessions@.dom();
        proof {
            assert(dom.finite());
        }
        while self.sessions.contains_key(&id)
            invariant
                self.sessions@.dom() == dom,
                dom.finite(),
                dom.len() < u32::MAX,
                i <= dom.len(),
                seen.finite(),
                seen.len() == i,
                seen.subset_of(dom),
                id as int == probe(start, i as int),
                forall|x: u32|
                    #[trigger] seen.contains(x) ==> exists|j: int|
                        0 <= j < i && x as int == #[trigger] probe(start, j),
            decreases dom.len() - i,
        {
            proof {
                if seen.contains(id) {
                    let j = choose|j: int| 0 <= j < i && id as int == #[trigger] probe(start, j);
                    assert(false);
                }
                seen = seen.insert(id);
                if i + 1 > dom.len() {
                    vstd::set_lib::lemma_len_subset(seen, dom);
                    assert(false);
                }
            }
            i = i + 1;
            id = if id == u32::MAX {
                0
            } else {
                id + 1
            };
        }
        let ghost before = self@;
        self.sessions.insert(id, Outbound::new(tx));
        proof {
            assert(self@.live =~= connect_next(before, id).live);
            assert(self@.outbox =~= connect_next(before, id).outbox);
            assert(self@.shut =~= before.shut);
            assert(self@.outbox.dom() =~= self@.live);
            assert(self@ == connect_next(before, id));
            lemma_connect_wf(before, id);
        }
        id
    }

    /// Removes the binding that names `conn`, from both directions.
    fn unbind(&mut self, conn: ConnId)
        requires
            old(self).wf(),
        ensures
            final(self).wf(),
            final(self)@ == (RouterModel {
                bound: unbind_conn(old(self)@.bound, conn),
                reverse: old(self)@.reverse.remove(conn),
                ..old(self)@
            }),
            final(self).sessions@ == old(self).sessions@,
    {
        let ghost before = self@;
        let ghost post = RouterModel {
            bound: unbind_conn(before.bound, conn),
            reverse: before.reverse.remove(conn),
            ..before
        };
        match self.client_list_reverse.remove(&conn) {
            Some(key) => {
                proof {
                    assert(before.reverse.contains_key(conn));
                    assert(before.reverse[conn] == key@);
                }
                let ghost old_list = self.client_list@;
                let idx = position_of(&self.client_list, &key);
                match idx {
                    Some(i) => {
                        self.client_list.remove(i);
                    },
                    None => {
                        assert(before.bound.contains_key(key@));
                        assert(false);
                    },
                }
                self.bound = Ghost(self.bound@.remove(key@));
                proof {
                    lemma_entries_remove(
                        old_list,
                        before.bound,
                        |c: ConnId| c,
                        idx.unwrap() as int,
                    );
                    assert forall|k: Seq<char>|
                        #[trigger] before.bound.contains_key(k) && before.bound[k] == conn
                            implies k == key@ by {
                        assert(before.reverse.contains_key(conn));
                    }
                    assert(self.bound@ =~= unbind_conn(before.bound, conn));
                }
            },
            None => {
                proof {
                    assert(self.bound@ =~= unbind_conn(before.bound, conn));
                }
            },
        }
        proof {
            assert(self@.reverse =~= post.reverse);
            assert(self@ == post);
            lemma_unbind_wf(before, conn);
        }
    }

    /// Drops the outbound channel of `conn` and the binding that names it,
    /// if any. Unknown identifiers are ignored.
    pub fn disconnect(&mut self, conn: ConnId)
        requires
            old(self).wf(),
        ensures
            final(self).wf(),
            final(self)@.wf(),
            final(self)@ == disconnect_next(old(self)@, conn),
    {
        let ghost before = self@;
        self.unbind(conn);
        self.sessions.remove(&conn);
        proof {
            assert(self@.live =~= disconnect_next(before, conn).live);
            assert(self@.outbox =~= disconnect_next(before, conn).outbox);
            assert(self@.shut =~= disconnect_next(before, conn).shut);
            assert(self@ == disconnect_next(before, conn));
            lemma_disconnect_wf(before, conn);
        }
    }

    /// The refusal that verifying `key` on `conn` meets whatever the
    /// credential store would answer: `DuplicateKey` when `key` is bound to
    /// another connection, else `NotConnected` when `conn` is not
    /// registered. `None` when the store's answer decides, so the store is
    /// consulted only then.
    pub fn duplicate_of(&self, key: &String, conn: ConnId) -> (r: Option<VerifyError>)
        requires
            self.wf(),
        ensures
            r == precheck(self@, key@, conn),
    {
        match binding_in(&self.client_list, key, Ghost(self.bound@)) {
            Some(c) => {
                if c != conn {
                    return Some(VerifyError::DuplicateKey);
                }
            },
            None => {},
        }
        if !self.sessions.contains_key(&conn) {
            return Some(VerifyError::NotConnected);
        }
        None
    }

    /// Binds `key` to `conn` once the credential store has answered
    /// `found` for it: `Some(name)` when it holds an entry for the key.
    /// A key bound to a different connection is refused before the answer
    /// is looked at; a connection bound to another key gives that binding up.
    pub fn verify(&mut self, key: String, conn: ConnId, found: Option<String>) -> (r: Result<
        String,
        VerifyError,
    >)
        requires
            old(self).wf(),
        ensures
            final(self).wf(),
            final(self)@.wf(),
            result_view(r) == verify_outcome(old(self)@, key@, conn, option_view(found)),
            final(self)@ == verify_next(old(self)@, key@, conn, option_view(found)),
    {
        match self.duplicate_of(&key, conn) {
            Some(e) => {
                return Err(e);
            },
            None => {},
        }
        let already = match binding_in(&self.client_list, &key, Ghost(self.bound@)) {
            Some(c) => c == conn,
            None => false,
        };
        let name = match found {
            None => {
                return Err(VerifyError::UnknownKey);
            },
            Some(name) => name,
        };
        if already {
            proof {
                let post = verify_next(old(self)@, key@, conn, option_view(Some(name)));
                assert(post.bound =~= self@.bound);
                assert(post.reverse =~= self@.reverse);
            }
            return Ok(name);
        }
        let ghost before = self@;
        self.unbind(conn);
        let ghost mid = self@;
        let ghost old_list = self.client_list@;
        self.client_list.push((key.clone(), conn));
        self.client_list_reverse.insert(conn, key);
        self.bound = Ghost(self.bound@.insert(key@, conn));
        proof {
            lemma_entries_push(old_list, mid.bound, |c: ConnId| c, (key, conn));
            let post = verify_next(before, key@, conn, option_view(Some(name)));
            assert(self@.reverse =~= mid.reverse.insert(conn, key@));
            assert(mid.reverse =~= before.reverse.remove(conn));
            assert(self@.reverse =~= post.reverse);
            assert(self@.bound =~= post.bound);
            assert(self@ == post);
            lemma_bind_wf(before, key@, conn);
        }
        Ok(name)
    }
}

/// The connection that `list` binds `key` to, if any.
fn binding_in(
    list: &Vec<(String, ConnId)>,
    key: &String,
    Ghost(m): Ghost<Map<Seq<char>, ConnId>>,
) -> (r: Option<ConnId>)
    requires
        entries_match(list@, m, |c: ConnId| c),
    ensures
        r == (if m.contains_key(key@) {
            Some(m[key@])
        } else {
            None::<ConnId>
        }),
{
    match position_of(list, key) {
        Some(i) => Some(list[i].1),
        None => None,
    }
}

/// Pushes `items` in order on `out`, stopping at the first push that
/// fails, which leaves `out` closed; returns how many went out.
fn push_in_order(out: &mut Outbound, items: &Vec<String>) -> (n: usize)
    ensures
        n <= items@.len(),
        final(out).sent() == old(out).sent() + queue_view(items@).take(n as int),
        n < items@.len() ==> final(out).is_closed(),
        n == items@.len() ==> final(out).is_closed() == old(out).is_closed(),
        old(out).is_closed() ==> n == 0,
{
    let mut n: usize = 0;
    let mut stopped = false;
    while n < items.len() && !stopped
        invariant
            n <= items@.len(),
            out.sent() == old(out).sent() + queue_view(items@).take(n as int),
            stopped ==> out.is_closed() && n < items@.len(),
            !stopped ==> out.is_closed() == old(out).is_closed(),
            old(out).is_closed() ==> n == 0,
        decreases items@.len() - n + (if stopped { 0int } else { 1int }),
    {
        let item = items[n].clone();
        let ghost prev = out.sent();
        if out.push(item) {
            proof {
                assert(queue_view(items@).take(n + 1) =~= queue_view(items@).take(n as int).push(
                    items@[n as int]@,
                ));
            }
            n = n + 1;
        } else {
            stopped = true;
        }
    }
    n
}

impl WsServer {
    /// The connection bound to `key`, if any.
    pub fn bound_conn(&self, key: &String) -> (r: Option<ConnId>)
        requires
            self.wf(),
        ensures
            r == (if self@.bound.contains_key(key@) {
                Some(self@.bound[key@])
            } else {
                None::<ConnId>
            }),
    {
        binding_in(&self.client_list, key, Ghost(self.bound@))
    }

    /// Whether a payload for `key` would be pushed at once rather than
    /// queued: nothing for `key` waits, and `key` is bound.
    pub fn route_target(&self, key: &String) -> (r: Option<ConnId>)
        requires
            self.wf(),
        ensures
            r == (if self@.direct(key@) {
                Some(self@.bound[key@])
            } else {
                None::<ConnId>
            }),
    {
        if position_of(&self.pending_messages, key).is_some() {
            return None;
        }
        self.bound_conn(key)
    }

    /// Appends `payload` to the queue of `key`.
    pub fn queue_message(&mut self, key: String, payload: String)
        requires
            old(self).wf(),
        ensures
            final(self).wf(),
            final(self)@.wf(),
            final(self)@ == enqueue(old(self)@, key@, payload@),
    {
        let ghost before = self@;
        let ghost old_list = self.pending_messages@;
        let ghost pv = payload@;
        match position_of(&self.pending_messages, &key) {
            Some(i) => {
                let (k, mut q) = self.pending_messages.remove(i);
                q.push(payload);
                self.pending_messages.insert(i, (k, q));
                proof {
                    assert(self.pending_messages@ =~= old_list.update(i as int, (k, q)));
                    lemma_entries_update(
                        old_list,
                        before.queued,
                        |q: Vec<String>| queue_view(q@),
                        i as int,
                        q,
                    );
                    assert(queue_view(q@) =~= before.queue_of(key@).push(pv));
                }
                self.queued = Ghost(self.queued@.insert(key@, queue_view(q@)));
            },
            None => {
                let mut q: Vec<String> = Vec::new();
                q.push(payload);
                let ghost qv = q;
                self.pending_messages.push((key, q));
                proof {
                    lemma_entries_push(
                        old_list,
                        before.queued,
                        |q: Vec<String>| queue_view(q@),
                        (key, qv),
                    );
                    assert(queue_view(qv@) =~= before.queue_of(key@).push(pv));
                }
                self.queued = Ghost(self.queued@.insert(key@, queue_view(q@)));
            },
        }
        proof {
            assert(self@ == enqueue(before, key@, pv));
        }
    }

    /// Delivers `payload` to `key`: pushed on the channel of the bound
    /// connection when nothing for `key` waits, queued otherwise or when
    /// the push fails, which marks that connection shut. Returns whether
    /// it was pushed.
    pub fn add_player(&mut self, key: String, payload: String) -> (sent: bool)
        requires
            old(self).wf(),
        ensures
            final(self).wf(),
            final(self)@.wf(),
            sent ==> old(self)@.direct(key@) && !old(self)@.shut.contains(old(self)@.bound[key@]),
            old(self)@.direct(key@) && !final(self)@.shut.contains(old(self)@.bound[key@]) ==> sent,
            final(self)@ == deliver_next(old(self)@, key@, payload@, sent),
    {
        let ghost before = self@;
        let ghost pv = payload@;
        match self.route_target(&key) {
            Some(c) => {
                match self.sessions.remove(&c) {
                    Some(mut out) => {
                        let ok = out.push(payload.clone());
                        self.sessions.insert(c, out);
                        if ok {
                            proof {
                                assert(self@.live =~= before.live);
                                assert(self@.outbox =~= push_to(before, key@, pv).outbox);
                                assert(self@.shut =~= before.shut);
                                assert(self@ == push_to(before, key@, pv));
                            }
                            return true;
                        }
                        proof {
                            assert(self@.live =~= before.live);
                            assert(self@.outbox =~= before.outbox);
                            assert(self@.shut =~= before.shut.insert(c));
                            assert(self@ == mark_shut(before, c));
                        }
                    },
                    None => {
                        assert(false);
                    },
                }
            },
            None => {},
        }
        self.queue_message(key, payload);
        false
    }
}

impl WsServer {
    /// Retries every queue whose key is bound: its payloads are pushed in
    /// order until one fails, and the rest stays queued. Emptied queues
    /// are dropped.
    pub fn process_pending_messages(&mut self)
        requires
            old(self).wf(),
        ensures
            final(self).wf(),
            final(self)@.wf(),
            swept(old(self)@, final(self)@),
    {
        let ghost before = self@;
        let ghost olds = self.sessions@;
        let mut entries: Vec<(String, Vec<String>)> = Vec::new();
        std::mem::swap(&mut entries, &mut self.pending_messages);
        let ghost olde = entries@;
        let mut kept: Vec<(String, Vec<String>)> = Vec::new();
        let ghost mut nq: Map<Seq<char>, Seq<Seq<char>>> = Map::empty();
        let ghost mut done: Set<Seq<char>> = Set::empty();
        while entries.len() > 0
            invariant
                entries_match(olde, before.queued, |q: Vec<String>| queue_view(q@)),
                entries@.len() <= olde.len(),
                entries@ == olde.subrange(0, entries@.len() as int),
                self.sessions@.dom() == olds.dom(),
                before.live == olds.dom(),
                before.outbox == olds.map_values(|o: Outbound| o.sent()),
                before.shut == Set::new(
                    |c: ConnId| olds.contains_key(c) && olds[c].is_closed(),
                ),
                entries_match(self.client_list@, self.bound@, |c: ConnId| c),
                self.bound@ == before.bound,
                self.client_list_reverse@.map_values(|s: String| s@) == before.reverse,
                self.queued@ == before.queued,
                before.wf(),
                entries_match(kept@, nq, |q: Vec<String>| queue_view(q@)),
                forall|k: Seq<char>| #[trigger] nq.contains_key(k) ==> done.contains(k),
                forall|k: Seq<char>| #[trigger] nq.contains_key(k) ==> nq[k].len() > 0,
                forall|j: int|
                    0 <= j < entries@.len() ==> !done.contains(#[trigger] olde[j].0@),
                forall|j: int|
                    entries@.len() <= j < olde.len() ==> done.contains(#[trigger] olde[j].0@),
                forall|k: Seq<char>| #[trigger]
                    done.contains(k) ==> before.queued.contains_key(k) && key_swept(
                        before,
                        RouterModel { queued: nq, outbox: self@.outbox, shut: self@.shut, ..before },
                        k,
                    ),
                forall|c: ConnId|
                    #[trigger] olds.contains_key(c) && !(before.reverse.contains_key(c)
                        && done.contains(before.reverse[c])) ==> self.sessions@[c] == olds[c],
                before.shut.subset_of(self@.shut),
                forall|c: ConnId|
                    #[trigger] self@.shut.contains(c) && !before.shut.contains(c)
                        ==> before.reverse.contains_key(c) && done.contains(before.reverse[c]),
            decreases entries@.len(),
        {
            let ghost last = entries@.len() - 1;
            let (key, mut items) = entries.pop().unwrap();
            let ghost kv = key@;
            let ghost iv = queue_view(items@);
            proof {
                assert(olde[last].0@ == kv);
                assert(before.queued[kv] == iv);
                assert(!done.contains(kv));
            }
            let ghost prev_sessions = self.sessions@;
            let ghost prev_model = self@;
            let ghost prev_nq = nq;
            let mut n: usize = 0;
            let target = binding_in(&self.client_list, &key, Ghost(self.bound@));
            match target {
                Some(c) => {
                    proof {
                        assert(before.reverse[c] == kv);
                        assert(prev_sessions[c] == olds[c]);
                    }
                    match self.sessions.remove(&c) {
                        Some(mut out) => {
                            n = push_in_order(&mut out, &items);
                            self.sessions.insert(c, out);
                        },
                        None => {
                            assert(false);
                        },
                    }
                },
                None => {},
            }
            let rest = items.split_off(n);
            let ghost rv = queue_view(rest@);
            proof {
                assert(iv.take(n as int) + rv =~= iv);
            }
            if rest.len() > 0 {
                let ghost old_kept = kept@;
                let ghost rest_g = rest;
                kept.push((key, rest));
                proof {
                    lemma_entries_push(old_kept, nq, |q: Vec<String>| queue_view(q@), (key, rest_g));
                    nq = nq.insert(kv, rv);
                }
            }
            proof {
                assert forall|j: int| 0 <= j < entries@.len() implies olde[j].0@ != kv by {
                    assert(j < last);
                }
                done = done.insert(kv);
                let cur = RouterModel {
                    queued: nq,
                    outbox: self@.outbox,
                    shut: self@.shut,
                    ..before
                };
                let prev = RouterModel {
                    queued: prev_nq,
                    outbox: prev_model.outbox,
                    shut: prev_model.shut,
                    ..before
                };
                assert forall|c2: ConnId|
                    #[trigger] prev_sessions.contains_key(c2) && (target is None
                        || c2 != target.unwrap()) implies self.sessions@[c2]
                        == prev_sessions[c2] && self@.outbox[c2] == prev_model.outbox[c2] && (
                    self@.shut.contains(c2) == prev_model.shut.contains(c2)) by {}
                assert forall|k: Seq<char>| #[trigger]
                    done.contains(k) implies before.queued.contains_key(k) && key_swept(
                    before,
                    cur,
                    k,
                ) by {
                    if k == kv {
                        assert(before.queued.contains_key(k));
                        if before.bound.contains_key(k) {
                            let c = before.bound[k];
                            let b = before.outbox[c];
                            assert(target == Some(c));
                            assert(self@.outbox[c] == b + iv.take(n as int));
                            assert(self@.outbox[c].skip(b.len() as int) =~= iv.take(n as int));
                            assert(self@.outbox[c].subrange(0, b.len() as int) =~= b);
                            if rest@.len() > 0 {
                                assert(cur.queue_of(k) =~= rv);
                                assert(self@.shut.contains(c));
                            } else {
                                assert(cur.queue_of(k) =~= rv);
                            }
                            if before.shut.contains(c) {
                                assert(olds[c].is_closed());
                                assert(n == 0);
                                assert(self@.outbox[c] =~= b);
                            }
                        } else {
                            assert(n == 0);
                            assert(rv =~= iv);
                        }
                    } else {
                        assert(key_swept(before, prev, k));
                        assert(cur.queue_of(k) == prev.queue_of(k));
                        if before.bound.contains_key(k) {
                            let c = before.bound[k];
                            assert(before.reverse[c] == k);
                            if target is Some {
                                assert(before.bound[kv] != c);
                            }
                            assert(prev_sessions.contains_key(c));
                        }
                    }
                }
                assert forall|c: ConnId|
                    #[trigger] olds.contains_key(c) && !(before.reverse.contains_key(c)
                        && done.contains(before.reverse[c])) implies self.sessions@[c]
                        == olds[c] by {
                    if target is Some && c == target.unwrap() {
                        assert(before.reverse[c] == kv);
                    }
                }
                assert forall|c: ConnId| #[trigger] before.shut.contains(c) implies self@.shut.contains(
                    c,
                ) by {
                    assert(prev_model.shut.contains(c));
                    if target is Some && c == target.unwrap() {
                        assert(olds[c].is_closed());
                        assert(iv.len() > 0);
                    }
                }
                assert forall|c: ConnId|
                    #[trigger] self@.shut.contains(c) && !before.shut.contains(c) implies before.reverse.contains_key(c)
                        && done.contains(before.reverse[c]) by {
                    if target is Some && c == target.unwrap() {
                        assert(before.reverse[c] == kv);
                    } else {
                        assert(prev_model.shut.contains(c));
                    }
                }
            }
        }
        self.pending_messages = kept;
        self.queued = Ghost(nq);
        proof {
            assert forall|k: Seq<char>| #[trigger] before.queued.contains_key(k) implies done.contains(k) by {
                let j = choose|j: int| 0 <= j < olde.len() && #[trigger] olde[j].0@ == k;
            }
            assert(self@.live == before.live);
            assert(self@.reverse == before.reverse);
            assert(self@.outbox.dom() =~= before.outbox.dom());
            assert forall|k: Seq<char>|
                #[trigger] before.queued.contains_key(k) && before.bound.contains_key(k)
                    && !self@.shut.contains(before.bound[k]) implies !self@.queued.contains_key(k) by {
                assert(key_swept(before, self@, k));
            }
            assert forall|c: ConnId|
                #[trigger] before.outbox.contains_key(c) && !(before.reverse.contains_key(c)
                    && before.queued.contains_key(before.reverse[c])) implies self@.outbox[c]
                    == before.outbox[c] by {
                if before.reverse.contains_key(c) && done.contains(before.reverse[c]) {
                    assert(before.queued.contains_key(before.reverse[c]));
                }
            }
            assert(swept(before, self@));
            assert(self@.wf());
        }
    }
}

impl WsServer {
    /// Number of registered connections.
    pub fn live_count(&self) -> (r: usize)
        requires
            self.wf(),
        ensures
            r == self@.live.len(),
    {
        self.sessions.len()
    }

    /// Whether `conn` is registered.
    pub fn is_live(&self, conn: ConnId) -> (r: bool)
        ensures
            r == self@.live.contains(conn),
    {
        self.sessions.contains_key(&conn)
    }

    /// The key bound to `conn`, if any.
    pub fn key_of(&self, conn: ConnId) -> (r: Option<String>)
        ensures
            option_view(r) == (if self@.reverse.contains_key(conn) {
                Some(self@.reverse[conn])
            } else {
                None::<Seq<char>>
            }),
    {
        match self.client_list_reverse.get(&conn) {
            Some(k) => Some(k.clone()),
            None => None,
        }
    }

    /// The payloads queued for `key`, oldest first.
    pub fn pending_for(&self, key: &String) -> (r: Vec<String>)
        requires
            self.wf(),
        ensures
            queue_view(r@) == self@.queue_of(key@),
    {
        let mut out: Vec<String> = Vec::new();
        match position_of(&self.pending_messages, key) {
            Some(i) => {
                let q = &self.pending_messages[i].1;
                let mut j: usize = 0;
                while j < q.len()
                    invariant
                        j <= q@.len(),
                        queue_view(out@) == queue_view(q@).take(j as int),
                    decreases q@.len() - j,
                {
                    let item = q[j].clone();
                    let ghost prev = out@;
                    out.push(item);
                    proof {
                        assert(item@ == q@[j as int]@);
                        assert(out@ == prev.push(item));
                        assert(queue_view(out@) =~= queue_view(prev).push(item@));
                        assert(queue_view(out@) =~= queue_view(q@).take(j + 1));
                    }
                    j = j + 1;
                }
                proof {
                    assert(queue_view(q@).take(q@.len() as int) =~= queue_view(q@));
                }
            },
            None => {
                proof {
                    assert(queue_view(out@) =~= Seq::<Seq<char>>::empty());
                }
            },
        }
        out
    }
}

/// A key is bound to at most one connection. Once verifying `k` on `c1`
/// has succeeded, `k` is bound to `c1`, and verifying `k` on any other
/// connection `c2` is refused as a duplicate and leaves the registry as
/// it was.
pub proof fn lemma_one_binding_per_key(
    m: RouterModel,
    k: Seq<char>,
    c1: ConnId,
    c2: ConnId,
    f1: Option<Seq<char>>,
    f2: Option<Seq<char>>,
)
    requires
        m.wf(),
        verify_outcome(m, k, c1, f1) is Ok,
        c1 != c2,
    ensures
        verify_next(m, k, c1, f1).wf(),
        verify_next(m, k, c1, f1).bound[k] == c1,
        verify_outcome(verify_next(m, k, c1, f1), k, c2, f2) == Err::<Seq<char>, VerifyError>(
            VerifyError::DuplicateKey,
        ),
        verify_next(verify_next(m, k, c1, f1), k, c2, f2) == verify_next(m, k, c1, f1),
{
    lemma_bind_wf(m, k, c1);
}

/// Disconnecting `c` leaves no binding that names it, in either
/// direction, and keeps every other binding; disconnecting an identifier
/// that is not registered changes nothing.
pub proof fn lemma_disconnect_releases(m: RouterModel, c: ConnId)
    requires
        m.wf(),
    ensures
        disconnect_next(m, c).wf(),
        !disconnect_next(m, c).reverse.contains_key(c),
        forall|k: Seq<char>| #[trigger]
            disconnect_next(m, c).bound.contains_key(k) ==> disconnect_next(m, c).bound[k] != c,
        forall|k: Seq<char>|
            #[trigger] m.bound.contains_key(k) && m.bound[k] != c ==> disconnect_next(
                m,
                c,
            ).bound.contains_key(k) && disconnect_next(m, c).bound[k] == m.bound[k],
        !m.live.contains(c) ==> disconnect_next(m, c) == m,
{
    lemma_disconnect_wf(m, c);
    if !m.live.contains(c) {
        let n = disconnect_next(m, c);
        assert(n.live =~= m.live);
        assert(n.bound =~= m.bound);
        assert(n.reverse =~= m.reverse) by {
            if m.reverse.contains_key(c) {
                assert(m.bound.contains_key(m.reverse[c]));
            }
        }
        assert(n.outbox =~= m.outbox);
        assert(n.shut =~= m.shut);
    }
}

/// With no binding for `k`, delivering `p1` and then `p2` pushes neither:
/// both join the end of the queue of `k`, once each, in call order.
pub proof fn lemma_unbound_deliveries_queue(
    m: RouterModel,
    k: Seq<char>,
    p1: Seq<char>,
    p2: Seq<char>,
    sent1: bool,
    sent2: bool,
)
    requires
        m.wf(),
        !m.bound.contains_key(k),
        sent1 ==> m.direct(k),
        sent2 ==> deliver_next(m, k, p1, sent1).direct(k),
    ensures
        !sent1,
        !sent2,
        deliver_next(deliver_next(m, k, p1, sent1), k, p2, sent2).queued[k] == m.queue_of(k).push(
            p1,
        ).push(p2),
{
}

/// Payloads queued for `k` keep their place: after `k` is bound by a
/// successful verification on `c`, a new delivery `p` to `k` lines up
/// behind them, and the next sweep pushes to `c` a prefix of that line,
/// in order, leaving the rest queued; when `c` is not shut after the
/// sweep, the whole line went out and nothing stays queued.
pub proof fn lemma_sweep_keeps_order(
    m: RouterModel,
    k: Seq<char>,
    c: ConnId,
    found: Option<Seq<char>>,
    p: Seq<char>,
    sent: bool,
    n: RouterModel,
)
    requires
        m.wf(),
        m.queued.contains_key(k),
        verify_outcome(m, k, c, found) is Ok,
        sent ==> verify_next(m, k, c, found).direct(k),
        swept(deliver_next(verify_next(m, k, c, found), k, p, sent), n),
    ensures
        !sent,
        n.bound[k] == c,
        n.outbox[c].subrange(0, m.outbox[c].len() as int) == m.outbox[c],
        n.outbox[c].skip(m.outbox[c].len() as int) + n.queue_of(k) == m.queued[k].push(p),
        !n.shut.contains(c) ==> n.outbox[c].skip(m.outbox[c].len() as int) == m.queued[k].push(p)
            && !n.queued.contains_key(k),
{
    let m1 = verify_next(m, k, c, found);
    let m2 = deliver_next(m1, k, p, sent);
    assert(m2.queued.contains_key(k));
    assert(key_swept(m2, n, k));
}

} // verus!
