//! The hub: the registry of attached peers, the router of inbound
//! messages, the owner of the duplicate filter, and the idle sweep.

use vstd::prelude::*;
use crate::client::Client;
use crate::client::spec_expired;
use crate::filter::DuplicateFilter;
use crate::filter::key_for_filter;
use crate::filter::put_keys;
use crate::jsonval::elems_of_value;
use crate::jsonval::value_as_array;
use crate::jsonval::clone_value;
use crate::msg::MsgModel;
use crate::msg::SignalMsg;
use crate::msg::effective_dest;
use crate::msg::elem_model;
use crate::msg::elem_msg;
use crate::msg::forwarded_model;
use crate::msg::forwarded_msg;
use crate::msg::not_found_model;
use crate::msg::not_found_msg;
use crate::msg::pong_model;
use crate::msg::pong_msg;

verus! {

/// The client registered under an id: the first (and, in a well-formed
/// hub, only) entry with that `peer_id`.
pub open spec fn spec_get(s: Seq<Client>, id: Seq<char>) -> Option<Client>
    decreases s.len(),
{
    if s.len() == 0 {
        None
    } else if s[0].peer_id@ == id {
        Some(s[0])
    } else {
        spec_get(s.skip(1), id)
    }
}

pub open spec fn spec_has(s: Seq<Client>, id: Seq<char>) -> bool {
    spec_get(s, id) is Some
}

/// Every registered id occurs once.
pub open spec fn unique_ids(s: Seq<Client>) -> bool {
    forall|i: int, j: int|
        0 <= i < j < s.len() ==> #[trigger] s[i].peer_id@ != #[trigger] s[j].peer_id@
}

/// If the first `i` entries miss the id and entry `i` (if any) carries
/// it, the lookup result is decided.
proof fn lemma_spec_get_at(s: Seq<Client>, id: Seq<char>, i: int)
    requires
        0 <= i <= s.len(),
        forall|j: int| 0 <= j < i ==> #[trigger] s[j].peer_id@ != id,
        i < s.len() ==> s[i].peer_id@ == id,
    ensures
        i < s.len() ==> spec_get(s, id) == Some(s[i]),
        i == s.len() ==> spec_get(s, id) is None,
    decreases s.len(),
{
    if s.len() == 0 {
    } else if s[0].peer_id@ == id {
        assert(i == 0);
    } else {
        assert forall|j: int| 0 <= j < i - 1 implies #[trigger] s.skip(1)[j].peer_id@ != id by {
            assert(s.skip(1)[j] == s[j + 1]);
        }
        assert(i - 1 < s.skip(1).len() ==> s.skip(1)[i - 1].peer_id@ == id);
        lemma_spec_get_at(s.skip(1), id, i - 1);
    }
}

/// The lookup result is witnessed by an index, and a missing id misses
/// every entry.
proof fn lemma_spec_get_witness(s: Seq<Client>, id: Seq<char>)
    ensures
        spec_get(s, id) matches Some(c) ==> exists|i: int|
            0 <= i < s.len() && s[i] == c && #[trigger] s[i].peer_id@ == id,
        spec_get(s, id) is None ==> forall|i: int|
            0 <= i < s.len() ==> #[trigger] s[i].peer_id@ != id,
    decreases s.len(),
{
    if s.len() == 0 {
    } else if s[0].peer_id@ == id {
    } else {
        lemma_spec_get_witness(s.skip(1), id);
        if spec_get(s, id) is Some {
            let c = spec_get(s, id)->Some_0;
            let i = choose|i: int|
                0 <= i < s.skip(1).len() && s.skip(1)[i] == c && #[trigger] s.skip(1)[i].peer_id@
                    == id;
            assert(s[i + 1] == c && s[i + 1].peer_id@ == id);
        } else {
            assert forall|i: int| 0 <= i < s.len() implies #[trigger] s[i].peer_id@ != id by {
                if i > 0 {
                    assert(s.skip(1)[i - 1] == s[i]);
                }
            }
        }
    }
}

/// Replacing the entry at `i` by a client with the same id leaves every
/// other lookup unchanged.
proof fn lemma_spec_get_update(s: Seq<Client>, i: int, c: Client, id: Seq<char>)
    requires
        0 <= i < s.len(),
        s[i].peer_id@ == c.peer_id@,
        forall|j: int| 0 <= j < i ==> #[trigger] s[j].peer_id@ != c.peer_id@,
    ensures
        id == c.peer_id@ ==> spec_get(s.update(i, c), id) == Some(c),
        id != c.peer_id@ ==> spec_get(s.update(i, c), id) == spec_get(s, id),
    decreases s.len(),
{
    let t = s.update(i, c);
    if id == c.peer_id@ {
        assert forall|j: int| 0 <= j < i implies #[trigger] t[j].peer_id@ != id by {
            assert(t[j] == s[j]);
        }
        assert(t[i] == c);
        lemma_spec_get_at(t, id, i);
    } else {
        if i == 0 {
            assert(t[0] == c);
            assert(t.skip(1) =~= s.skip(1));
        } else {
            assert(t[0] == s[0]);
            if s[0].peer_id@ == id {
            } else {
                assert(t.skip(1) =~= s.skip(1).update(i - 1, c));
                assert forall|j: int| 0 <= j < i - 1 implies #[trigger] s.skip(1)[j].peer_id@
                    != c.peer_id@ by {
                    assert(s.skip(1)[j] == s[j + 1]);
                }
                assert(s.skip(1)[i - 1] == s[i]);
                lemma_spec_get_update(s.skip(1), i - 1, c, id);
            }
        }
    }
}

/// Removing the entry at `i` removes its id (when ids are unique) and
/// leaves every other lookup unchanged.
proof fn lemma_spec_get_remove(s: Seq<Client>, i: int, id: Seq<char>)
    requires
        0 <= i < s.len(),
        unique_ids(s),
    ensures
        id == s[i].peer_id@ ==> spec_get(s.remove(i), id) is None,
        id != s[i].peer_id@ ==> spec_get(s.remove(i), id) == spec_get(s, id),
    decreases s.len(),
{
    let t = s.remove(i);
    if id == s[i].peer_id@ {
        assert forall|j: int| 0 <= j < t.len() implies #[trigger] t[j].peer_id@ != id by {
            if j < i {
                assert(t[j] == s[j]);
            } else {
                assert(t[j] == s[j + 1]);
            }
        }
        lemma_spec_get_at(t, id, t.len() as int);
    } else {
        if i == 0 {
            assert(t =~= s.skip(1));
        } else {
            assert(t[0] == s[0]);
            if s[0].peer_id@ == id {
                assert(t[0] == s[0]);
                assert(spec_get(t, id) == Some(t[0]));
            } else {
                assert(t.skip(1) =~= s.skip(1).remove(i - 1));
                assert forall|a: int, b: int|
                    0 <= a < b < s.skip(1).len() implies #[trigger] s.skip(1)[a].peer_id@
                    != #[trigger] s.skip(1)[b].peer_id@ by {
                    assert(s.skip(1)[a] == s[a + 1]);
                    assert(s.skip(1)[b] == s[b + 1]);
                }
                assert(s.skip(1)[i - 1] == s[i]);
                lemma_spec_get_remove(s.skip(1), i - 1, id);
            }
        }
    }
}

/// Appending a fresh id adds exactly that lookup.
proof fn lemma_spec_get_push(s: Seq<Client>, c: Client, id: Seq<char>)
    ensures
        spec_get(s, id) is Some ==> spec_get(s.push(c), id) == spec_get(s, id),
        spec_get(s, id) is None && id == c.peer_id@ ==> spec_get(s.push(c), id) == Some(c),
        spec_get(s, id) is None && id != c.peer_id@ ==> spec_get(s.push(c), id) is None,
    decreases s.len(),
{
    let t = s.push(c);
    if s.len() == 0 {
        assert(t[0] == c);
        if c.peer_id@ != id {
            assert(t.skip(1) =~= s);
        }
    } else {
        assert(t[0] == s[0]);
        if s[0].peer_id@ == id {
        } else {
            assert(t.skip(1) =~= s.skip(1).push(c));
            lemma_spec_get_push(s.skip(1), c, id);
        }
    }
}

/// A queue evolves by appends alone, every appended message being one of
/// this call's protocol messages (`delivery_ok`).
pub open spec fn queue_extended_by(
    q1: Seq<SignalMsg>,
    q2: Seq<SignalMsg>,
    base: MsgModel,
    sender: Seq<char>,
    to: Seq<char>,
) -> bool {
    &&& q2.len() >= q1.len()
    &&& q2.take(q1.len() as int) == q1
    &&& forall|k: int|
        q1.len() <= k < q2.len() ==> delivery_ok(#[trigger] q2[k]@, base, sender, to)
}

/// A message this routing call may deliver: the forwarded inbound message
/// (its `from_peer_id` is the authenticated sender), one batch element
/// (likewise), the keep-alive reply, or the peer-not-found notice toward
/// the sender.
pub open spec fn delivery_ok(m: MsgModel, base: MsgModel, sender: Seq<char>, to: Seq<char>) -> bool {
    ||| m == forwarded_model(base, sender)
    ||| (base.data matches Some(d) && elems_of_value(d) matches Some(es) && exists|j: int|
        0 <= j < es.len() && m == elem_model(sender, #[trigger] es[j]))
    ||| m == pong_model()
    ||| m == not_found_model(to)
}

/// How a registered client may evolve across one routing call: identity
/// and transport kept, the activity mark at most refreshed to now, the
/// queue extended by this call's protocol messages alone.
pub open spec fn client_evolves(
    c1: Client,
    c2: Client,
    base: MsgModel,
    sender: Seq<char>,
    to: Seq<char>,
    now: int,
) -> bool {
    &&& c2.peer_id == c1.peer_id
    &&& c2.is_polling == c1.is_polling
    &&& c2.ws == c1.ws
    &&& c2.http == c1.http
    &&& (c2.timestamp == c1.timestamp || c2.timestamp == now)
    &&& queue_extended_by(c1.msg_queue@, c2.msg_queue@, base, sender, to)
}

proof fn lemma_queue_extended_refl(q: Seq<SignalMsg>, base: MsgModel, sender: Seq<char>, to: Seq<char>)
    ensures
        queue_extended_by(q, q, base, sender, to),
{
    assert(q.take(q.len() as int) =~= q);
}

proof fn lemma_queue_extended_trans(
    q1: Seq<SignalMsg>,
    q2: Seq<SignalMsg>,
    q3: Seq<SignalMsg>,
    base: MsgModel,
    sender: Seq<char>,
    to: Seq<char>,
)
    requires
        queue_extended_by(q1, q2, base, sender, to),
        queue_extended_by(q2, q3, base, sender, to),
    ensures
        queue_extended_by(q1, q3, base, sender, to),
{
    assert(q3.take(q1.len() as int) =~= q3.take(q2.len() as int).take(q1.len() as int));
    assert forall|k: int| q1.len() <= k < q3.len() implies delivery_ok(
        #[trigger] q3[k]@,
        base,
        sender,
        to,
    ) by {
        if k < q2.len() {
            assert(q3.take(q2.len() as int)[k] == q3[k]);
            assert(q2[k] == q3[k]);
        }
    }
}

proof fn lemma_client_evolves_trans(
    c1: Client,
    c2: Client,
    c3: Client,
    base: MsgModel,
    sender: Seq<char>,
    to: Seq<char>,
    now: int,
)
    requires
        client_evolves(c1, c2, base, sender, to, now),
        client_evolves(c2, c3, base, sender, to, now),
    ensures
        client_evolves(c1, c3, base, sender, to, now),
{
    lemma_queue_extended_trans(c1.msg_queue@, c2.msg_queue@, c3.msg_queue@, base, sender, to);
}

/// The exact effect of a delivered message on a surviving client: a pull
/// client with room gets the message appended; a saturated pull client
/// and a push client keep their queue. Nothing else changes.
pub open spec fn delivered_exact(c1: Client, c2: Client, m: MsgModel) -> bool {
    &&& c2.peer_id == c1.peer_id
    &&& c2.is_polling == c1.is_polling
    &&& c2.timestamp == c1.timestamp
    &&& c2.ws == c1.ws
    &&& c2.http == c1.http
    &&& if c1.is_polling && c1.msg_queue@.len() < crate::client::POLLING_QUEUE_SIZE as nat {
        &&& c2.msg_queue@.len() == c1.msg_queue@.len() + 1
        &&& c2.msg_queue@.take(c1.msg_queue@.len() as int) == c1.msg_queue@
        &&& c2.msg_queue@.last()@ == m
    } else {
        c2.msg_queue@ == c1.msg_queue@
    }
}

/// A touched client: the same client with its activity mark set to now.
pub open spec fn touched(c: Client, now: int) -> Client {
    Client { timestamp: now as u64, ..c }
}

/// The registry of attached peers, with the duplicate filter.
pub struct Hub {
    pub clients: Vec<Client>,
    pub filter: DuplicateFilter,
}

impl Hub {
    /// Ids are unique, every client is well formed, and the filter has
    /// its fixed capacity.
    pub open spec fn wf(self) -> bool {
        &&& unique_ids(self.clients@)
        &&& forall|i: int| 0 <= i < self.clients@.len() ==> (#[trigger] self.clients@[i]).wf()
        &&& self.filter.wf()
    }

    /// An empty hub. The idle sweep is the caller's to drive, through
    /// `sweep`.
    pub fn new() -> (r: Hub)
        ensures
            r.wf(),
            r.clients@ == Seq::<Client>::empty(),
            r.filter.keys() == Seq::<Seq<char>>::empty(),
    {
        Hub { clients: Vec::new(), filter: DuplicateFilter::new() }
    }

    /// The index of the client registered under the id.
    fn lookup(&self, peer_id: &str) -> (r: Option<usize>)
        ensures
            match r {
                Some(i) => {
                    &&& i < self.clients@.len()
                    &&& self.clients@[i as int].peer_id@ == peer_id@
                    &&& forall|j: int|
                        0 <= j < i ==> (#[trigger] self.clients@[j]).peer_id@ != peer_id@
                    &&& spec_get(self.clients@, peer_id@) == Some(self.clients@[i as int])
                },
                None => !spec_has(self.clients@, peer_id@),
            },
    {
        let n = self.clients.len();
        let mut i: usize = 0;
        while i < n
            invariant
                0 <= i <= n,
                n == self.clients@.len(),
                forall|j: int| 0 <= j < i ==> (#[trigger] self.clients@[j]).peer_id@ != peer_id@,
            decreases n - i,
        {
            if self.clients[i].peer_id.as_str().eq(peer_id) {
                proof {
                    lemma_spec_get_at(self.clients@, peer_id@, i as int);
                }
                return Some(i);
            }
            i = i + 1;
        }
        proof {
            lemma_spec_get_at(self.clients@, peer_id@, n as int);
        }
        None
    }

    /// Registers the client, replacing any prior entry under the same id.
    pub fn do_register(&mut self, client: Client)
        requires
            old(self).wf(),
            client.wf(),
        ensures
            final(self).wf(),
            spec_get(final(self).clients@, client.peer_id@) == Some(client),
            forall|id: Seq<char>|
                id != client.peer_id@ ==> #[trigger] spec_get(final(self).clients@, id) == spec_get(
                    old(self).clients@,
                    id,
                ),
            final(self).filter == old(self).filter,
    {
        let ghost pre = self.clients@;
        match self.lookup(client.peer_id.as_str()) {
            Some(i) => {
                let ghost cid = client.peer_id@;
                self.clients.remove(i);
                self.clients.insert(i, client);
                proof {
                    assert(self.clients@ =~= pre.update(i as int, client));
                    lemma_spec_get_update(pre, i as int, client, cid);
                    assert forall|id: Seq<char>| id != cid implies #[trigger] spec_get(
                        self.clients@,
                        id,
                    ) == spec_get(pre, id) by {
                        lemma_spec_get_update(pre, i as int, client, id);
                    }
                    assert forall|a: int, b: int|
                        0 <= a < b < self.clients@.len() implies #[trigger] self.clients@[a].peer_id@
                        != #[trigger] self.clients@[b].peer_id@ by {
                        assert(pre[a].peer_id@ != pre[b].peer_id@);
                    }
                }
            },
            None => {
                self.clients.push(client);
                proof {
                    lemma_spec_get_witness(pre, client.peer_id@);
                    lemma_spec_get_push(pre, client, client.peer_id@);
                    assert forall|id: Seq<char>| id != client.peer_id@ implies #[trigger] spec_get(
                        self.clients@,
                        id,
                    ) == spec_get(pre, id) by {
                        lemma_spec_get_push(pre, client, id);
                        if spec_get(pre, id) is None {
                        }
                    }
                    assert forall|a: int, b: int|
                        0 <= a < b < self.clients@.len() implies #[trigger] self.clients@[a].peer_id@
                        != #[trigger] self.clients@[b].peer_id@ by {
                        if b < pre.len() {
                            assert(pre[a].peer_id@ != pre[b].peer_id@);
                        } else {
                            assert(self.clients@[b] == client);
                            assert(pre[a].peer_id@ != client.peer_id@);
                        }
                    }
                }
            },
        }
    }

    /// Removes the client under the id; reports whether one was there.
    pub fn do_unregister(&mut self, peer_id: &str) -> (r: bool)
        requires
            old(self).wf(),
        ensures
            final(self).wf(),
            r == spec_has(old(self).clients@, peer_id@),
            !spec_has(final(self).clients@, peer_id@),
            forall|id: Seq<char>|
                id != peer_id@ ==> #[trigger] spec_get(final(self).clients@, id) == spec_get(
                    old(self).clients@,
                    id,
                ),
            final(self).filter == old(self).filter,
    {
        let ghost pre = self.clients@;
        match self.lookup(peer_id) {
            Some(i) => {
                self.clients.remove(i);
                proof {
                    lemma_spec_get_remove(pre, i as int, peer_id@);
                    assert forall|id: Seq<char>| id != peer_id@ implies #[trigger] spec_get(
                        self.clients@,
                        id,
                    ) == spec_get(pre, id) by {
                        lemma_spec_get_remove(pre, i as int, id);
                    }
                    assert forall|a: int, b: int|
                        0 <= a < b < self.clients@.len() implies #[trigger] self.clients@[a].peer_id@
                        != #[trigger] self.clients@[b].peer_id@ by {
                        if b < i as int {
                            assert(self.clients@[a] == pre[a] && self.clients@[b] == pre[b]);
                        } else if a < i as int {
                            assert(self.clients@[a] == pre[a] && self.clients@[b] == pre[b + 1]);
                        } else {
                            assert(self.clients@[a] == pre[a + 1] && self.clients@[b] == pre[b + 1]);
                        }
                    }
                }
                true
            },
            None => false,
        }
    }

    /// How many peers are attached.
    pub fn num_client(&self) -> (r: usize)
        ensures
            r == self.clients@.len(),
    {
        self.clients.len()
    }

    /// Whether a peer is attached under the id.
    pub fn has_client(&self, peer_id: &str) -> (r: bool)
        ensures
            r == spec_has(self.clients@, peer_id@),
    {
        match self.lookup(peer_id) {
            Some(_) => true,
            None => false,
        }
    }

    /// A look at the client registered under the id.
    pub fn get_client(&self, peer_id: &str) -> (r: Option<&Client>)
        ensures
            match r {
                Some(c) => spec_get(self.clients@, peer_id@) == Some(*c),
                None => !spec_has(self.clients@, peer_id@),
            },
    {
        match self.lookup(peer_id) {
            Some(i) => Some(&self.clients[i]),
            None => None,
        }
    }

    /// Clears the wake handle of the pull client under the id, leaving it
    /// registered; used when a long-poll ends.
    pub fn remove_polling(&mut self, peer_id: &str)
        requires
            old(self).wf(),
        ensures
            final(self).wf(),
            final(self).filter == old(self).filter,
            forall|id: Seq<char>|
                id != peer_id@ ==> #[trigger] spec_get(final(self).clients@, id) == spec_get(
                    old(self).clients@,
                    id,
                ),
            match spec_get(old(self).clients@, peer_id@) {
                Some(c1) => spec_get(final(self).clients@, peer_id@) matches Some(c2)
                    && c2.http is None && c2.ws == c1.ws && c2.peer_id == c1.peer_id
                    && c2.is_polling == c1.is_polling && c2.timestamp == c1.timestamp
                    && c2.msg_queue@ == c1.msg_queue@,
                None => final(self).clients@ == old(self).clients@,
            },
    {
        let ghost pre = self.clients@;
        match self.lookup(peer_id) {
            Some(i) => {
                let mut c = self.clients.remove(i);
                c.http = None;
                let ghost cv = c;
                self.clients.insert(i, c);
                proof {
                    assert(self.clients@ =~= pre.update(i as int, cv));
                    lemma_spec_get_update(pre, i as int, cv, peer_id@);
                    assert forall|id: Seq<char>| id != peer_id@ implies #[trigger] spec_get(
                        self.clients@,
                        id,
                    ) == spec_get(pre, id) by {
                        lemma_spec_get_update(pre, i as int, cv, id);
                    }
                    assert forall|a: int, b: int|
                        0 <= a < b < self.clients@.len() implies #[trigger] self.clients@[a].peer_id@
                        != #[trigger] self.clients@[b].peer_id@ by {
                        assert(pre[a].peer_id@ != pre[b].peer_id@);
                    }
                }
            },
            None => {},
        }
    }

    /// One idle sweep: every client idle past its mode's limit is closed
    /// and removed; the rest are untouched. Returns how many push and
    /// pull clients were removed and how many of each kind survive.
    #[verifier::loop_isolation(false)]
    pub fn sweep(&mut self, now_ms: u64) -> (r: (usize, usize, usize, usize))
        requires
            old(self).wf(),
        ensures
            final(self).wf(),
            final(self).filter == old(self).filter,
            forall|id: Seq<char>|
                #[trigger] spec_get(final(self).clients@, id) == (match spec_get(
                    old(self).clients@,
                    id,
                ) {
                    Some(c) => if spec_expired(c, now_ms as int) {
                        None
                    } else {
                        Some(c)
                    },
                    None => None,
                }),
    {
        let ghost pre = self.clients@;
        let mut kept: Vec<Client> = Vec::new();
        let mut ws_removed: usize = 0;
        let mut http_removed: usize = 0;
        let mut ws_count: usize = 0;
        let mut http_count: usize = 0;
        let len0 = self.clients.len();
        let ghost n = pre.len();
        assert(n == len0);
        let ghost k: int = 0;
        while self.clients.len() > 0
            invariant
                0 <= k <= n,
                n == pre.len(),
                self.clients@ == pre.skip(k),
                self.filter == old(self).filter,
                kept@ == sweep_kept(pre.take(k), now_ms as int),
                ws_removed <= k && http_removed <= k && ws_count <= k && http_count <= k,
            decreases self.clients@.len(),
        {
            let mut c = self.clients.remove(0);
            proof {
                assert(c == pre[k]);
                assert(self.clients@ =~= pre.skip(k + 1));
                assert(pre.take(k + 1) =~= pre.take(k) + seq![pre[k]]);
                lemma_sweep_append(pre.take(k), seq![pre[k]], now_ms as int);
                lemma_sweep_singleton(pre[k], now_ms as int);
            }
            if c.is_expired(now_ms) {
                c.close();
                if c.is_polling {
                    http_removed = http_removed + 1;
                } else {
                    ws_removed = ws_removed + 1;
                }
                proof {
                    assert(sweep_kept(pre.take(k + 1), now_ms as int) =~= kept@);
                }
            } else {
                if c.is_polling {
                    http_count = http_count + 1;
                } else {
                    ws_count = ws_count + 1;
                }
                kept.push(c);
                proof {
                    assert(sweep_kept(pre.take(k + 1), now_ms as int) =~= kept@);
                }
            }
            proof {
                k = k + 1;
            }
        }
        proof {
            assert(k == n);
            assert(pre.take(n as int) =~= pre);
        }
        let mut swept = kept;
        core::mem::swap(&mut self.clients, &mut swept);
        proof {
            lemma_sweep_props(pre, now_ms as int);
            assert forall|i2: int| 0 <= i2 < self.clients@.len() implies (
            #[trigger] self.clients@[i2]).wf() by {
                assert(self.clients@.contains(self.clients@[i2]));
                assert(pre.contains(self.clients@[i2]));
                let w = choose|w: int| 0 <= w < pre.len() && pre[w] == self.clients@[i2];
                assert(pre[w].wf());
            }
        }
        (ws_removed, http_removed, ws_count, http_count)
    }

    /// Sends a message to the client at an index. On a failed send the
    /// client is removed from the registry; on success it stays, with the
    /// exact delivery effect on its queue.
    fn send_to_client_at(&mut self, i: usize, msg: SignalMsg) -> (r: bool)
        requires
            old(self).wf(),
            i < old(self).clients@.len(),
        ensures
            final(self).wf(),
            final(self).filter == old(self).filter,
            forall|id: Seq<char>|
                id != old(self).clients@[i as int].peer_id@ ==> #[trigger] spec_get(
                    final(self).clients@,
                    id,
                ) == spec_get(old(self).clients@, id),
            r ==> final(self).clients@ == old(self).clients@.update(
                i as int,
                final(self).clients@[i as int],
            ) && i < final(self).clients@.len() && delivered_exact(
                old(self).clients@[i as int],
                final(self).clients@[i as int],
                msg@,
            ),
            r ==> spec_get(final(self).clients@, old(self).clients@[i as int].peer_id@) == Some(
                final(self).clients@[i as int],
            ),
            !r ==> !spec_has(final(self).clients@, old(self).clients@[i as int].peer_id@),
            !r ==> final(self).clients@ == old(self).clients@.remove(i as int),
            old(self).clients@[i as int].is_polling && old(self).clients@[i as int].http is None
                ==> r,
    {
        let ghost pre = self.clients@;
        let ghost c1 = pre[i as int];
        proof {
            assert forall|j: int| 0 <= j < i implies #[trigger] pre[j].peer_id@ != c1.peer_id@ by {
                assert(pre[j].peer_id@ != pre[i as int].peer_id@);
            }
        }
        let mut c = self.clients.remove(i);
        let ok = c.send_message(msg);
        if ok {
            let ghost c2 = c;
            self.clients.insert(i, c);
            proof {
                assert(self.clients@ =~= pre.update(i as int, c2));
                lemma_spec_get_update(pre, i as int, c2, c1.peer_id@);
                assert forall|id: Seq<char>| id != c1.peer_id@ implies #[trigger] spec_get(
                    self.clients@,
                    id,
                ) == spec_get(pre, id) by {
                    lemma_spec_get_update(pre, i as int, c2, id);
                }
                assert forall|a: int, b: int|
                    0 <= a < b < self.clients@.len() implies #[trigger] self.clients@[a].peer_id@
                    != #[trigger] self.clients@[b].peer_id@ by {
                    assert(pre[a].peer_id@ != pre[b].peer_id@);
                }
                if c1.is_polling && c1.msg_queue@.len() < crate::client::POLLING_QUEUE_SIZE as nat {
                    assert(c2.msg_queue@.take(c1.msg_queue@.len() as int) =~= c1.msg_queue@);
                }
                assert(delivered_exact(c1, c2, msg@));
            }
            true
        } else {
            proof {
                lemma_spec_get_remove(pre, i as int, c1.peer_id@);
                assert forall|id: Seq<char>| id != c1.peer_id@ implies #[trigger] spec_get(
                    self.clients@,
                    id,
                ) == spec_get(pre, id) by {
                    lemma_spec_get_remove(pre, i as int, id);
                }
                assert forall|a: int, b: int|
                    0 <= a < b < self.clients@.len() implies #[trigger] self.clients@[a].peer_id@
                    != #[trigger] self.clients@[b].peer_id@ by {
                    if b < i as int {
                        assert(self.clients@[a] == pre[a] && self.clients@[b] == pre[b]);
                    } else if a < i as int {
                        assert(self.clients@[a] == pre[a] && self.clients@[b] == pre[b + 1]);
                    } else {
                        assert(self.clients@[a] == pre[a + 1] && self.clients@[b] == pre[b + 1]);
                    }
                }
            }
            false
        }
    }

    /// Sets the activity mark of the client at an index to now.
    fn touch_at(&mut self, i: usize, now_ms: u64)
        requires
            old(self).wf(),
            i < old(self).clients@.len(),
        ensures
            final(self).wf(),
            final(self).filter == old(self).filter,
            final(self).clients@ == old(self).clients@.update(
                i as int,
                touched(old(self).clients@[i as int], now_ms as int),
            ),
            forall|id: Seq<char>|
                id != old(self).clients@[i as int].peer_id@ ==> #[trigger] spec_get(
                    final(self).clients@,
                    id,
                ) == spec_get(old(self).clients@, id),
            spec_get(final(self).clients@, old(self).clients@[i as int].peer_id@) == Some(
                touched(old(self).clients@[i as int], now_ms as int),
            ),
    {
        let ghost pre = self.clients@;
        let ghost c1 = pre[i as int];
        proof {
            assert forall|j: int| 0 <= j < i implies #[trigger] pre[j].peer_id@ != c1.peer_id@ by {
                assert(pre[j].peer_id@ != pre[i as int].peer_id@);
            }
        }
        let mut c = self.clients.remove(i);
        c.update_ts(now_ms);
        let ghost c2 = c;
        self.clients.insert(i, c);
        proof {
            assert(c2 =~= touched(c1, now_ms as int));
            assert(self.clients@ =~= pre.update(i as int, c2));
            lemma_spec_get_update(pre, i as int, c2, c1.peer_id@);
            assert forall|id: Seq<char>| id != c1.peer_id@ implies #[trigger] spec_get(
                self.clients@,
                id,
            ) == spec_get(pre, id) by {
                lemma_spec_get_update(pre, i as int, c2, id);
            }
            assert forall|a: int, b: int|
                0 <= a < b < self.clients@.len() implies #[trigger] self.clients@[a].peer_id@
                != #[trigger] self.clients@[b].peer_id@ by {
                assert(pre[a].peer_id@ != pre[b].peer_id@);
            }
        }
    }

    /// The keep-alive path: look up the sender, mark it active, and
    /// answer `{action: "pong"}`; a failed answer unregisters the sender.
    fn process_ping(&mut self, peer_id: &str, now_ms: u64)
        requires
            old(self).wf(),
        ensures
            final(self).wf(),
            final(self).filter == old(self).filter,
            forall|id: Seq<char>|
                id != peer_id@ ==> #[trigger] spec_get(final(self).clients@, id) == spec_get(
                    old(self).clients@,
                    id,
                ),
            !spec_has(old(self).clients@, peer_id@) ==> final(self).clients@ == old(self).clients@,
            match spec_get(old(self).clients@, peer_id@) {
                Some(c1) => (match spec_get(final(self).clients@, peer_id@) {
                    Some(c2) => c2.timestamp == now_ms && delivered_exact(
                        touched(c1, now_ms as int),
                        c2,
                        pong_model(),
                    ),
                    None => true,
                }) && (c1.is_polling && c1.http is None ==> spec_has(
                    final(self).clients@,
                    peer_id@,
                )),
                None => !spec_has(final(self).clients@, peer_id@),
            },
    {
        match self.lookup(peer_id) {
            Some(i) => {
                let ghost c1 = self.clients@[i as int];
                self.touch_at(i, now_ms);
                let ghost mid = self.clients@;
                proof {
                    assert(mid[i as int] == touched(c1, now_ms as int));
                    assert(mid[i as int].peer_id@ == peer_id@);
                }
                let _ok = self.send_to_client_at(i, pong_msg());
            },
            None => {},
        }
    }

    /// The peer-not-found path toward a sender: install the suppression
    /// key and, if the sender is still attached, send it the notice
    /// `{action: "signal", from_peer_id: <missing peer>}`. A failed
    /// notice unregisters the sender; beyond that, failures are ignored.
    fn handle_peer_not_found(&mut self, peer_id: &str, to_peer_id: &str, key: String)
        requires
            old(self).wf(),
        ensures
            final(self).wf(),
            final(self).filter.keys() == put_keys(
                old(self).filter.keys(),
                old(self).filter.cap(),
                key@,
            ),
            final(self).filter.cap() == old(self).filter.cap(),
            forall|id: Seq<char>|
                id != peer_id@ ==> #[trigger] spec_get(final(self).clients@, id) == spec_get(
                    old(self).clients@,
                    id,
                ),
            !spec_has(old(self).clients@, peer_id@) ==> final(self).clients@ == old(self).clients@,
            match spec_get(old(self).clients@, peer_id@) {
                Some(c1) => match spec_get(final(self).clients@, peer_id@) {
                    Some(c2) => delivered_exact(c1, c2, not_found_model(to_peer_id@)),
                    None => true,
                },
                None => !spec_has(final(self).clients@, peer_id@),
            },
    {
        self.filter.put(key);
        match self.lookup(peer_id) {
            Some(i) => {
                let notice = not_found_msg(to_peer_id);
                let _ok = self.send_to_client_at(i, notice);
            },
            None => {},
        }
    }

    /// Atomically takes the queued messages of the client under the id,
    /// leaving its queue empty.
    pub fn drain_queue(&mut self, peer_id: &str) -> (r: Option<Vec<SignalMsg>>)
        requires
            old(self).wf(),
        ensures
            final(self).wf(),
            final(self).filter == old(self).filter,
            forall|id: Seq<char>|
                id != peer_id@ ==> #[trigger] spec_get(final(self).clients@, id) == spec_get(
                    old(self).clients@,
                    id,
                ),
            match spec_get(old(self).clients@, peer_id@) {
                Some(c1) => r matches Some(b) && b@ == c1.msg_queue@ && (spec_get(
                    final(self).clients@,
                    peer_id@,
                ) matches Some(c2) && c2.msg_queue@ == Seq::<SignalMsg>::empty() && c2.peer_id
                    == c1.peer_id && c2.is_polling == c1.is_polling && c2.timestamp == c1.timestamp
                    && c2.ws == c1.ws && c2.http == c1.http),
                None => r is None && final(self).clients@ == old(self).clients@,
            },
    {
        let ghost pre = self.clients@;
        match self.lookup(peer_id) {
            Some(i) => {
                let ghost c1 = pre[i as int];
                proof {
                    assert forall|j: int| 0 <= j < i implies #[trigger] pre[j].peer_id@
                        != c1.peer_id@ by {
                        assert(pre[j].peer_id@ != pre[i as int].peer_id@);
                    }
                }
                let mut c = self.clients.remove(i);
                let msgs = c.get_queued_msgs();
                let ghost c2 = c;
                self.clients.insert(i, c);
                proof {
                    assert(self.clients@ =~= pre.update(i as int, c2));
                    lemma_spec_get_update(pre, i as int, c2, c1.peer_id@);
                    assert forall|id: Seq<char>| id != c1.peer_id@ implies #[trigger] spec_get(
                        self.clients@,
                        id,
                    ) == spec_get(pre, id) by {
                        lemma_spec_get_update(pre, i as int, c2, id);
                    }
                    assert forall|a: int, b: int|
                        0 <= a < b < self.clients@.len() implies #[trigger] self.clients@[a].peer_id@
                        != #[trigger] self.clients@[b].peer_id@ by {
                        assert(pre[a].peer_id@ != pre[b].peer_id@);
                    }
                }
                Some(msgs)
            },
            None => None,
        }
    }

    /// Gives the client under the id a fresh wake handle, making it a
    /// pull client; its socket handle, if any, is released and its queue
    /// kept. Used when a long-poll begins waiting.
    pub fn attach_wake(&mut self, peer_id: &str, wake: tokio::sync::mpsc::Sender<()>)
        requires
            old(self).wf(),
        ensures
            final(self).wf(),
            final(self).filter == old(self).filter,
            forall|id: Seq<char>|
                id != peer_id@ ==> #[trigger] spec_get(final(self).clients@, id) == spec_get(
                    old(self).clients@,
                    id,
                ),
            match spec_get(old(self).clients@, peer_id@) {
                Some(c1) => spec_get(final(self).clients@, peer_id@) matches Some(c2)
                    && c2.is_polling && c2.http == Some(wake) && c2.ws is None && c2.peer_id
                    == c1.peer_id && c2.timestamp == c1.timestamp && c2.msg_queue@
                    == c1.msg_queue@,
                None => final(self).clients@ == old(self).clients@,
            },
    {
        let ghost pre = self.clients@;
        match self.lookup(peer_id) {
            Some(i) => {
                let ghost c1 = pre[i as int];
                proof {
                    assert forall|j: int| 0 <= j < i implies #[trigger] pre[j].peer_id@
                        != c1.peer_id@ by {
                        assert(pre[j].peer_id@ != pre[i as int].peer_id@);
                    }
                }
                let mut c = self.clients.remove(i);
                c.switch_to_http(wake);
                let ghost c2 = c;
                self.clients.insert(i, c);
                proof {
                    assert(self.clients@ =~= pre.update(i as int, c2));
                    lemma_spec_get_update(pre, i as int, c2, c1.peer_id@);
                    assert forall|id: Seq<char>| id != c1.peer_id@ implies #[trigger] spec_get(
                        self.clients@,
                        id,
                    ) == spec_get(pre, id) by {
                        lemma_spec_get_update(pre, i as int, c2, id);
                    }
                    assert forall|a: int, b: int|
                        0 <= a < b < self.clients@.len() implies #[trigger] self.clients@[a].peer_id@
                        != #[trigger] self.clients@[b].peer_id@ by {
                        assert(pre[a].peer_id@ != pre[b].peer_id@);
                    }
                }
            },
            None => {},
        }
    }

    /// Routes one `signal` toward a destination: deliver the forwarded
    /// message if the destination is attached and its transport takes it;
    /// otherwise install the suppression key and notify the sender that
    /// its target is unreachable. Returns whether delivery succeeded.
    fn process_signal(&mut self, msg: SignalMsg, to_peer_id: &str, peer_id: &str, key: &str) -> (r:
        bool)
        requires
            old(self).wf(),
        ensures
            final(self).wf(),
            r ==> final(self).filter == old(self).filter,
            !r ==> final(self).filter.keys() == put_keys(
                old(self).filter.keys(),
                old(self).filter.cap(),
                key@,
            ) && final(self).filter.cap() == old(self).filter.cap(),
            forall|id: Seq<char>|
                id != peer_id@ && id != to_peer_id@ ==> #[trigger] spec_get(
                    final(self).clients@,
                    id,
                ) == spec_get(old(self).clients@, id),
            r ==> spec_has(old(self).clients@, to_peer_id@),
            r ==> (spec_get(old(self).clients@, to_peer_id@) matches Some(c1)
                && spec_get(final(self).clients@, to_peer_id@) matches Some(c2)
                && delivered_exact(c1, c2, msg@)),
            r ==> forall|id: Seq<char>|
                id != to_peer_id@ ==> #[trigger] spec_get(final(self).clients@, id) == spec_get(
                    old(self).clients@,
                    id,
                ),
            !r && spec_has(old(self).clients@, to_peer_id@) ==> !spec_has(
                final(self).clients@,
                to_peer_id@,
            ),
            !r && !spec_has(old(self).clients@, to_peer_id@) && to_peer_id@ != peer_id@
                ==> spec_get(final(self).clients@, to_peer_id@) == spec_get(
                old(self).clients@,
                to_peer_id@,
            ),
            (spec_get(old(self).clients@, to_peer_id@) matches Some(c) && c.is_polling
                && c.http is None) ==> r,
            !r && to_peer_id@ != peer_id@ ==> (match spec_get(old(self).clients@, peer_id@) {
                Some(c1) => match spec_get(final(self).clients@, peer_id@) {
                    Some(c2) => delivered_exact(c1, c2, not_found_model(to_peer_id@)),
                    None => true,
                },
                None => !spec_has(final(self).clients@, peer_id@),
            }),
            !r ==> (spec_get(final(self).clients@, peer_id@) matches Some(c2) ==> (spec_get(
                old(self).clients@,
                peer_id@,
            ) matches Some(c1) && (c2 == c1 || delivered_exact(c1, c2, not_found_model(
                to_peer_id@,
            ))))),
    {
        let ghost pre = self.clients@;
        match self.lookup(to_peer_id) {
            Some(i) => {
                let ghost c1 = pre[i as int];
                let success = self.send_to_client_at(i, msg);
                if success {
                    return true;
                }
                // the destination is gone; tell the sender once and
                // suppress the pair
                let ghost mid = self.clients@;
                let key_owned = key_to_string(key);
                self.handle_peer_not_found(peer_id, to_peer_id, key_owned);
                proof {
                    if to_peer_id@ != peer_id@ {
                        assert(spec_get(self.clients@, to_peer_id@) == spec_get(mid, to_peer_id@));
                    }
                }
                false
            },
            None => {
                let key_owned = key_to_string(key);
                self.handle_peer_not_found(peer_id, to_peer_id, key_owned);
                proof {
                    if to_peer_id@ != peer_id@ {
                        assert(spec_get(self.clients@, to_peer_id@) == spec_get(pre, to_peer_id@));
                    }
                }
                false
            },
        }
    }

    /// Routes one `reject`: if the destination is attached, install the
    /// given suppression key — the router hands in the rejected
    /// direction, destination-then-sender — and forward the reject (a
    /// failed send unregisters the destination). An unreachable
    /// destination gets no peer-not-found handling.
    fn process_reject(&mut self, msg: SignalMsg, to_peer_id: &str, key: &str)
        requires
            old(self).wf(),
        ensures
            final(self).wf(),
            forall|id: Seq<char>|
                id != to_peer_id@ ==> #[trigger] spec_get(final(self).clients@, id) == spec_get(
                    old(self).clients@,
                    id,
                ),
            !spec_has(old(self).clients@, to_peer_id@) ==> final(self).clients@ == old(self).clients@ && final(self).filter == old(self).filter,
            spec_has(old(self).clients@, to_peer_id@) ==> final(self).filter.keys() == put_keys(
                old(self).filter.keys(),
                old(self).filter.cap(),
                key@,
            ) && final(self).filter.cap() == old(self).filter.cap(),
            match spec_get(old(self).clients@, to_peer_id@) {
                Some(c1) => match spec_get(final(self).clients@, to_peer_id@) {
                    Some(c2) => delivered_exact(c1, c2, msg@),
                    None => true,
                },
                None => !spec_has(final(self).clients@, to_peer_id@),
            },
    {
        match self.lookup(to_peer_id) {
            Some(i) => {
                let key_owned = key_to_string(key);
                self.filter.put(key_owned);
                let _ok = self.send_to_client_at(i, msg);
            },
            None => {},
        }
    }

    /// Routes a `signals` batch: the payload must be a JSON array; each
    /// element is routed as a synthetic `signal` carrying that element,
    /// and the batch stops at the first failed delivery. A payload of
    /// any other kind routes nothing.
    #[verifier::loop_isolation(false)]
    fn process_signals(
        &mut self,
        msg: SignalMsg,
        to_peer_id: &str,
        peer_id: &str,
        key: &str,
        Ghost(base): Ghost<MsgModel>,
    )
        requires
            old(self).wf(),
            msg@ == forwarded_model(base, peer_id@),
            key@ == peer_id@ + to_peer_id@,
        ensures
            final(self).wf(),
            signals_effect(*old(self), *final(self), base, peer_id@, to_peer_id@),
            forall|id: Seq<char>|
                id != peer_id@ && id != to_peer_id@ ==> #[trigger] spec_get(
                    final(self).clients@,
                    id,
                ) == spec_get(old(self).clients@, id),
            final(self).filter.cap() == old(self).filter.cap(),
            final(self).filter.keys() == old(self).filter.keys() || final(self).filter.keys()
                == put_keys(old(self).filter.keys(), old(self).filter.cap(), key@),
            forall|id: Seq<char>|
                match (
                    spec_get(old(self).clients@, id),
                    #[trigger] spec_get(final(self).clients@, id),
                ) {
                    (Some(c1), Some(c2)) => client_evolves(
                        c1,
                        c2,
                        base,
                        peer_id@,
                        to_peer_id@,
                        c1.timestamp as int,
                    ) && c2.timestamp == c1.timestamp,
                    (None, Some(_)) => false,
                    _ => true,
                },
    {
        let ghost pre = self.clients@;
        let ghost sender = peer_id@;
        let ghost tod = to_peer_id@;
        proof {
            lemma_evolve_refl_strict(pre, base, sender, tod);
        }
        let data = match msg.data.as_ref() {
            Some(d) => d,
            None => {
                proof {
                    assert(batch_of(base) is None);
                }
                return ;
            },
        };
        let items = match value_as_array(data) {
            Some(a) => a,
            None => {
                proof {
                    assert(batch_of(base) is None);
                }
                return ;
            },
        };
        let ghost es = items@;
        proof {
            assert(base.data == Some(*data));
        }
        let n = items.len();
        let mut j: usize = 0;
        while j < n
            invariant
                0 <= j <= n,
                n == es.len(),
                es == items@,
                base.data matches Some(d) && elems_of_value(d) == Some(es),
                self.wf(),
                self.filter == old(self).filter,
                spec_has(pre, tod) <==> spec_has(self.clients@, tod),
                !spec_has(pre, tod) ==> j == 0,
                j == 0 ==> self.clients@ == pre,
                tod != sender ==> spec_get(self.clients@, sender) == spec_get(pre, sender),
                match spec_get(self.clients@, tod) {
                    Some(cm) => spec_get(pre, tod) matches Some(c1) && batch_progress(
                        c1,
                        cm,
                        sender,
                        es,
                        j as int,
                    ),
                    None => true,
                },
                forall|id: Seq<char>|
                    id != sender && id != tod ==> #[trigger] spec_get(self.clients@, id)
                        == spec_get(pre, id),
                forall|id: Seq<char>|
                    match (spec_get(pre, id), #[trigger] spec_get(self.clients@, id)) {
                        (Some(c1), Some(c2)) => client_evolves(
                            c1,
                            c2,
                            base,
                            sender,
                            tod,
                            c1.timestamp as int,
                        ) && c2.timestamp == c1.timestamp,
                        (None, Some(_)) => false,
                        _ => true,
                    },
            decreases n - j,
        {
            let ghost mid = self.clients@;
            let item = &items[j];
            let elem = elem_msg(peer_id, item);
            proof {
                assert(delivery_ok(elem@, base, sender, tod)) by {
                    assert(es[j as int] == *item);
                }
            }
            let ok = self.process_signal(elem, to_peer_id, peer_id, key);
            proof {
                let post = self.clients@;
                assert forall|id: Seq<char>|
                    match (spec_get(pre, id), #[trigger] spec_get(post, id)) {
                        (Some(c1), Some(c2)) => client_evolves(
                            c1,
                            c2,
                            base,
                            sender,
                            tod,
                            c1.timestamp as int,
                        ) && c2.timestamp == c1.timestamp,
                        (None, Some(_)) => false,
                        _ => true,
                    } by {
                    match (spec_get(pre, id), spec_get(post, id)) {
                        (Some(c1), Some(c2)) => {
                            if spec_get(mid, id) is Some {
                                let cm = spec_get(mid, id)->Some_0;
                                if id == tod && ok {
                                    lemma_delivered_evolves(
                                        cm,
                                        c2,
                                        elem@,
                                        base,
                                        sender,
                                        tod,
                                        cm.timestamp as int,
                                    );
                                    lemma_evolve_retime(
                                        cm,
                                        c2,
                                        base,
                                        sender,
                                        tod,
                                        cm.timestamp as int,
                                        c1.timestamp as int,
                                    );
                                    lemma_client_evolves_trans(
                                        c1,
                                        cm,
                                        c2,
                                        base,
                                        sender,
                                        tod,
                                        c1.timestamp as int,
                                    );
                                } else if !ok && id == sender && c2 != cm {
                                    assert(delivered_exact(cm, c2, not_found_model(tod)));
                                    lemma_delivered_evolves(
                                        cm,
                                        c2,
                                        not_found_model(tod),
                                        base,
                                        sender,
                                        tod,
                                        cm.timestamp as int,
                                    );
                                    lemma_evolve_retime(
                                        cm,
                                        c2,
                                        base,
                                        sender,
                                        tod,
                                        cm.timestamp as int,
                                        c1.timestamp as int,
                                    );
                                    lemma_client_evolves_trans(
                                        c1,
                                        cm,
                                        c2,
                                        base,
                                        sender,
                                        tod,
                                        c1.timestamp as int,
                                    );
                                } else {
                                    assert(c2 == cm);
                                }
                            }
                        },
                        _ => {},
                    }
                }
            }
            proof {
                let post = self.clients@;
                if ok {
                    // the delivery succeeded: the destination took
                    // element j exactly
                    let cm = spec_get(mid, tod)->Some_0;
                    let c1 = spec_get(pre, tod)->Some_0;
                    let c2 = spec_get(post, tod)->Some_0;
                    assert(delivered_exact(cm, c2, elem@));
                    lemma_spec_get_witness(pre, tod);
                    assert(c1.msg_queue@.len() <= crate::client::POLLING_QUEUE_SIZE as nat) by {
                        let w = choose|w: int|
                            0 <= w < pre.len() && pre[w] == c1 && #[trigger] pre[w].peer_id@
                                == tod;
                        assert(pre[w].wf());
                    }
                    lemma_batch_progress_step(c1, cm, c2, sender, es, j as int);
                }
            }
            if !ok {
                proof {
                    assert(signals_effect(*old(self), *self, base, sender, tod)) by {
                        assert(batch_of(base) == Some(es));
                        assert(!spec_has(self.clients@, tod));
                    }
                }
                return ;
            }
            j = j + 1;
        }
        proof {
            assert(signals_effect(*old(self), *self, base, sender, tod)) by {
                assert(batch_of(base) == Some(es));
                if !spec_has(pre, tod) {
                    assert(self.clients@ == pre);
                }
            }
        }
    }

    /// The router. A message without an action marks the sender alive; a
    /// `ping`/`heartbeat` answers `pong`; `signal`, `signals` and
    /// `reject` are forwarded toward the effective destination under the
    /// duplicate filter; everything else is dropped.
    #[verifier::loop_isolation(false)]
    pub fn process_message(&mut self, msg: &SignalMsg, peer_id: &str, now_ms: u64)
        requires
            old(self).wf(),
        ensures
            final(self).wf(),
            process_effect(*old(self), *final(self), msg@, peer_id@, now_ms as int),
    {
        let ghost pre = self.clients@;
        let ghost sender = peer_id@;
        let ghost tod = dest_or_empty(msg@);
        proof {
            lemma_action_literals();
        }
        match msg.action.as_ref() {
            Some(action) => {
                if action.as_str().eq("ping") || action.as_str().eq("heartbeat") {
                    self.process_ping(peer_id, now_ms);
                    proof {
                        let post = self.clients@;
                        assert forall|id: Seq<char>|
                            match (spec_get(pre, id), #[trigger] spec_get(post, id)) {
                                (Some(c1), Some(c2)) => client_evolves(
                                    c1,
                                    c2,
                                    msg@,
                                    sender,
                                    tod,
                                    now_ms as int,
                                ),
                                (None, Some(_)) => false,
                                _ => true,
                            } by {
                            match (spec_get(pre, id), spec_get(post, id)) {
                                (Some(c1), Some(c2)) => {
                                    if id == sender {
                                        lemma_queue_extended_refl(c1.msg_queue@, msg@, sender, tod);
                                        lemma_delivered_evolves(
                                            touched(c1, now_ms as int),
                                            c2,
                                            pong_model(),
                                            msg@,
                                            sender,
                                            tod,
                                            now_ms as int,
                                        );
                                        lemma_client_evolves_trans(
                                            c1,
                                            touched(c1, now_ms as int),
                                            c2,
                                            msg@,
                                            sender,
                                            tod,
                                            now_ms as int,
                                        );
                                    } else {
                                        lemma_queue_extended_refl(c1.msg_queue@, msg@, sender, tod);
                                    }
                                },
                                _ => {},
                            }
                        }
                    }
                } else {
                    let to = match msg.to_peer_id() {
                        Some(t) => t,
                        None => {
                            proof {
                                lemma_evolve_refl2(pre, msg@, sender, tod, now_ms as int);
                            }
                            return ;
                        },
                    };
                    let fwd = forwarded_msg(msg, peer_id);
                    let key = key_for_filter(peer_id, to);
                    if self.filter.contains(key.as_str()) {
                        proof {
                            lemma_evolve_refl2(pre, msg@, sender, tod, now_ms as int);
                        }
                        return ;
                    }
                    if action.as_str().eq("signal") {
                        let delivered = self.process_signal(fwd, to, peer_id, key.as_str());
                        proof {
                            let post = self.clients@;
                            assert forall|id: Seq<char>|
                                match (spec_get(pre, id), #[trigger] spec_get(post, id)) {
                                    (Some(c1), Some(c2)) => client_evolves(
                                        c1,
                                        c2,
                                        msg@,
                                        sender,
                                        tod,
                                        now_ms as int,
                                    ),
                                    (None, Some(_)) => false,
                                    _ => true,
                                } by {
                                match (spec_get(pre, id), spec_get(post, id)) {
                                    (Some(c1), Some(c2)) => {
                                        if delivered && id == to@ {
                                            lemma_delivered_evolves(
                                                c1,
                                                c2,
                                                fwd@,
                                                msg@,
                                                sender,
                                                tod,
                                                now_ms as int,
                                            );
                                        } else if !delivered && id == sender && c2 != c1 {
                                            assert(delivered_exact(
                                                c1,
                                                c2,
                                                not_found_model(to@),
                                            ));
                                            lemma_delivered_evolves(
                                                c1,
                                                c2,
                                                not_found_model(to@),
                                                msg@,
                                                sender,
                                                tod,
                                                now_ms as int,
                                            );
                                        } else {
                                            assert(c2 == c1);
                                            lemma_queue_extended_refl(
                                                c1.msg_queue@,
                                                msg@,
                                                sender,
                                                tod,
                                            );
                                        }
                                    },
                                    _ => {},
                                }
                            }
                        }
                    } else if action.as_str().eq("signals") {
                        self.process_signals(fwd, to, peer_id, key.as_str(), Ghost(msg@));
                        proof {
                            let post = self.clients@;
                            assert forall|id: Seq<char>|
                                match (spec_get(pre, id), #[trigger] spec_get(post, id)) {
                                    (Some(c1), Some(c2)) => client_evolves(
                                        c1,
                                        c2,
                                        msg@,
                                        sender,
                                        tod,
                                        now_ms as int,
                                    ),
                                    (None, Some(_)) => false,
                                    _ => true,
                                } by {
                                match (spec_get(pre, id), spec_get(post, id)) {
                                    (Some(c1), Some(c2)) => {
                                        lemma_evolve_retime(
                                            c1,
                                            c2,
                                            msg@,
                                            sender,
                                            tod,
                                            c1.timestamp as int,
                                            now_ms as int,
                                        );
                                    },
                                    _ => {},
                                }
                            }
                        }
                    } else if action.as_str().eq("reject") {
                        // the suppression key is the rejected direction:
                        // later signals from the rejected sender toward
                        // the rejecting peer must find it
                        let rkey = key_for_filter(to, peer_id);
                        self.process_reject(fwd, to, rkey.as_str());
                        proof {
                            let post = self.clients@;
                            assert forall|id: Seq<char>|
                                match (spec_get(pre, id), #[trigger] spec_get(post, id)) {
                                    (Some(c1), Some(c2)) => client_evolves(
                                        c1,
                                        c2,
                                        msg@,
                                        sender,
                                        tod,
                                        now_ms as int,
                                    ),
                                    (None, Some(_)) => false,
                                    _ => true,
                                } by {
                                match (spec_get(pre, id), spec_get(post, id)) {
                                    (Some(c1), Some(c2)) => {
                                        if id == to@ && c2 != c1 {
                                            lemma_delivered_evolves(
                                                c1,
                                                c2,
                                                fwd@,
                                                msg@,
                                                sender,
                                                tod,
                                                now_ms as int,
                                            );
                                        } else {
                                            assert(c2 == c1);
                                            lemma_queue_extended_refl(
                                                c1.msg_queue@,
                                                msg@,
                                                sender,
                                                tod,
                                            );
                                        }
                                    },
                                    _ => {},
                                }
                            }
                        }
                    } else {
                        // unrecognized action: dropped
                        proof {
                            lemma_evolve_refl2(pre, msg@, sender, tod, now_ms as int);
                        }
                    }
                }
            },
            None => {
                match self.lookup(peer_id) {
                    Some(i) => {
                        let ghost c1 = self.clients@[i as int];
                        self.touch_at(i, now_ms);
                        proof {
                            let post = self.clients@;
                            assert forall|id: Seq<char>|
                                match (spec_get(pre, id), #[trigger] spec_get(post, id)) {
                                    (Some(ca), Some(cb)) => client_evolves(
                                        ca,
                                        cb,
                                        msg@,
                                        sender,
                                        tod,
                                        now_ms as int,
                                    ),
                                    (None, Some(_)) => false,
                                    _ => true,
                                } by {
                                match (spec_get(pre, id), spec_get(post, id)) {
                                    (Some(ca), Some(cb)) => {
                                        lemma_queue_extended_refl(ca.msg_queue@, msg@, sender, tod);
                                    },
                                    _ => {},
                                }
                            }
                        }
                    },
                    None => {
                        proof {
                            lemma_evolve_refl2(pre, msg@, sender, tod, now_ms as int);
                        }
                    },
                }
            },
        }
    }
}

/// The batch a `signals` message carries: the elements of its payload
/// when that payload is a JSON array.
pub open spec fn batch_of(m: MsgModel) -> Option<Seq<serde_json::Value>> {
    match m.data {
        Some(d) => elems_of_value(d),
        None => None,
    }
}

/// How many of `j` attempted appends a pull queue of length `qlen`
/// takes: it fills to the bound and silently drops the rest.
pub open spec fn batch_fill(qlen: int, j: int) -> int {
    let bound = crate::client::POLLING_QUEUE_SIZE as int;
    if qlen >= bound {
        0
    } else if j <= bound - qlen {
        if j >= 0 {
            j
        } else {
            0
        }
    } else {
        bound - qlen
    }
}

/// The exact effect of delivering the first `j` elements of a batch to
/// one client: a pull client's queue gains the elements in order, as
/// synthetic signals from the sender, up to the queue bound; a push
/// client's queue is untouched (its frames went to the socket channel).
/// Identity, transport and activity mark are kept.
pub open spec fn batch_progress(
    c1: Client,
    c2: Client,
    sender: Seq<char>,
    es: Seq<serde_json::Value>,
    j: int,
) -> bool {
    &&& c2.peer_id == c1.peer_id
    &&& c2.is_polling == c1.is_polling
    &&& c2.ws == c1.ws
    &&& c2.http == c1.http
    &&& c2.timestamp == c1.timestamp
    &&& if c1.is_polling {
        &&& c2.msg_queue@.len() == c1.msg_queue@.len() + batch_fill(c1.msg_queue@.len() as int, j)
        &&& c2.msg_queue@.take(c1.msg_queue@.len() as int) == c1.msg_queue@
        &&& forall|x: int|
            c1.msg_queue@.len() <= x < c2.msg_queue@.len() ==> (#[trigger] c2.msg_queue@[x])@
                == elem_model(sender, es[x - c1.msg_queue@.len()])
    } else {
        c2.msg_queue@ == c1.msg_queue@
    }
}

/// The one peer-not-found notice a failed delivery owes the sender: it
/// is sent exactly once, and a failed notice unregisters the sender.
pub open spec fn notice_outcome(
    pre: Seq<Client>,
    post: Seq<Client>,
    sender: Seq<char>,
    to: Seq<char>,
) -> bool {
    match spec_get(pre, sender) {
        Some(c1) => (spec_get(post, sender) matches Some(c2) && delivered_exact(
            c1,
            c2,
            not_found_model(to),
        )) || !spec_has(post, sender),
        None => !spec_has(post, sender),
    }
}

/// What routing a `signals` batch does, exactly. A payload that is
/// missing or not an array routes nothing. Otherwise the elements go to
/// the destination in order and the batch stops at the first failed
/// delivery: a destination that survives took every element
/// (`batch_progress` over the whole batch) and the filter is untouched;
/// a destination that is gone, or was never there, leaves the pair
/// suppressed and the sender notified exactly once.
pub open spec fn signals_effect(
    pre: Hub,
    post: Hub,
    m: MsgModel,
    sender: Seq<char>,
    to: Seq<char>,
) -> bool {
    match batch_of(m) {
        None => post.clients@ == pre.clients@ && post.filter == pre.filter,
        Some(es) => {
            &&& (spec_get(post.clients@, to) matches Some(c2) ==> (spec_get(
                pre.clients@,
                to,
            ) matches Some(c1) && batch_progress(c1, c2, sender, es, es.len() as int)
                && post.filter == pre.filter && (to != sender ==> spec_get(post.clients@, sender)
                == spec_get(pre.clients@, sender))))
            &&& (spec_has(pre.clients@, to) && !spec_has(post.clients@, to)
                ==> post.filter.keys() == put_keys(pre.filter.keys(), pre.filter.cap(), sender + to)
                && (to != sender ==> notice_outcome(pre.clients@, post.clients@, sender, to)))
            &&& (!spec_has(pre.clients@, to) && es.len() > 0 ==> post.filter.keys() == put_keys(
                pre.filter.keys(),
                pre.filter.cap(),
                sender + to,
            ) && (to != sender ==> notice_outcome(pre.clients@, post.clients@, sender, to)))
            &&& (!spec_has(pre.clients@, to) && es.len() == 0 ==> post.clients@ == pre.clients@
                && post.filter == pre.filter)
        },
    }
}

/// Everything one routing call promises: how the hub after (`post`)
/// relates to the hub before (`pre`) when message `m` from the
/// authenticated `sender` is processed at time `now`.
pub open spec fn process_effect(pre: Hub, post: Hub, m: MsgModel, sender: Seq<char>, now: int) -> bool {
    &&& (// only the sender and the destination can be affected
            forall|id: Seq<char>|
                id != sender && id != dest_or_empty(m) ==> #[trigger] spec_get(
                    post.clients@,
                    id,
                ) == spec_get(pre.clients@, id))
    &&& (// the registry never grows, and every surviving client keeps
            // its identity and transport, its activity mark at most
            // refreshed, and its queue extended by this call's protocol
            // messages alone
            forall|id: Seq<char>|
                match (
                    spec_get(pre.clients@, id),
                    #[trigger] spec_get(post.clients@, id),
                ) {
                    (Some(c1), Some(c2)) => client_evolves(
                        c1,
                        c2,
                        m,
                        sender,
                        dest_or_empty(m),
                        now,
                    ),
                    (None, Some(_)) => false,
                    _ => true,
                })
    &&& (// a keep-alive touches the sender and nothing else
            is_keepalive(m) ==> post.filter == pre.filter && (match spec_get(
                pre.clients@,
                sender,
            ) {
                Some(c1) => spec_get(post.clients@, sender) == Some(
                    touched(c1, now),
                ),
                None => post.clients@ == pre.clients@,
            }))
    &&& (// a probe touches the sender and answers pong; a failed
            // answer unregisters the sender, and the answer to a pull
            // sender with no wake handle cannot fail
            is_ping_action(m) ==> post.filter == pre.filter && (match spec_get(
                pre.clients@,
                sender,
            ) {
                Some(c1) => (match spec_get(post.clients@, sender) {
                    Some(c2) => c2.timestamp == now && delivered_exact(
                        touched(c1, now),
                        c2,
                        pong_model(),
                    ),
                    None => true,
                }) && (c1.is_polling && c1.http is None ==> spec_has(post.clients@, sender)),
                None => post.clients@ == pre.clients@,
            }))
    &&& (// an undeliverable or unrecognized message changes nothing
            !is_keepalive(m) && !is_ping_action(m) && effective_dest(m) is None ==> post.clients@ == pre.clients@ && post.filter == pre.filter)
    &&& (!is_keepalive(m) && !is_ping_action(m) && !is_routed_action(m) ==> post.clients@ == pre.clients@ && post.filter == pre.filter)
    &&& (// a suppressed pair changes nothing
            is_routed_action(m) && (effective_dest(m) matches Some(t)
                && pre.filter.keys().contains(sender + t)) ==> post.clients@
                == pre.clients@ && post.filter == pre.filter)
    &&& (// the filter can gain at most this pair's suppression key
            post.filter.cap() == pre.filter.cap())
    &&& (post.filter.keys() == pre.filter.keys() || (effective_dest(
                m,
            ) matches Some(t) && (post.filter.keys() == put_keys(
                pre.filter.keys(),
                pre.filter.cap(),
                sender + t,
            ) || (m.action == Some("reject"@) && post.filter.keys() == put_keys(
                pre.filter.keys(),
                pre.filter.cap(),
                t + sender,
            )))))
    &&& (// a signal toward an attached destination is delivered, or
            // that destination's transport is gone: then it is
            // unregistered and the pair suppressed
            m.action == Some("signal"@) && effective_dest(m) is Some && !pre.filter.keys().contains(sender + dest_or_empty(m)) ==> (spec_get(
                pre.clients@,
                dest_or_empty(m),
            ) matches Some(c1) ==> ((spec_get(
                post.clients@,
                dest_or_empty(m),
            ) matches Some(c2) && delivered_exact(c1, c2, forwarded_model(m, sender))
                && post.filter == pre.filter && (forall|id: Seq<char>|
                id != dest_or_empty(m) ==> #[trigger] spec_get(post.clients@, id) == spec_get(
                    pre.clients@,
                    id,
                ))) || (!spec_has(
                post.clients@,
                dest_or_empty(m),
            ) && post.filter.keys() == put_keys(
                pre.filter.keys(),
                pre.filter.cap(),
                sender + dest_or_empty(m),
            )))))
    &&& (// a signal toward an absent destination installs the
            // suppression key
            m.action == Some("signal"@) && effective_dest(m) is Some && !pre.filter.keys().contains(sender + dest_or_empty(m)) && !spec_has(
                pre.clients@,
                dest_or_empty(m),
            ) ==> post.filter.keys() == put_keys(
                pre.filter.keys(),
                pre.filter.cap(),
                sender + dest_or_empty(m),
            ))
    &&& (// a signal toward an absent destination also notifies the
            // sender that its target vanished, unless the sender's own
            // transport is gone too
            m.action == Some("signal"@) && effective_dest(m) is Some && !pre.filter.keys().contains(sender + dest_or_empty(m)) && !spec_has(
                pre.clients@,
                dest_or_empty(m),
            ) && dest_or_empty(m) != sender ==> (spec_get(
                pre.clients@,
                sender,
            ) matches Some(c1) ==> ((spec_get(post.clients@, sender) matches Some(c2)
                && delivered_exact(c1, c2, not_found_model(dest_or_empty(m)))) || !spec_has(
                post.clients@,
                sender,
            ))))
    &&& (// a reject toward an attached destination suppresses the
            // rejected direction — the key a later signal from that
            // destination toward this sender will find — and is
            // forwarded, unless the destination's transport is gone:
            // then it is unregistered
            m.action == Some("reject"@) && effective_dest(m) is Some && !pre.filter.keys().contains(sender + dest_or_empty(m)) ==> (spec_get(
                pre.clients@,
                dest_or_empty(m),
            ) matches Some(c1) ==> post.filter.keys() == put_keys(
                pre.filter.keys(),
                pre.filter.cap(),
                dest_or_empty(m) + sender,
            ) && ((spec_get(post.clients@, dest_or_empty(m)) matches Some(c2)
                && delivered_exact(c1, c2, forwarded_model(m, sender))) || !spec_has(
                post.clients@,
                dest_or_empty(m),
            ))))
    &&& (// a reject touches no client but its destination
            m.action == Some("reject"@) ==> forall|id: Seq<char>|
                id != dest_or_empty(m) ==> #[trigger] spec_get(post.clients@, id) == spec_get(
                    pre.clients@,
                    id,
                ))
    &&& (// a reject toward an absent destination changes nothing
            m.action == Some("reject"@) && (effective_dest(m) matches Some(t)
                && !pre.filter.keys().contains(sender + t) && !spec_has(
                pre.clients@,
                t,
            )) ==> post.clients@ == pre.clients@ && post.filter == pre.filter)
    &&& (m.action == Some("signals"@) && effective_dest(m) is Some && !pre.filter.keys().contains(
        sender + dest_or_empty(m),
    ) ==> signals_effect(pre, post, m, sender, dest_or_empty(m)))
    &&& (m.action == Some("signal"@) && effective_dest(m) is Some && !pre.filter.keys().contains(
        sender + dest_or_empty(m),
    ) ==> (spec_get(pre.clients@, dest_or_empty(m)) matches Some(c1) ==> (c1.is_polling
        && c1.http is None ==> (spec_get(post.clients@, dest_or_empty(m)) matches Some(c2)
        && delivered_exact(c1, c2, forwarded_model(m, sender)) && post.filter == pre.filter))))
}

/// Delivering one more batch element extends the exact batch effect by
/// one step: a pull queue appends it when it has room and silently
/// drops it when saturated; a push queue is untouched.
proof fn lemma_batch_progress_step(
    c1: Client,
    cm: Client,
    c2: Client,
    sender: Seq<char>,
    es: Seq<serde_json::Value>,
    j: int,
)
    requires
        0 <= j < es.len(),
        c1.msg_queue@.len() <= crate::client::POLLING_QUEUE_SIZE as nat,
        batch_progress(c1, cm, sender, es, j),
        delivered_exact(cm, c2, elem_model(sender, es[j])),
    ensures
        batch_progress(c1, c2, sender, es, j + 1),
{
    let bound = crate::client::POLLING_QUEUE_SIZE as int;
    let l1 = c1.msg_queue@.len() as int;
    if c1.is_polling {
        let lm = cm.msg_queue@.len() as int;
        if lm < bound {
            // room: the element was appended, and the fill grows by one
            assert(batch_fill(l1, j) == j);
            assert(batch_fill(l1, j + 1) == j + 1);
            assert(c2.msg_queue@.take(lm) == cm.msg_queue@);
            assert forall|x: int| 0 <= x < lm implies c2.msg_queue@[x] == cm.msg_queue@[x] by {
                assert(c2.msg_queue@.take(lm)[x] == c2.msg_queue@[x]);
            }
            assert(c2.msg_queue@.take(l1) =~= c1.msg_queue@) by {
                assert(forall|x: int|
                    0 <= x < l1 ==> #[trigger] cm.msg_queue@.take(l1)[x] == cm.msg_queue@[x]);
            }
            assert forall|x: int| l1 <= x < c2.msg_queue@.len() implies (
            #[trigger] c2.msg_queue@[x])@ == elem_model(sender, es[x - l1]) by {
                if x < lm {
                    assert(cm.msg_queue@[x]@ == elem_model(sender, es[x - l1]));
                } else {
                    assert(c2.msg_queue@[x] == c2.msg_queue@.last());
                    assert(x - l1 == j);
                }
            }
        } else {
            // saturated: the element was silently dropped
            assert(batch_fill(l1, j + 1) == batch_fill(l1, j));
            assert(c2.msg_queue@ == cm.msg_queue@);
            assert(c2.msg_queue@.take(l1) == cm.msg_queue@.take(l1));
        }
    }
}

/// The hub evolved by routing the given messages, in order, each step
/// one `process_effect` of the router.
pub open spec fn batch_routed(
    pre: Hub,
    post: Hub,
    batch: Seq<MsgModel>,
    sender: Seq<char>,
    now: int,
) -> bool
    decreases batch.len(),
{
    if batch.len() == 0 {
        post == pre
    } else {
        exists|mid: Hub| #[trigger]
            process_effect(pre, mid, batch[0], sender, now) && batch_routed(
                mid,
                post,
                batch.skip(1),
                sender,
                now,
            )
    }
}

/// Routing one more message extends a routed batch by one step.
pub proof fn lemma_batch_routed_push(
    pre: Hub,
    mid: Hub,
    post: Hub,
    batch: Seq<MsgModel>,
    m: MsgModel,
    sender: Seq<char>,
    now: int,
)
    requires
        batch_routed(pre, mid, batch, sender, now),
        process_effect(mid, post, m, sender, now),
    ensures
        batch_routed(pre, post, batch.push(m), sender, now),
    decreases batch.len(),
{
    if batch.len() == 0 {
        assert(mid == pre);
        assert(batch.push(m)[0] == m);
        assert(batch.push(m).skip(1) =~= Seq::<MsgModel>::empty());
        assert(process_effect(pre, post, batch.push(m)[0], sender, now) && batch_routed(
            post,
            post,
            batch.push(m).skip(1),
            sender,
            now,
        ));
    } else {
        let mid1 = choose|mid1: Hub| #[trigger]
            process_effect(pre, mid1, batch[0], sender, now) && batch_routed(
                mid1,
                mid,
                batch.skip(1),
                sender,
                now,
            );
        lemma_batch_routed_push(mid1, mid, post, batch.skip(1), m, sender, now);
        assert(batch.push(m)[0] == batch[0]);
        assert(batch.push(m).skip(1) =~= batch.skip(1).push(m));
        assert(process_effect(pre, mid1, batch.push(m)[0], sender, now) && batch_routed(
            mid1,
            post,
            batch.push(m).skip(1),
            sender,
            now,
        ));
    }
}

/// The recognized action tags are pairwise distinct.
proof fn lemma_action_literals()
    ensures
        "ping"@ != "signal"@ && "ping"@ != "signals"@ && "ping"@ != "reject"@,
        "heartbeat"@ != "signal"@ && "heartbeat"@ != "signals"@ && "heartbeat"@ != "reject"@,
        "signal"@ != "signals"@ && "signal"@ != "reject"@ && "signals"@ != "reject"@,
        "ping"@ != "heartbeat"@,
{
    reveal_strlit("ping");
    reveal_strlit("heartbeat");
    reveal_strlit("signal");
    reveal_strlit("signals");
    reveal_strlit("reject");
    assert("ping"@.len() == 4 && "heartbeat"@.len() == 9 && "signal"@.len() == 6 && "signals"@.len()
        == 7 && "reject"@.len() == 6);
    assert("signal"@[0] == 's' && "reject"@[0] == 'r');
}

/// An unchanged registry trivially satisfies the strict (no-touch)
/// evolve relation.
proof fn lemma_evolve_refl_strict(s: Seq<Client>, base: MsgModel, sender: Seq<char>, to: Seq<char>)
    ensures
        forall|id: Seq<char>|
            match (spec_get(s, id), #[trigger] spec_get(s, id)) {
                (Some(c1), Some(c2)) => client_evolves(c1, c2, base, sender, to, c1.timestamp as int)
                    && c2.timestamp == c1.timestamp,
                (None, Some(_)) => false,
                _ => true,
            },
{
    assert forall|id: Seq<char>|
        match (spec_get(s, id), #[trigger] spec_get(s, id)) {
            (Some(c1), Some(c2)) => client_evolves(c1, c2, base, sender, to, c1.timestamp as int)
                && c2.timestamp == c1.timestamp,
            (None, Some(_)) => false,
            _ => true,
        } by {
        if spec_get(s, id) is Some {
            let c1 = spec_get(s, id)->Some_0;
            lemma_queue_extended_refl(c1.msg_queue@, base, sender, to);
        }
    }
}

/// An unchanged registry trivially satisfies the evolve relation.
proof fn lemma_evolve_refl2(
    s: Seq<Client>,
    base: MsgModel,
    sender: Seq<char>,
    to: Seq<char>,
    now: int,
)
    ensures
        forall|id: Seq<char>|
            match (spec_get(s, id), #[trigger] spec_get(s, id)) {
                (Some(c1), Some(c2)) => client_evolves(c1, c2, base, sender, to, now),
                (None, Some(_)) => false,
                _ => true,
            },
{
    assert forall|id: Seq<char>|
        match (spec_get(s, id), #[trigger] spec_get(s, id)) {
            (Some(c1), Some(c2)) => client_evolves(c1, c2, base, sender, to, now),
            (None, Some(_)) => false,
            _ => true,
        } by {
        if spec_get(s, id) is Some {
            let c1 = spec_get(s, id)->Some_0;
            lemma_queue_extended_refl(c1.msg_queue@, base, sender, to);
        }
    }
}

/// A changed activity mark does not matter to the evolve relation when
/// the mark did not change.
proof fn lemma_evolve_retime(
    c1: Client,
    c2: Client,
    base: MsgModel,
    sender: Seq<char>,
    to: Seq<char>,
    n1: int,
    n2: int,
)
    requires
        client_evolves(c1, c2, base, sender, to, n1),
        c2.timestamp == c1.timestamp,
    ensures
        client_evolves(c1, c2, base, sender, to, n2),
{
}

/// An owned copy of a key slice.
fn key_to_string(key: &str) -> (r: String)
    ensures
        r@ == key@,
{
    key.to_owned()
}

/// A pure keep-alive: no action tag at all.
pub open spec fn is_keepalive(m: MsgModel) -> bool {
    m.action is None
}

/// A liveness probe.
pub open spec fn is_ping_action(m: MsgModel) -> bool {
    m.action == Some("ping"@) || m.action == Some("heartbeat"@)
}

/// An action the router forwards toward a destination.
pub open spec fn is_routed_action(m: MsgModel) -> bool {
    m.action == Some("signal"@) || m.action == Some("signals"@) || m.action == Some("reject"@)
}

/// The effective destination, or the empty id when there is none.
pub open spec fn dest_or_empty(m: MsgModel) -> Seq<char> {
    match effective_dest(m) {
        Some(t) => t,
        None => Seq::empty(),
    }
}

/// An exactly-delivered protocol message is one step of `client_evolves`.
proof fn lemma_delivered_evolves(
    c1: Client,
    c2: Client,
    m: MsgModel,
    base: MsgModel,
    sender: Seq<char>,
    to: Seq<char>,
    now: int,
)
    requires
        delivered_exact(c1, c2, m),
        delivery_ok(m, base, sender, to),
        c2.timestamp == c1.timestamp || c2.timestamp == now,
    ensures
        client_evolves(c1, c2, base, sender, to, now),
{
    if c1.is_polling && c1.msg_queue@.len() < crate::client::POLLING_QUEUE_SIZE as nat {
        assert forall|k: int|
            c1.msg_queue@.len() <= k < c2.msg_queue@.len() implies delivery_ok(
            #[trigger] c2.msg_queue@[k]@,
            base,
            sender,
            to,
        ) by {
            assert(c2.msg_queue@[k] == c2.msg_queue@.last());
        }
    } else {
        lemma_queue_extended_refl(c1.msg_queue@, base, sender, to);
    }
}

/// The clients that survive a sweep at the given time, in order.
pub open spec fn sweep_kept(s: Seq<Client>, now: int) -> Seq<Client>
    decreases s.len(),
{
    if s.len() == 0 {
        Seq::empty()
    } else if spec_expired(s[0], now) {
        sweep_kept(s.skip(1), now)
    } else {
        seq![s[0]] + sweep_kept(s.skip(1), now)
    }
}

/// A one-element sequence survives a sweep iff its element does.
proof fn lemma_sweep_singleton(c: Client, now: int)
    ensures
        sweep_kept(seq![c], now) == (if spec_expired(c, now) {
            Seq::<Client>::empty()
        } else {
            seq![c]
        }),
{
    assert(seq![c][0] == c);
    assert(seq![c].skip(1) =~= Seq::<Client>::empty());
    assert(sweep_kept(Seq::<Client>::empty(), now) == Seq::<Client>::empty());
    if !spec_expired(c, now) {
        assert(sweep_kept(seq![c], now) =~= seq![c]);
    }
}

/// Surviving a sweep distributes over concatenation.
proof fn lemma_sweep_append(a: Seq<Client>, b: Seq<Client>, now: int)
    ensures
        sweep_kept(a + b, now) == sweep_kept(a, now) + sweep_kept(b, now),
    decreases a.len(),
{
    if a.len() == 0 {
        assert(a + b =~= b);
        assert(sweep_kept(a, now) + sweep_kept(b, now) =~= sweep_kept(b, now));
    } else {
        assert((a + b)[0] == a[0]);
        assert((a + b).skip(1) =~= a.skip(1) + b);
        lemma_sweep_append(a.skip(1), b, now);
        if !spec_expired(a[0], now) {
            assert(seq![a[0]] + (sweep_kept(a.skip(1), now) + sweep_kept(b, now)) =~= (seq![a[0]]
                + sweep_kept(a.skip(1), now)) + sweep_kept(b, now));
        }
    }
}

/// Survivors keep unique ids, come from the swept sequence, and look up
/// exactly as the unexpired entries of the swept sequence.
proof fn lemma_sweep_props(s: Seq<Client>, now: int)
    requires
        unique_ids(s),
    ensures
        unique_ids(sweep_kept(s, now)),
        forall|c: Client| #[trigger] sweep_kept(s, now).contains(c) ==> s.contains(c),
        forall|id: Seq<char>|
            #[trigger] spec_get(sweep_kept(s, now), id) == (match spec_get(s, id) {
                Some(c) => if spec_expired(c, now) {
                    None
                } else {
                    Some(c)
                },
                None => None,
            }),
    decreases s.len(),
{
    if s.len() == 0 {
    } else {
        let h = s[0];
        let rest = s.skip(1);
        assert forall|a: int, b: int|
            0 <= a < b < rest.len() implies #[trigger] rest[a].peer_id@
            != #[trigger] rest[b].peer_id@ by {
            assert(rest[a] == s[a + 1] && rest[b] == s[b + 1]);
        }
        lemma_sweep_props(rest, now);
        let kr = sweep_kept(rest, now);
        assert forall|c: Client| #[trigger] kr.contains(c) implies rest.contains(c) by {}
        assert forall|c: Client| #[trigger] rest.contains(c) implies s.contains(c) by {
            let w = choose|w: int| 0 <= w < rest.len() && rest[w] == c;
            assert(s[w + 1] == c);
        }
        if spec_expired(h, now) {
            // the head is dropped; its id is nowhere else, so it looks up
            // to nothing among the survivors
            assert forall|id: Seq<char>|
                #[trigger] spec_get(sweep_kept(s, now), id) == (match spec_get(s, id) {
                    Some(c) => if spec_expired(c, now) {
                        None
                    } else {
                        Some(c)
                    },
                    None => None,
                }) by {
                if id == h.peer_id@ {
                    assert(spec_get(s, id) == Some(h));
                    if spec_get(kr, id) is Some {
                        lemma_spec_get_witness(kr, id);
                        let c = spec_get(kr, id)->Some_0;
                        let w = choose|w: int|
                            0 <= w < kr.len() && kr[w] == c && #[trigger] kr[w].peer_id@ == id;
                        assert(kr.contains(c));
                        let w2 = choose|w2: int| 0 <= w2 < rest.len() && rest[w2] == c;
                        assert(s[w2 + 1].peer_id@ == h.peer_id@);
                    }
                }
            }
        } else {
            let ks = sweep_kept(s, now);
            assert(ks == seq![h] + kr);
            assert(ks[0] == h);
            assert(ks.skip(1) =~= kr);
            assert forall|c: Client| #[trigger] ks.contains(c) implies s.contains(c) by {
                let w = choose|w: int| 0 <= w < ks.len() && ks[w] == c;
                if w == 0 {
                    assert(s[0] == c);
                } else {
                    assert(kr[w - 1] == c);
                    assert(kr.contains(c));
                }
            }
            assert forall|a: int, b: int|
                0 <= a < b < ks.len() implies #[trigger] ks[a].peer_id@
                != #[trigger] ks[b].peer_id@ by {
                if a == 0 {
                    assert(kr[b - 1] == ks[b]);
                    assert(kr.contains(kr[b - 1]));
                    assert(rest.contains(kr[b - 1]));
                    let w = choose|w: int| 0 <= w < rest.len() && rest[w] == kr[b - 1];
                    assert(s[w + 1] == kr[b - 1]);
                    assert(s[0].peer_id@ != s[w + 1].peer_id@);
                } else {
                    assert(kr[a - 1] == ks[a] && kr[b - 1] == ks[b]);
                }
            }
            assert forall|id: Seq<char>|
                #[trigger] spec_get(ks, id) == (match spec_get(s, id) {
                    Some(c) => if spec_expired(c, now) {
                        None
                    } else {
                        Some(c)
                    },
                    None => None,
                }) by {
                if id == h.peer_id@ {
                    assert(spec_get(ks, id) == Some(h));
                } else {
                    assert(spec_get(ks, id) == spec_get(kr, id));
                }
            }
        }
    }
}

} // verus!
