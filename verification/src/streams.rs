//! The per-connection stream tables and the logic that drives them: the
//! fair frame scheduler, the acknowledgment and loss hooks, the control
//! frame dispatcher, and the stream-ID acceptance path.
//!
//! Both tables associate stream IDs with stream halves, keyed in increasing
//! ID order with unique keys; the whole table is replaced by the error once
//! the connection dies, after which operations surface it without side
//! effects.

use vstd::prelude::*;
use crate::err::{Error, ErrorKind, FrameType};
use crate::frames::{
    MaxStreamsFrame, ResetStreamFrame, SendFrame, StreamCtlFrame, StreamFrame,
};
use crate::params::TransportParameters;
use crate::recv::Incoming;
use crate::sender::{sender_buf, Outgoing, SenderV};
use crate::sid::{AcceptSid, Dir, ExceedLimitError, Role, StreamId, StreamIds};
use crate::varint::VARINT_MAX;

verus! {

/// The token quantum the round-robin scheduler grants a stream at each
/// visit.
pub const DEFAULT_TOKENS: usize = 4096;

/// The first index of `q` whose ID is at least `sid`, or the length.
pub open spec fn find_at_or_after<V>(q: Seq<(StreamId, V)>, sid: StreamId, i: int) -> int
    decreases q.len() - i,
{
    if i < 0 || i >= q.len() {
        q.len() as int
    } else if q[i].0.id >= sid.id {
        i
    } else {
        find_at_or_after(q, sid, i + 1)
    }
}

/// The index holding exactly `sid`, or the length if absent.
pub open spec fn find_sid<V>(q: Seq<(StreamId, V)>, sid: StreamId, i: int) -> int
    decreases q.len() - i,
{
    if i < 0 || i >= q.len() {
        q.len() as int
    } else if q[i].0 == sid {
        i
    } else {
        find_sid(q, sid, i + 1)
    }
}

/// Whether `q` holds an entry for `sid`.
pub open spec fn has_sid<V>(q: Seq<(StreamId, V)>, sid: StreamId) -> bool {
    exists|i: int| 0 <= i < q.len() && (#[trigger] q[i]).0 == sid
}

/// Keys strictly increase: sorted, and each ID at most once.
pub open spec fn sorted_by_sid<V>(q: Seq<(StreamId, V)>) -> bool {
    forall|i: int, j: int| 0 <= i < j < q.len() ==> (#[trigger] q[i]).0.id < (#[trigger] q[j]).0.id
}

/// What inserting a fresh key at its sorted position does to the table.
proof fn lemma_sorted_insert<V>(
    old_q: Seq<(StreamId, V)>,
    new_q: Seq<(StreamId, V)>,
    i: int,
    sid: StreamId,
    v: V,
)
    requires
        0 <= i <= old_q.len(),
        new_q == old_q.insert(i, (sid, v)),
        sorted_by_sid(old_q),
        forall|j: int| 0 <= j < i ==> (#[trigger] old_q[j]).0.id < sid.id,
        forall|j: int| i <= j < old_q.len() ==> (#[trigger] old_q[j]).0.id > sid.id,
    ensures
        sorted_by_sid(new_q),
        new_q.len() == old_q.len() + 1,
        has_sid(new_q, sid),
        forall|s2: StreamId| #[trigger] has_sid(new_q, s2) <==> has_sid(old_q, s2) || s2 == sid,
        forall|k: int|
            0 <= k < new_q.len() && (#[trigger] new_q[k]).0 == sid ==> new_q[k].1 == v,
        forall|k: int|
            0 <= k < new_q.len() && (#[trigger] new_q[k]).0 != sid ==> exists|j: int|
                0 <= j < old_q.len() && old_q[j] == new_q[k],
{
    assert forall|k: int| 0 <= k < new_q.len() implies new_q[k] == (if k < i {
        old_q[k]
    } else if k == i {
        (sid, v)
    } else {
        old_q[k - 1]
    }) by {}
    assert(new_q[i].0 == sid);
    assert(has_sid(new_q, sid));
    assert forall|s2: StreamId| #[trigger] has_sid(new_q, s2) implies has_sid(old_q, s2) || s2
        == sid by {
        let k = choose|k: int| 0 <= k < new_q.len() && (#[trigger] new_q[k]).0 == s2;
        if k < i {
            assert(old_q[k].0 == s2);
        } else if k > i {
            assert(old_q[k - 1].0 == s2);
        }
    }
    assert forall|s2: StreamId| has_sid(old_q, s2) || s2 == sid implies #[trigger] has_sid(
        new_q,
        s2,
    ) by {
        if has_sid(old_q, s2) {
            let j = choose|j: int| 0 <= j < old_q.len() && (#[trigger] old_q[j]).0 == s2;
            if j < i {
                assert(new_q[j].0 == s2);
            } else {
                assert(new_q[j + 1].0 == s2);
            }
        } else {
            assert(new_q[i].0 == s2);
        }
    }
    assert forall|k: int|
        0 <= k < new_q.len() && (#[trigger] new_q[k]).0 != sid implies exists|j: int|
        0 <= j < old_q.len() && old_q[j] == new_q[k] by {
        if k < i {
            assert(old_q[k] == new_q[k]);
        } else {
            assert(old_q[k - 1] == new_q[k]);
        }
    }
}

/// What removing the entry at `i` does to the table.
proof fn lemma_sorted_remove<V>(old_q: Seq<(StreamId, V)>, new_q: Seq<(StreamId, V)>, i: int)
    requires
        0 <= i < old_q.len(),
        new_q == old_q.remove(i),
        sorted_by_sid(old_q),
    ensures
        sorted_by_sid(new_q),
        new_q.len() == old_q.len() - 1,
        forall|k: int|
            0 <= k < new_q.len() ==> #[trigger] new_q[k] == (if k < i {
                old_q[k]
            } else {
                old_q[k + 1]
            }),
        forall|s2: StreamId|
            #[trigger] has_sid(new_q, s2) <==> (has_sid(old_q, s2) && s2 != old_q[i].0),
{
    assert forall|k: int| 0 <= k < new_q.len() implies #[trigger] new_q[k] == (if k < i {
        old_q[k]
    } else {
        old_q[k + 1]
    }) by {}
    assert forall|s2: StreamId|
        #[trigger] has_sid(new_q, s2) implies (has_sid(old_q, s2) && s2 != old_q[i].0) by {
        let k = choose|k: int| 0 <= k < new_q.len() && (#[trigger] new_q[k]).0 == s2;
        if k < i {
            assert(old_q[k].0 == s2);
        } else {
            assert(old_q[k + 1].0 == s2);
        }
    }
    assert forall|s2: StreamId|
        has_sid(old_q, s2) && s2 != old_q[i].0 implies #[trigger] has_sid(new_q, s2) by {
        let j = choose|j: int| 0 <= j < old_q.len() && (#[trigger] old_q[j]).0 == s2;
        if j < i {
            assert(new_q[j].0 == s2);
        } else {
            assert(j > i);
            assert(new_q[j - 1].0 == s2);
        }
    }
}

/// All the send halves of a connection, with the scheduler's round-robin
/// cursor: the stream it last served and the tokens that stream still has.
pub struct RawOutput {
    pub outgoings: Vec<(StreamId, Outgoing)>,
    pub cur_sending_stream: Option<(StreamId, usize)>,
}

impl RawOutput {
    pub open spec fn wf(self) -> bool {
        &&& sorted_by_sid(self.outgoings@)
        &&& (forall|i: int|
            0 <= i < self.outgoings@.len() ==> (#[trigger] self.outgoings@[i]).1.wf() && self.outgoings@[i].0.wf())
        &&& (self.cur_sending_stream matches Some(c) ==> c.1 <= DEFAULT_TOKENS)
    }
}

/// A sorted table finds each of its own keys at its own position.
proof fn lemma_find_self<V>(q: Seq<(StreamId, V)>, i: int, k: int)
    requires
        sorted_by_sid(q),
        0 <= k <= i < q.len(),
    ensures
        find_at_or_after(q, q[i].0, k) == i,
    decreases i - k,
{
    if k < i {
        assert(q[k].0.id < q[i].0.id);
        lemma_find_self(q, i, k + 1);
    }
}

/// Law (round robin): once a stream has spent its tokens, the cursor moves
/// to the stream with the next higher ID, wrapping to the lowest, and the
/// arriving stream is granted a fresh quantum of [`DEFAULT_TOKENS`].
pub proof fn lemma_round_robin_successor(q: Seq<(StreamId, Outgoing)>, i: int)
    requires
        sorted_by_sid(q),
        0 <= i < q.len(),
    ensures
        spec_candidate(q, Some((q[i].0, 0usize))) == Some(
            (
                if i + 1 < q.len() {
                    i + 1
                } else {
                    0int
                },
                DEFAULT_TOKENS as int,
            ),
        ),
{
    lemma_find_self(q, i, 0);
}

/// Law (fairness, one visit): a stream holding at least a full quantum of
/// fresh data, with no retransmissions pending, and flow credit and packet
/// space beyond the quantum, emits exactly [`DEFAULT_TOKENS`] fresh bytes
/// when visited with a fresh quantum. Together with
/// [`lemma_round_robin_successor`], rounds under these hypotheses serve the
/// streams cyclically, one full quantum each; [`lemma_k_round_fairness`]
/// then bounds any two streams' totals.
pub proof fn lemma_full_quantum_visit(
    o: Result<SenderV, Error>,
    sid: StreamId,
    space: int,
    flow_limit: int,
)
    requires
        sid.wf(),
        o matches Ok(s) && (s is Ready || s is Sending),
        ({
            let b = sender_buf(o->Ok_0)->Some_0;
            &&& (forall|j: int| 0 <= j < b.flags.len() ==> !((#[trigger] b.flags[j]) is Lost))
            &&& b.data.len() - b.flags.len() >= DEFAULT_TOKENS
        }),
        flow_limit >= DEFAULT_TOKENS,
        space >= 17 + DEFAULT_TOKENS,
    ensures
        crate::sender::spec_try_read(o, sid, space, DEFAULT_TOKENS as int, flow_limit) matches
            Some(out) && out.1 == DEFAULT_TOKENS && out.2,
{
    let b = sender_buf(o->Ok_0)->Some_0;
    crate::sendbuf::lemma_no_lost(b.flags, 0);
}

/// How many of the first `k` cyclic rounds over `n` streams serve stream
/// `j`: the rounds `m < k` with `m % n == j`.
pub open spec fn served_count(k: int, n: int, j: int) -> int
    decreases k,
{
    if k <= 0 {
        0
    } else {
        served_count(k - 1, n, j) + (if (k - 1) % n == j {
            1int
        } else {
            0int
        })
    }
}

/// Cyclic service is even: after any number of rounds, no stream has been
/// served twice more than another.
pub proof fn lemma_served_count_even(k: int, n: int, j1: int, j2: int)
    requires
        0 <= k,
        0 <= j1 < n,
        0 <= j2 < n,
    ensures
        served_count(k, n, j1) - served_count(k, n, j2) <= 1,
        served_count(k, n, j2) - served_count(k, n, j1) <= 1,
    decreases k,
{
    lemma_served_count_form(k, n, j1);
    lemma_served_count_form(k, n, j2);
}

/// The closed form of [`served_count`]: full cycles, plus one for the
/// streams the partial cycle has already reached.
proof fn lemma_served_count_form(k: int, n: int, j: int)
    requires
        0 <= k,
        0 <= j < n,
    ensures
        served_count(k, n, j) == k / n + (if j < k % n {
            1int
        } else {
            0int
        }),
    decreases k,
{
    if k > 0 {
        lemma_served_count_form(k - 1, n, j);
        assert(k / n == (if k % n == 0 {
            (k - 1) / n + 1
        } else {
            (k - 1) / n
        }) && k % n == (if (k - 1) % n == n - 1 {
            0int
        } else {
            (k - 1) % n + 1
        }) && 0 <= k % n < n && 0 <= (k - 1) % n < n) by (nonlinear_arith)
            requires
                k > 0,
                n > 0,
        ;
    } else {
        assert(k / n == 0 && k % n == 0) by (nonlinear_arith)
            requires
                k == 0,
                n > 0,
        ;
    }
}

/// Law (fairness, K rounds): when each round emits one full quantum to the
/// cyclically next stream — which [`lemma_full_quantum_visit`] and
/// [`lemma_round_robin_successor`] establish for streams that keep at least
/// a quantum of fresh data under ample flow and space — the totals of any
/// two of the `n` streams differ by at most [`DEFAULT_TOKENS`] after any
/// number of rounds.
pub proof fn lemma_k_round_fairness(k: int, n: int, j1: int, j2: int)
    requires
        0 <= k,
        0 <= j1 < n,
        0 <= j2 < n,
    ensures
        DEFAULT_TOKENS * served_count(k, n, j1) - DEFAULT_TOKENS * served_count(k, n, j2)
            <= DEFAULT_TOKENS,
        DEFAULT_TOKENS * served_count(k, n, j2) - DEFAULT_TOKENS * served_count(k, n, j1)
            <= DEFAULT_TOKENS,
{
    lemma_served_count_even(k, n, j1, j2);
    let c1 = served_count(k, n, j1);
    let c2 = served_count(k, n, j2);
    assert(DEFAULT_TOKENS * c1 - DEFAULT_TOKENS * c2 <= DEFAULT_TOKENS && DEFAULT_TOKENS * c2
        - DEFAULT_TOKENS * c1 <= DEFAULT_TOKENS) by (nonlinear_arith)
        requires
            c1 - c2 <= 1,
            c2 - c1 <= 1,
    ;
}

/// Law (token bucket): every scheduler visit serves a stream under a budget
/// of at most [`DEFAULT_TOKENS`] — the fresh quantum on arrival, or what is
/// left of it while the cursor stays.
pub proof fn lemma_visit_token_bound(q: Seq<(StreamId, Outgoing)>, cur: Option<(StreamId, usize)>)
    requires
        cur matches Some(c) ==> c.1 <= DEFAULT_TOKENS,
    ensures
        spec_candidate(q, cur) matches Some(c2) ==> c2.1 <= DEFAULT_TOKENS,
{
}

/// Law (token bucket): the data an emission carries never exceeds the
/// tokens granted for the visit, so a stream yields the cursor after at
/// most [`DEFAULT_TOKENS`] bytes per visit.
pub proof fn lemma_emission_within_tokens(
    o: Result<SenderV, Error>,
    sid: StreamId,
    space: int,
    tokens: int,
    flow_limit: int,
)
    requires
        tokens >= 0,
    ensures
        crate::sender::spec_try_read(o, sid, space, tokens, flow_limit) matches Some(out) ==> 0
            <= out.1 <= tokens,
{
}

/// The send table behind the connection mutex: healthy, or the connection
/// error that replaced it.
pub struct ArcOutput {
    pub inner: Result<RawOutput, Error>,
}

/// All the receive halves of a connection.
pub struct RawInput {
    pub incomings: Vec<(StreamId, Incoming)>,
}

impl RawInput {
    pub open spec fn wf(self) -> bool {
        &&& sorted_by_sid(self.incomings@)
        &&& (forall|i: int|
            0 <= i < self.incomings@.len() ==> (#[trigger] self.incomings@[i]).1.wf() && self.incomings@[i].0.wf())
    }
}

/// The receive table behind the connection mutex.
pub struct ArcInput {
    pub inner: Result<RawInput, Error>,
}

/// The streams the peer opened that the application has not accepted yet,
/// oldest first.
pub struct RawListener {
    pub bi: Vec<StreamId>,
    pub uni: Vec<StreamId>,
}

/// The accept queues behind the connection mutex.
pub struct ArcListener {
    pub inner: Result<RawListener, Error>,
}

impl ArcOutput {
    pub open spec fn wf(self) -> bool {
        self.inner matches Ok(o) ==> o.wf()
    }

    pub fn new() -> (r: ArcOutput)
        ensures
            r.wf(),
            r.inner matches Ok(o) && o.outgoings@.len() == 0 && o.cur_sending_stream is None,
    {
        ArcOutput { inner: Ok(RawOutput { outgoings: Vec::new(), cur_sending_stream: None }) }
    }

    /// Adds the send half of a freshly opened stream. The new ID must be
    /// one the table has never held (IDs only ever grow within a quadrant).
    pub fn insert(&mut self, sid: StreamId, outgoing: Outgoing)
        requires
            old(self).wf(),
            sid.wf(),
            outgoing.wf(),
            old(self).inner matches Ok(o) ==> forall|i: int|
                0 <= i < o.outgoings@.len() ==> (#[trigger] o.outgoings@[i]).0.id != sid.id,
        ensures
            final(self).wf(),
            match old(self).inner {
                Ok(o) => {
                    &&& final(self).inner matches Ok(o2)
                    &&& o2.outgoings@.len() == o.outgoings@.len() + 1
                    &&& has_sid(o2.outgoings@, sid)
                    &&& (forall|s2: StreamId|
                        #[trigger] has_sid(o2.outgoings@, s2) <==> has_sid(o.outgoings@, s2) || s2
                            == sid)
                    &&& (forall|i: int|
                        0 <= i < o2.outgoings@.len() && (#[trigger] o2.outgoings@[i]).0 == sid
                            ==> o2.outgoings@[i].1 == outgoing)
                    &&& (forall|i: int|
                        0 <= i < o2.outgoings@.len() && (#[trigger] o2.outgoings@[i]).0 != sid
                            ==> exists|j: int|
                            0 <= j < o.outgoings@.len() && o.outgoings@[j] == o2.outgoings@[i])
                    &&& o2.cur_sending_stream == o.cur_sending_stream
                },
                Err(_) => final(self).inner == old(self).inner,
            },
    {
        match &mut self.inner {
            Ok(o) => {
                let mut i: usize = 0;
                let n = o.outgoings.len();
                while i < n && o.outgoings[i].0.id < sid.id
                    invariant
                        i <= n,
                        n == o.outgoings@.len(),
                        forall|j: int| 0 <= j < i ==> (#[trigger] o.outgoings@[j]).0.id < sid.id,
                        *o == old(self).inner->Ok_0,
                    decreases n - i,
                {
                    i = i + 1;
                }
                let ghost old_q = o.outgoings@;
                o.outgoings.insert(i, (sid, outgoing));
                proof {
                    lemma_sorted_insert(old_q, o.outgoings@, i as int, sid, outgoing);
                }
            },
            Err(_) => {},
        }
    }

    /// Tears every send half down with the connection error, then replaces
    /// the table with it.
    pub fn on_conn_error(&mut self, err: &Error)
        requires
            old(self).wf(),
        ensures
            final(self).wf(),
            old(self).inner is Ok ==> final(self).inner == Err::<RawOutput, Error>(*err),
            old(self).inner is Err ==> final(self).inner == old(self).inner,
    {
        match &mut self.inner {
            Ok(o) => {
                let n = o.outgoings.len();
                let mut i: usize = 0;
                while i < n
                    invariant
                        i <= n,
                        n == o.outgoings@.len(),
                        forall|j: int|
                            0 <= j < o.outgoings@.len() ==> (#[trigger] o.outgoings@[j]).1.wf()
                                && o.outgoings@[j].0.wf(),
                        sorted_by_sid(o.outgoings@),
                        forall|j: int|
                            0 <= j < o.outgoings@.len() ==> (#[trigger] o.outgoings@[j]).0 == old(
                                self,
                            ).inner->Ok_0.outgoings@[j].0,
                    decreases n - i,
                {
                    let og: &mut Outgoing = &mut o.outgoings[i].1;
                    og.on_conn_error(err);
                    i = i + 1;
                }
            },
            Err(_) => {
                return ;
            },
        }
        self.inner = Err(Error::new(err.kind, err.frame_type, err.reason));
    }
}

impl ArcInput {
    pub open spec fn wf(self) -> bool {
        self.inner matches Ok(o) ==> o.wf()
    }

    pub fn new() -> (r: ArcInput)
        ensures
            r.wf(),
            r.inner matches Ok(o) && o.incomings@.len() == 0,
    {
        ArcInput { inner: Ok(RawInput { incomings: Vec::new() }) }
    }

    /// Adds the receive half of a freshly opened stream.
    pub fn insert(&mut self, sid: StreamId, incoming: Incoming)
        requires
            old(self).wf(),
            sid.wf(),
            incoming.wf(),
            old(self).inner matches Ok(o) ==> forall|i: int|
                0 <= i < o.incomings@.len() ==> (#[trigger] o.incomings@[i]).0.id != sid.id,
        ensures
            final(self).wf(),
            match old(self).inner {
                Ok(o) => {
                    &&& final(self).inner matches Ok(o2)
                    &&& o2.incomings@.len() == o.incomings@.len() + 1
                    &&& has_sid(o2.incomings@, sid)
                    &&& (forall|s2: StreamId|
                        #[trigger] has_sid(o2.incomings@, s2) <==> has_sid(o.incomings@, s2) || s2
                            == sid)
                    &&& (forall|i: int|
                        0 <= i < o2.incomings@.len() && (#[trigger] o2.incomings@[i]).0 == sid
                            ==> o2.incomings@[i].1 == incoming)
                    &&& (forall|i: int|
                        0 <= i < o2.incomings@.len() && (#[trigger] o2.incomings@[i]).0 != sid
                            ==> exists|j: int|
                            0 <= j < o.incomings@.len() && o.incomings@[j] == o2.incomings@[i])
                },
                Err(_) => final(self).inner == old(self).inner,
            },
    {
        match &mut self.inner {
            Ok(o) => {
                let mut i: usize = 0;
                let n = o.incomings.len();
                while i < n && o.incomings[i].0.id < sid.id
                    invariant
                        i <= n,
                        n == o.incomings@.len(),
                        forall|j: int| 0 <= j < i ==> (#[trigger] o.incomings@[j]).0.id < sid.id,
                        *o == old(self).inner->Ok_0,
                    decreases n - i,
                {
                    i = i + 1;
                }
                let ghost old_q = o.incomings@;
                o.incomings.insert(i, (sid, incoming));
                proof {
                    lemma_sorted_insert(old_q, o.incomings@, i as int, sid, incoming);
                }
            },
            Err(_) => {},
        }
    }

    /// Tears every receive half down with the connection error, then
    /// replaces the table with it.
    pub fn on_conn_error(&mut self, err: &Error)
        requires
            old(self).wf(),
        ensures
            final(self).wf(),
            old(self).inner is Ok ==> final(self).inner == Err::<RawInput, Error>(*err),
            old(self).inner is Err ==> final(self).inner == old(self).inner,
    {
        match &mut self.inner {
            Ok(o) => {
                let n = o.incomings.len();
                let mut i: usize = 0;
                while i < n
                    invariant
                        i <= n,
                        n == o.incomings@.len(),
                        forall|j: int|
                            0 <= j < o.incomings@.len() ==> (#[trigger] o.incomings@[j]).1.wf()
                                && o.incomings@[j].0.wf(),
                        sorted_by_sid(o.incomings@),
                        forall|j: int|
                            0 <= j < o.incomings@.len() ==> (#[trigger] o.incomings@[j]).0 == old(
                                self,
                            ).inner->Ok_0.incomings@[j].0,
                    decreases n - i,
                {
                    let inc: &mut Incoming = &mut o.incomings[i].1;
                    inc.on_conn_error(err);
                    i = i + 1;
                }
            },
            Err(_) => {
                return ;
            },
        }
        self.inner = Err(Error::new(err.kind, err.frame_type, err.reason));
    }
}

impl ArcListener {
    pub fn new() -> (r: ArcListener)
        ensures
            r.inner matches Ok(l) && l.bi@.len() == 0 && l.uni@.len() == 0,
    {
        ArcListener { inner: Ok(RawListener { bi: Vec::new(), uni: Vec::new() }) }
    }

    /// Queues a peer-opened bidirectional stream for `accept_bi`.
    pub fn push_bi_stream(&mut self, sid: StreamId)
        ensures
            match old(self).inner {
                Ok(l) => final(self).inner matches Ok(l2) && l2.bi@ == l.bi@.push(sid) && l2.uni@
                    == l.uni@,
                Err(_) => final(self).inner == old(self).inner,
            },
    {
        if let Ok(l) = &mut self.inner {
            l.bi.push(sid);
        }
    }

    /// Queues a peer-opened unidirectional stream for `accept_uni`.
    pub fn push_uni_stream(&mut self, sid: StreamId)
        ensures
            match old(self).inner {
                Ok(l) => final(self).inner matches Ok(l2) && l2.uni@ == l.uni@.push(sid) && l2.bi@
                    == l.bi@,
                Err(_) => final(self).inner == old(self).inner,
            },
    {
        if let Ok(l) = &mut self.inner {
            l.uni.push(sid);
        }
    }

    /// Hands out the oldest pending bidirectional stream, `None` while the
    /// peer has opened nothing new.
    pub fn accept_bi_stream(&mut self) -> (r: Result<Option<StreamId>, Error>)
        ensures
            match old(self).inner {
                Ok(l) => if l.bi@.len() > 0 {
                    r == Ok::<Option<StreamId>, Error>(Some(l.bi@[0])) && (final(self).inner
                        matches Ok(l2) && l2.bi@ == l.bi@.drop_first() && l2.uni@ == l.uni@)
                } else {
                    r == Ok::<Option<StreamId>, Error>(None) && final(self).inner == old(
                        self,
                    ).inner
                },
                Err(e) => r == Err::<Option<StreamId>, Error>(e) && final(self).inner == old(
                    self,
                ).inner,
            },
    {
        match &mut self.inner {
            Ok(l) => {
                if l.bi.len() > 0 {
                    let sid = l.bi.remove(0);
                    proof {
                        assert(l.bi@ =~= old(self).inner->Ok_0.bi@.drop_first());
                    }
                    Ok(Some(sid))
                } else {
                    Ok(None)
                }
            },
            Err(e) => Err(*e),
        }
    }

    /// Hands out the oldest pending unidirectional stream.
    pub fn accept_uni_stream(&mut self) -> (r: Result<Option<StreamId>, Error>)
        ensures
            match old(self).inner {
                Ok(l) => if l.uni@.len() > 0 {
                    r == Ok::<Option<StreamId>, Error>(Some(l.uni@[0])) && (final(self).inner
                        matches Ok(l2) && l2.uni@ == l.uni@.drop_first() && l2.bi@ == l.bi@)
                } else {
                    r == Ok::<Option<StreamId>, Error>(None) && final(self).inner == old(
                        self,
                    ).inner
                },
                Err(e) => r == Err::<Option<StreamId>, Error>(e) && final(self).inner == old(
                    self,
                ).inner,
            },
    {
        match &mut self.inner {
            Ok(l) => {
                if l.uni.len() > 0 {
                    let sid = l.uni.remove(0);
                    proof {
                        assert(l.uni@ =~= old(self).inner->Ok_0.uni@.drop_first());
                    }
                    Ok(Some(sid))
                } else {
                    Ok(None)
                }
            },
            Err(e) => Err(*e),
        }
    }

    /// Replaces the accept queues with the connection error.
    pub fn on_conn_error(&mut self, err: &Error)
        ensures
            old(self).inner is Ok ==> final(self).inner == Err::<RawListener, Error>(*err),
            old(self).inner is Err ==> final(self).inner == old(self).inner,
    {
        if self.inner.is_ok() {
            self.inner = Err(Error::new(err.kind, err.frame_type, err.reason));
        }
    }
}

/// Which stream the round-robin cursor serves next, and with how many
/// tokens: a stream with tokens left keeps the cursor; an exhausted (or
/// emptied) stream passes it to the stream with the next higher ID,
/// wrapping to the first, each fresh visit granting [`DEFAULT_TOKENS`];
/// with no cursor, or when the cursor's stream is gone, the first stream
/// at or after it is served.
pub open spec fn spec_candidate(
    q: Seq<(StreamId, Outgoing)>,
    cur: Option<(StreamId, usize)>,
) -> Option<(int, int)> {
    if q.len() == 0 {
        None
    } else {
        match cur {
            Option::None => Some((0int, DEFAULT_TOKENS as int)),
            Option::Some((sid, tk)) => {
                if tk == 0 {
                    let i = find_at_or_after(q, sid, 0);
                    if i < q.len() && q[i].0 == sid {
                        // the exhausted stream is still here: its successor
                        if i + 1 < q.len() {
                            Some((i + 1, DEFAULT_TOKENS as int))
                        } else {
                            Some((0int, DEFAULT_TOKENS as int))
                        }
                    } else if i < q.len() {
                        // the exhausted stream is gone: whoever follows it
                        Some((i, DEFAULT_TOKENS as int))
                    } else {
                        Some((0int, DEFAULT_TOKENS as int))
                    }
                } else {
                    let i = find_sid(q, sid, 0);
                    if i < q.len() {
                        Some((i, tk as int))
                    } else {
                        Some((0int, DEFAULT_TOKENS as int))
                    }
                }
            },
        }
    }
}

/// Locates the first entry with ID at least `sid`, by linear scan.
fn find_at_or_after_index<V>(q: &Vec<(StreamId, V)>, sid: StreamId) -> (r: usize)
    ensures
        r == find_at_or_after(q@, sid, 0),
        r <= q@.len(),
{
    let n = q.len();
    let mut i: usize = 0;
    while i < n && q[i].0.id < sid.id
        invariant
            i <= n,
            n == q@.len(),
            find_at_or_after(q@, sid, 0) == find_at_or_after(q@, sid, i as int),
        decreases n - i,
    {
        assert(find_at_or_after(q@, sid, i as int) == find_at_or_after(q@, sid, i as int + 1));
        i = i + 1;
    }
    i
}

/// The error surfaced when a peer names a stream beyond the advertised
/// limit while handling a frame of kind `fty`.
pub fn wrapper_error(fty: FrameType, e: ExceedLimitError) -> (r: Error)
    ensures
        r.kind == ErrorKind::StreamLimit,
        r.frame_type == fty,
{
    let _ = e;
    Error::new(ErrorKind::StreamLimit, fty, "peer named a stream beyond the advertised limit")
}

/// Locates `sid` in the table by linear scan.
fn find_sid_index<V>(q: &Vec<(StreamId, V)>, sid: StreamId) -> (r: usize)
    ensures
        r == find_sid(q@, sid, 0),
        r <= q@.len(),
        r < q@.len() ==> q@[r as int].0 == sid,
        r == q@.len() ==> !has_sid(q@, sid),
{
    let n = q.len();
    let mut i: usize = 0;
    while i < n && !(q[i].0.id == sid.id)
        invariant
            i <= n,
            n == q@.len(),
            forall|j: int| 0 <= j < i ==> (#[trigger] q@[j]).0 != sid,
            find_sid(q@, sid, 0) == find_sid(q@, sid, i as int),
        decreases n - i,
    {
        assert(q@[i as int].0.id != sid.id);
        assert(q@[i as int].0 != sid);
        assert(find_sid(q@, sid, i as int) == find_sid(q@, sid, i as int + 1));
        i = i + 1;
    }
    if i < n {
        assert(q@[i as int].0.id == sid.id);
        assert(q@[i as int].0 == sid);
    }
    i
}

/// A receive half exactly as `try_accept_sid` creates it: nothing received,
/// nothing consumed, the configured buffer as its window.
pub open spec fn fresh_incoming(inc: Incoming, bufsz: u64) -> bool {
    &&& inc.err is None
    &&& !inc.reset
    &&& !inc.stopped
    &&& inc.final_size is None
    &&& inc.consumed == 0
    &&& inc.data@.len() == 0
    &&& inc.rcvd@.len() == 0
    &&& inc.window == bufsz
    &&& inc.buf_size == bufsz
}

/// The IDs that accepting `sid` opens, in increasing order: the quadrant's
/// indexes from `u` (the first unopened one) up to and including `sid`'s;
/// empty when `sid` was already open.
pub open spec fn accept_news(role: Role, dir: Dir, u: u64, sid: StreamId) -> Seq<StreamId> {
    if sid.spec_index() < u {
        Seq::empty()
    } else {
        Seq::new(
            (sid.spec_index() + 1 - u) as nat,
            |k: int| StreamId::spec_new(role, dir, (u + k) as u64),
        )
    }
}

/// Whether `s2` is one of the IDs that accepting `sid` opens: same
/// quadrant, index from `lo` (the first unopened index) up to `sid`'s.
pub open spec fn in_accept_range(role: Role, dir: Dir, lo: u64, sid: StreamId, s2: StreamId) -> bool {
    s2.spec_role() == role && s2.spec_dir() == dir && lo <= s2.spec_index() <= sid.spec_index()
}

/// The IDs `try_accept_sid` returns are exactly the quadrant range from the
/// first unopened index up to the named ID.
proof fn lemma_news_range(news: Seq<StreamId>, role: Role, dir: Dir, u: u64, sid: StreamId)
    requires
        sid.wf(),
        sid.spec_role() == role,
        sid.spec_dir() == dir,
        sid.spec_index() < crate::sid::MAX_STREAMS_LIMIT,
        u + news.len() == sid.spec_index() + 1,
        forall|m: int|
            0 <= m < news.len() ==> news[m] == StreamId::spec_new(role, dir, (u + m) as u64),
    ensures
        forall|s2: StreamId|
            s2.wf() ==> ((exists|m: int| 0 <= m < news.len() && news[m] == s2) <==> #[trigger]
            in_accept_range(role, dir, u, sid, s2)),
{
    let idx = sid.spec_index();
    assert forall|s2: StreamId|
        s2.wf() && (exists|m: int| 0 <= m < news.len() && news[m] == s2) implies in_accept_range(
        role,
        dir,
        u,
        sid,
        s2,
    ) by {
        let m = choose|m: int| 0 <= m < news.len() && news[m] == s2;
        crate::sid::lemma_spec_new_fields(role, dir, (u + m) as u64);
    }
    assert forall|s2: StreamId|
        s2.wf() && #[trigger] in_accept_range(role, dir, u, sid, s2) implies (exists|m: int|
        0 <= m < news.len() && news[m] == s2) by {
        crate::sid::lemma_sid_decompose(s2);
        let m = s2.spec_index() - u;
        assert(news[m] == StreamId::spec_new(role, dir, (u + m) as u64));
        assert((u + m) as u64 == s2.spec_index());
    }
}

/// The connection's whole stream subsystem: registry, tables, accept
/// queues, and the sink for outbound control frames.
pub struct RawDataStreams<T: SendFrame<StreamCtlFrame>> {
    /// Where control frames this subsystem produces are queued for the
    /// packetizer.
    pub ctrl_frames: T,
    /// This endpoint's role.
    pub role: Role,
    /// The stream-ID registry, both quadpairs.
    pub stream_ids: StreamIds,
    /// The receive buffer granted to a peer-opened unidirectional stream.
    pub uni_stream_rcvbuf_size: u64,
    /// The receive buffer of a locally opened bidirectional stream.
    pub local_bi_stream_rcvbuf_size: u64,
    /// The receive buffer granted to a peer-opened bidirectional stream.
    pub remote_bi_stream_rcvbuf_size: u64,
    /// The send halves, with the scheduler cursor.
    pub output: ArcOutput,
    /// The receive halves.
    pub input: ArcInput,
    /// Peer-opened streams awaiting the application.
    pub listener: ArcListener,
}

impl<T: SendFrame<StreamCtlFrame>> RawDataStreams<T> {
    /// Whether `sid` has been opened: local IDs below the allocation
    /// counter, peer IDs below the acceptance counter of their quadrant.
    pub open spec fn sid_opened(self, sid: StreamId) -> bool {
        if sid.spec_role() == self.role {
            sid.spec_index() < self.stream_ids.local.allocated(sid.spec_dir())
        } else {
            sid.spec_index() < self.stream_ids.remote.unallocated(sid.spec_dir())
        }
    }

    pub open spec fn wf(self) -> bool {
        &&& self.output.wf()
        &&& self.input.wf()
        &&& self.stream_ids.wf()
        &&& self.stream_ids.local.role == self.role
        &&& self.uni_stream_rcvbuf_size <= VARINT_MAX
        &&& self.local_bi_stream_rcvbuf_size <= VARINT_MAX
        &&& self.remote_bi_stream_rcvbuf_size <= VARINT_MAX
        &&& (self.output.inner matches Ok(o) ==> forall|i: int|
            0 <= i < o.outgoings@.len() ==> self.sid_opened((#[trigger] o.outgoings@[i]).0))
        &&& (self.input.inner matches Ok(o) ==> forall|i: int|
            0 <= i < o.incomings@.len() ==> self.sid_opened((#[trigger] o.incomings@[i]).0))
    }

    /// A fresh subsystem for one connection: the local configuration
    /// decides what the peer may open and how much each inbound stream may
    /// buffer.
    pub fn new(role: Role, local_params: &TransportParameters, ctrl_frames: T) -> (r:
        RawDataStreams<T>)
        requires
            local_params.wf(),
        ensures
            r.wf(),
            r.role == role,
            r.ctrl_frames == ctrl_frames,
            r.stream_ids.local.bi_allocated == 0 && r.stream_ids.local.uni_allocated == 0,
            r.stream_ids.local.bi_max == 0 && r.stream_ids.local.uni_max == 0,
            r.stream_ids.remote.bi_unallocated == 0 && r.stream_ids.remote.uni_unallocated == 0,
            r.stream_ids.remote.bi_max == local_params.initial_max_streams_bidi,
            r.stream_ids.remote.uni_max == local_params.initial_max_streams_uni,
            r.uni_stream_rcvbuf_size == local_params.initial_max_stream_data_uni,
            r.local_bi_stream_rcvbuf_size == local_params.initial_max_stream_data_bidi_local,
            r.remote_bi_stream_rcvbuf_size == local_params.initial_max_stream_data_bidi_remote,
            (r.output.inner matches Ok(o) && o.outgoings@.len() == 0 && o.cur_sending_stream
                is None),
            (r.input.inner matches Ok(o) && o.incomings@.len() == 0),
            (r.listener.inner matches Ok(l) && l.bi@.len() == 0 && l.uni@.len() == 0),
    {
        RawDataStreams {
            ctrl_frames,
            role,
            stream_ids: StreamIds::new(
                role,
                local_params.initial_max_streams_bidi(),
                local_params.initial_max_streams_uni(),
            ),
            uni_stream_rcvbuf_size: local_params.initial_max_stream_data_uni(),
            local_bi_stream_rcvbuf_size: local_params.initial_max_stream_data_bidi_local(),
            remote_bi_stream_rcvbuf_size: local_params.initial_max_stream_data_bidi_remote(),
            output: ArcOutput::new(),
            input: ArcInput::new(),
            listener: ArcListener::new(),
        }
    }

    /// The send half of a freshly opened stream.
    fn create_sender(&self, wnd_size: u64) -> (r: Outgoing)
        requires
            wnd_size <= VARINT_MAX,
        ensures
            r.wf(),
            r@ == Ok::<SenderV, Error>(
                SenderV::Ready(crate::sendbuf::empty_sendbuf(wnd_size)),
            ),
    {
        Outgoing::new(wnd_size)
    }

    /// The receive half of a freshly opened stream.
    fn create_recver(&self, buf_size: u64) -> (r: Incoming)
        requires
            buf_size <= VARINT_MAX,
        ensures
            r.wf(),
            r.err is None,
            r.data@.len() == 0 && r.consumed == 0 && r.final_size is None && !r.reset
                && !r.stopped,
            r.window == buf_size && r.buf_size == buf_size,
    {
        Incoming::new(buf_size)
    }

    /// Processes a peer MAX_STREAMS advertisement; decreases are ignored.
    pub fn premit_max_sid(&mut self, dir: Dir, val: u64)
        requires
            old(self).wf(),
        ensures
            final(self).wf(),
            final(self).stream_ids.local.max(dir) == if val > old(self).stream_ids.local.max(
                dir,
            ) {
                if val < crate::sid::MAX_STREAMS_LIMIT {
                    val
                } else {
                    crate::sid::MAX_STREAMS_LIMIT
                }
            } else {
                old(self).stream_ids.local.max(dir)
            },
            final(self).stream_ids.local.allocated(Dir::Bi) == old(
                self,
            ).stream_ids.local.allocated(Dir::Bi),
            final(self).stream_ids.local.allocated(Dir::Uni) == old(
                self,
            ).stream_ids.local.allocated(Dir::Uni),
            final(self).stream_ids.remote == old(self).stream_ids.remote,
            final(self).output == old(self).output,
            final(self).input == old(self).input,
            final(self).listener == old(self).listener,
            final(self).ctrl_frames == old(self).ctrl_frames,
            final(self).role == old(self).role,
    {
        self.stream_ids.local.permit_max_sid(dir, val);
    }

    /// A connection error: every stream half is torn down and all three
    /// tables are replaced by the error. Nothing happens if any table
    /// already holds one.
    pub fn on_conn_error(&mut self, err: &Error)
        requires
            old(self).wf(),
        ensures
            final(self).wf(),
            final(self).stream_ids == old(self).stream_ids,
            final(self).ctrl_frames == old(self).ctrl_frames,
            (old(self).output.inner is Ok && old(self).input.inner is Ok && old(
                self,
            ).listener.inner is Ok) ==> {
                &&& final(self).output.inner == Err::<RawOutput, Error>(*err)
                &&& final(self).input.inner == Err::<RawInput, Error>(*err)
                &&& final(self).listener.inner == Err::<RawListener, Error>(*err)
            },
            (old(self).output.inner is Err || old(self).input.inner is Err || old(
                self,
            ).listener.inner is Err) ==> *final(self) == *old(self),
    {
        if self.output.inner.is_err() {
            return ;
        }
        if self.input.inner.is_err() {
            return ;
        }
        if self.listener.inner.is_err() {
            return ;
        }
        self.output.on_conn_error(err);
        self.input.on_conn_error(err);
        self.listener.on_conn_error(err);
    }

    /// The accept queues, for the connection to watch.
    pub fn listener(&self) -> (r: &ArcListener)
        ensures
            r == &self.listener,
    {
        &self.listener
    }

    /// Opens the next locally initiated bidirectional stream, with
    /// `snd_wnd_size` as the peer-granted send window. `None` means the
    /// peer's MAX_STREAMS ceiling is reached and the caller must wait.
    pub fn poll_open_bi_stream(&mut self, snd_wnd_size: u64) -> (r: Result<
        Option<StreamId>,
        Error,
    >)
        requires
            old(self).wf(),
            snd_wnd_size <= VARINT_MAX,
        ensures
            final(self).wf(),
            match old(self).output.inner {
                Err(e) => r == Err::<Option<StreamId>, Error>(e) && *final(self) == *old(self),
                Ok(out0) => match old(self).input.inner {
                    Err(e) => r == Err::<Option<StreamId>, Error>(e) && *final(self) == *old(
                        self,
                    ),
                    Ok(in0) => {
                        let ids = old(self).stream_ids.local;
                        if ids.allocated(Dir::Bi) < ids.max(Dir::Bi) {
                            let sid = StreamId::spec_new(
                                old(self).role,
                                Dir::Bi,
                                ids.allocated(Dir::Bi),
                            );
                            &&& r == Ok::<Option<StreamId>, Error>(Some(sid))
                            &&& final(self).stream_ids.local.allocated(Dir::Bi) == ids.allocated(
                                Dir::Bi,
                            ) + 1
                            &&& (final(self).output.inner matches Ok(out2) && {
                                &&& (forall|s2: StreamId|
                                    #[trigger] has_sid(out2.outgoings@, s2) <==> has_sid(
                                        out0.outgoings@,
                                        s2,
                                    ) || s2 == sid)
                                &&& (forall|i: int|
                                    0 <= i < out2.outgoings@.len() && (#[trigger] out2.outgoings@[i]).0
                                        == sid ==> out2.outgoings@[i].1@ == Ok::<SenderV, Error>(
                                        SenderV::Ready(crate::sendbuf::empty_sendbuf(snd_wnd_size)),
                                    ))
                                &&& out2.cur_sending_stream == out0.cur_sending_stream
                            })
                            &&& (final(self).input.inner matches Ok(in2) && (forall|s2: StreamId|
                                #[trigger] has_sid(in2.incomings@, s2) <==> has_sid(
                                    in0.incomings@,
                                    s2,
                                ) || s2 == sid))
                            &&& final(self).listener == old(self).listener
                            &&& final(self).ctrl_frames == old(self).ctrl_frames
                        } else {
                            r == Ok::<Option<StreamId>, Error>(None) && *final(self) == *old(self)
                        }
                    },
                },
            },
    {
        if let Err(e) = &self.output.inner {
            return Err(*e);
        }
        if let Err(e) = &self.input.inner {
            return Err(*e);
        }
        match self.stream_ids.local.alloc_sid(Dir::Bi) {
            Some(sid) => {
                let sender = self.create_sender(snd_wnd_size);
                let recver = self.create_recver(self.local_bi_stream_rcvbuf_size);
                proof {
                    assert forall|i: int|
                        0 <= i < self.output.inner->Ok_0.outgoings@.len() implies (
                    #[trigger] self.output.inner->Ok_0.outgoings@[i]).0.id != sid.id by {
                        let k = self.output.inner->Ok_0.outgoings@[i].0;
                        if k.id == sid.id {
                            assert(k == sid);
                            assert(old(self).sid_opened(sid));
                        }
                    }
                    assert forall|i: int|
                        0 <= i < self.input.inner->Ok_0.incomings@.len() implies (
                    #[trigger] self.input.inner->Ok_0.incomings@[i]).0.id != sid.id by {
                        let k = self.input.inner->Ok_0.incomings@[i].0;
                        if k.id == sid.id {
                            assert(k == sid);
                            assert(old(self).sid_opened(sid));
                        }
                    }
                }
                self.output.insert(sid, sender);
                self.input.insert(sid, recver);
                proof {
                    assert forall|i: int|
                        0 <= i < self.output.inner->Ok_0.outgoings@.len() implies self.sid_opened(
                        (#[trigger] self.output.inner->Ok_0.outgoings@[i]).0,
                    ) by {
                        let k = self.output.inner->Ok_0.outgoings@[i].0;
                        if k != sid {
                            assert(old(self).sid_opened(k));
                        }
                    }
                    assert forall|i: int|
                        0 <= i < self.input.inner->Ok_0.incomings@.len() implies self.sid_opened(
                        (#[trigger] self.input.inner->Ok_0.incomings@[i]).0,
                    ) by {
                        let k = self.input.inner->Ok_0.incomings@[i].0;
                        if k != sid {
                            assert(has_sid(self.input.inner->Ok_0.incomings@, k));
                            assert(has_sid(old(self).input.inner->Ok_0.incomings@, k));
                            let j = choose|j: int|
                                0 <= j < old(self).input.inner->Ok_0.incomings@.len() && (
                                #[trigger] old(self).input.inner->Ok_0.incomings@[j]).0 == k;
                            assert(old(self).sid_opened(k));
                        }
                    }
                }
                Ok(Some(sid))
            },
            None => Ok(None),
        }
    }

    /// Opens the next locally initiated unidirectional stream. `None` means
    /// the peer's MAX_STREAMS ceiling is reached.
    pub fn poll_open_uni_stream(&mut self, snd_wnd_size: u64) -> (r: Result<
        Option<StreamId>,
        Error,
    >)
        requires
            old(self).wf(),
            snd_wnd_size <= VARINT_MAX,
        ensures
            final(self).wf(),
            match old(self).output.inner {
                Err(e) => r == Err::<Option<StreamId>, Error>(e) && *final(self) == *old(self),
                Ok(out0) => {
                    let ids = old(self).stream_ids.local;
                    if ids.allocated(Dir::Uni) < ids.max(Dir::Uni) {
                        let sid = StreamId::spec_new(
                            old(self).role,
                            Dir::Uni,
                            ids.allocated(Dir::Uni),
                        );
                        &&& r == Ok::<Option<StreamId>, Error>(Some(sid))
                        &&& final(self).stream_ids.local.allocated(Dir::Uni) == ids.allocated(
                            Dir::Uni,
                        ) + 1
                        &&& (final(self).output.inner matches Ok(out2) && {
                            &&& (forall|s2: StreamId|
                                #[trigger] has_sid(out2.outgoings@, s2) <==> has_sid(
                                    out0.outgoings@,
                                    s2,
                                ) || s2 == sid)
                            &&& (forall|i: int|
                                0 <= i < out2.outgoings@.len() && (#[trigger] out2.outgoings@[i]).0
                                    == sid ==> out2.outgoings@[i].1@ == Ok::<SenderV, Error>(
                                    SenderV::Ready(crate::sendbuf::empty_sendbuf(snd_wnd_size)),
                                ))
                            &&& out2.cur_sending_stream == out0.cur_sending_stream
                        })
                        &&& final(self).input == old(self).input
                        &&& final(self).listener == old(self).listener
                        &&& final(self).ctrl_frames == old(self).ctrl_frames
                    } else {
                        r == Ok::<Option<StreamId>, Error>(None) && *final(self) == *old(self)
                    }
                },
            },
    {
        if let Err(e) = &self.output.inner {
            return Err(*e);
        }
        match self.stream_ids.local.alloc_sid(Dir::Uni) {
            Some(sid) => {
                let sender = self.create_sender(snd_wnd_size);
                proof {
                    assert forall|i: int|
                        0 <= i < self.output.inner->Ok_0.outgoings@.len() implies (
                    #[trigger] self.output.inner->Ok_0.outgoings@[i]).0.id != sid.id by {
                        let k = self.output.inner->Ok_0.outgoings@[i].0;
                        if k.id == sid.id {
                            assert(k == sid);
                            assert(old(self).sid_opened(sid));
                        }
                    }
                }
                self.output.insert(sid, sender);
                proof {
                    assert forall|i: int|
                        0 <= i < self.output.inner->Ok_0.outgoings@.len() implies self.sid_opened(
                        (#[trigger] self.output.inner->Ok_0.outgoings@[i]).0,
                    ) by {
                        let k = self.output.inner->Ok_0.outgoings@[i].0;
                        if k != sid {
                            assert(old(self).sid_opened(k));
                        }
                    }
                    if self.input.inner is Ok {
                        assert forall|i: int|
                            0 <= i < self.input.inner->Ok_0.incomings@.len() implies self.sid_opened(
                            (#[trigger] self.input.inner->Ok_0.incomings@[i]).0,
                        ) by {
                            assert(self.input.inner->Ok_0.incomings@[i] == old(
                                self,
                            ).input.inner->Ok_0.incomings@[i]);
                            assert(old(self).sid_opened(self.input.inner->Ok_0.incomings@[i].0));
                        }
                    }
                }
                Ok(Some(sid))
            },
            None => Ok(None),
        }
    }

    /// Accepts the oldest peer-opened bidirectional stream: it leaves the
    /// accept queue and its send half is granted the peer-advertised
    /// window.
    pub fn accept_bi(&mut self, snd_wnd_size: u64) -> (r: Result<Option<StreamId>, Error>)
        requires
            old(self).wf(),
            snd_wnd_size <= VARINT_MAX,
        ensures
            final(self).wf(),
            match old(self).listener.inner {
                Ok(l) => if l.bi@.len() > 0 {
                    let sid = l.bi@[0];
                    &&& r == Ok::<Option<StreamId>, Error>(Some(sid))
                    &&& (final(self).listener.inner matches Ok(l2) && l2.bi@ == l.bi@.drop_first()
                        && l2.uni@ == l.uni@)
                    &&& final(self).input == old(self).input
                    &&& final(self).stream_ids == old(self).stream_ids
                    &&& final(self).ctrl_frames == old(self).ctrl_frames
                    &&& match old(self).output.inner {
                        Err(_) => final(self).output == old(self).output,
                        Ok(out0) => {
                            let i = find_sid(out0.outgoings@, sid, 0);
                            if i == out0.outgoings@.len() {
                                final(self).output == old(self).output
                            } else {
                                final(self).output.inner matches Ok(out2) && out2.outgoings@.len()
                                    == out0.outgoings@.len() && out2.outgoings@[i].0 == sid
                                    && out2.outgoings@[i].1@ == crate::sender::window_transition(
                                    out0.outgoings@[i].1@,
                                    snd_wnd_size,
                                ) && (forall|j: int|
                                    0 <= j < out2.outgoings@.len() && j != i ==> (
                                    #[trigger] out2.outgoings@[j]) == out0.outgoings@[j])
                                    && out2.cur_sending_stream == out0.cur_sending_stream
                            }
                        },
                    }
                } else {
                    r == Ok::<Option<StreamId>, Error>(None) && *final(self) == *old(self)
                },
                Err(e) => r == Err::<Option<StreamId>, Error>(e) && *final(self) == *old(self),
            },
    {
        let ghost mid = *self;
        match self.listener.accept_bi_stream() {
            Ok(Some(sid)) => {
                match &mut self.output.inner {
                    Ok(o) => {
                        let i = find_sid_index(&o.outgoings, sid);
                        if i < o.outgoings.len() {
                            let ghost pre_q = o.outgoings@;
                            let og: &mut Outgoing = &mut o.outgoings[i].1;
                            og.update_window(snd_wnd_size);
                            proof {
                                assert forall|k: int|
                                    0 <= k < o.outgoings@.len() implies self.sid_opened(
                                    (#[trigger] o.outgoings@[k]).0,
                                ) by {
                                    assert(o.outgoings@[k].0 == pre_q[k].0);
                                    assert(mid.sid_opened(pre_q[k].0));
                                }
                            }
                        }
                    },
                    Err(_) => {},
                }
                Ok(Some(sid))
            },
            Ok(None) => Ok(None),
            Err(e) => Err(e),
        }
    }

    /// Accepts the oldest peer-opened unidirectional stream: it leaves the
    /// accept queue; nothing else changes.
    pub fn accept_uni(&mut self) -> (r: Result<Option<StreamId>, Error>)
        requires
            old(self).wf(),
        ensures
            final(self).wf(),
            match old(self).listener.inner {
                Ok(l) => if l.uni@.len() > 0 {
                    &&& r == Ok::<Option<StreamId>, Error>(Some(l.uni@[0]))
                    &&& (final(self).listener.inner matches Ok(l2) && l2.uni@
                        == l.uni@.drop_first() && l2.bi@ == l.bi@)
                    &&& final(self).output == old(self).output
                    &&& final(self).input == old(self).input
                    &&& final(self).stream_ids == old(self).stream_ids
                    &&& final(self).ctrl_frames == old(self).ctrl_frames
                } else {
                    r == Ok::<Option<StreamId>, Error>(None) && *final(self) == *old(self)
                },
                Err(e) => r == Err::<Option<StreamId>, Error>(e) && *final(self) == *old(self),
            },
    {
        match self.listener.accept_uni_stream() {
            Ok(Some(sid)) => Ok(Some(sid)),
            Ok(None) => Ok(None),
            Err(e) => Err(e),
        }
    }

    /// Validates a peer-named bidirectional ID and auto-opens every skipped
    /// ID of the quadrant up to it: the opened set grows by exactly
    /// `{ m : same quadrant, m <= sid, m not previously opened }`, each new
    /// stream getting both halves and a place in the accept queue. Beyond
    /// the advertised limit nothing changes and the error is returned. Once
    /// the connection is dead this is a no-op.
    #[verifier::loop_isolation(false)]
    #[verifier::rlimit(100)]
    pub fn try_accept_bi_sid(&mut self, sid: StreamId) -> (r: Result<(), ExceedLimitError>)
        requires
            old(self).wf(),
            sid.wf(),
            sid.spec_role() == old(self).role.spec_peer(),
            sid.spec_dir() == Dir::Bi,
        ensures
            final(self).wf(),
            ({
                let healthy = old(self).output.inner is Ok && old(self).input.inner is Ok && old(
                    self,
                ).listener.inner is Ok;
                let peer = old(self).role.spec_peer();
                let u = old(self).stream_ids.remote.unallocated(Dir::Bi);
                if !healthy {
                    r is Ok && *final(self) == *old(self)
                } else {
                    match r {
                        Err(_) => sid.spec_index() >= old(self).stream_ids.remote.max(Dir::Bi)
                            && *final(self) == *old(self),
                        Ok(_) => {
                            &&& sid.spec_index() < old(self).stream_ids.remote.max(Dir::Bi)
                            &&& (sid.spec_index() < u ==> *final(self) == *old(self))
                            &&& final(self).stream_ids.local == old(self).stream_ids.local
                            &&& final(self).stream_ids.remote.unallocated(Dir::Bi) == (
                            if sid.spec_index() < u {
                                u
                            } else {
                                (sid.spec_index() + 1) as u64
                            })
                            &&& final(self).stream_ids.remote.unallocated(Dir::Uni) == old(
                                self,
                            ).stream_ids.remote.unallocated(Dir::Uni)
                            &&& final(self).ctrl_frames == old(self).ctrl_frames
                            &&& (final(self).output.inner matches Ok(out2) && old(
                                self,
                            ).output.inner matches Ok(out0) ==> {
                                &&& out2.cur_sending_stream == out0.cur_sending_stream
                                &&& (forall|s2: StreamId|
                                    s2.wf() ==> (has_sid(out2.outgoings@, s2) <==> has_sid(
                                        out0.outgoings@,
                                        s2,
                                    ) || #[trigger] in_accept_range(peer, Dir::Bi, u, sid, s2)))
                                &&& (forall|i: int|
                                    0 <= i < out2.outgoings@.len() && !has_sid(
                                        out0.outgoings@,
                                        (#[trigger] out2.outgoings@[i]).0,
                                    ) ==> out2.outgoings@[i].1@ == Ok::<SenderV, Error>(
                                        SenderV::Ready(crate::sendbuf::empty_sendbuf(0)),
                                    ))
                                &&& (forall|i: int|
                                    0 <= i < out2.outgoings@.len() && has_sid(
                                        out0.outgoings@,
                                        (#[trigger] out2.outgoings@[i]).0,
                                    ) ==> exists|j: int|
                                        0 <= j < out0.outgoings@.len() && out0.outgoings@[j]
                                            == out2.outgoings@[i])
                            })
                            &&& (final(self).input.inner matches Ok(in2) && old(
                                self,
                            ).input.inner matches Ok(in0) ==> {
                                &&& (forall|s2: StreamId|
                                    s2.wf() ==> (has_sid(in2.incomings@, s2) <==> has_sid(
                                        in0.incomings@,
                                        s2,
                                    ) || #[trigger] in_accept_range(peer, Dir::Bi, u, sid, s2)))
                                &&& (forall|i: int|
                                    0 <= i < in2.incomings@.len() && !has_sid(
                                        in0.incomings@,
                                        (#[trigger] in2.incomings@[i]).0,
                                    ) ==> fresh_incoming(
                                        in2.incomings@[i].1,
                                        old(self).remote_bi_stream_rcvbuf_size,
                                    ))
                                &&& (forall|i: int|
                                    0 <= i < in2.incomings@.len() && has_sid(
                                        in0.incomings@,
                                        (#[trigger] in2.incomings@[i]).0,
                                    ) ==> exists|j: int|
                                        0 <= j < in0.incomings@.len() && in0.incomings@[j]
                                            == in2.incomings@[i])
                            })
                            // each newly opened stream joins the accept
                            // queue, in increasing ID order
                            &&& (final(self).listener.inner matches Ok(l2) && old(
                                self,
                            ).listener.inner matches Ok(l0) ==> l2.bi@ == l0.bi@ + accept_news(
                                peer,
                                Dir::Bi,
                                u,
                                sid,
                            ) && l2.uni@ == l0.uni@)
                        },
                    }
                }
            }),
    {
        if self.output.inner.is_err() {
            return Ok(());
        }
        if self.input.inner.is_err() {
            return Ok(());
        }
        if self.listener.inner.is_err() {
            return Ok(());
        }
        let result = match self.stream_ids.remote.try_accept_sid(sid) {
            Err(e) => {
                return Err(e);
            },
            Ok(a) => a,
        };
        match result {
            AcceptSid::Old => {
                proof {
                    assert forall|s2: StreamId|
                        s2.wf() && #[trigger] in_accept_range(
                            old(self).role.spec_peer(),
                            Dir::Bi,
                            old(self).stream_ids.remote.unallocated(Dir::Bi),
                            sid,
                            s2,
                        ) implies false by {}
                    assert(self.listener.inner->Ok_0.bi@ =~= self.listener.inner->Ok_0.bi@
                        + accept_news(
                        old(self).role.spec_peer(),
                        Dir::Bi,
                        old(self).stream_ids.remote.unallocated(Dir::Bi),
                        sid,
                    ));
                }
                Ok(())
            },
            AcceptSid::New(need_create) => {
                let ghost peer = old(self).role.spec_peer();
                let ghost out0 = old(self).output.inner->Ok_0;
                let ghost in0 = old(self).input.inner->Ok_0;
                let ghost l0 = old(self).listener.inner->Ok_0;
                let ghost u = old(self).stream_ids.remote.unallocated(Dir::Bi);
                let ghost ids1 = self.stream_ids;
                let rcv_buf_size = self.remote_bi_stream_rcvbuf_size;
                let n = need_create.len();
                let mut k: usize = 0;
                while k < n
                    invariant
                        k <= n,
                        self.stream_ids == ids1,
                        self.role == old(self).role,
                        self.ctrl_frames == old(self).ctrl_frames,
                        self.uni_stream_rcvbuf_size == old(self).uni_stream_rcvbuf_size,
                        self.local_bi_stream_rcvbuf_size == old(self).local_bi_stream_rcvbuf_size,
                        self.remote_bi_stream_rcvbuf_size == old(
                            self,
                        ).remote_bi_stream_rcvbuf_size,
                        self.wf(),
                        self.output.inner matches Ok(o) && o.cur_sending_stream
                            == out0.cur_sending_stream,
                        self.input.inner is Ok,
                        (forall|s2: StreamId|
                            #[trigger] has_sid(self.output.inner->Ok_0.outgoings@, s2) <==> has_sid(
                                out0.outgoings@,
                                s2,
                            ) || (exists|m: int| 0 <= m < k && need_create@[m] == s2)),
                        (forall|s2: StreamId|
                            #[trigger] has_sid(self.input.inner->Ok_0.incomings@, s2) <==> has_sid(
                                in0.incomings@,
                                s2,
                            ) || (exists|m: int| 0 <= m < k && need_create@[m] == s2)),
                        self.listener.inner matches Ok(l) && l.bi@ == l0.bi@ + need_create@.take(
                            k as int,
                        ) && l.uni@ == l0.uni@,
                        (forall|i: int|
                            0 <= i < self.output.inner->Ok_0.outgoings@.len() && !has_sid(
                                out0.outgoings@,
                                (#[trigger] self.output.inner->Ok_0.outgoings@[i]).0,
                            ) ==> self.output.inner->Ok_0.outgoings@[i].1@ == Ok::<
                                SenderV,
                                Error,
                            >(SenderV::Ready(crate::sendbuf::empty_sendbuf(0)))),
                        (forall|i: int|
                            0 <= i < self.output.inner->Ok_0.outgoings@.len() && has_sid(
                                out0.outgoings@,
                                (#[trigger] self.output.inner->Ok_0.outgoings@[i]).0,
                            ) ==> exists|j: int|
                                0 <= j < out0.outgoings@.len() && out0.outgoings@[j]
                                    == self.output.inner->Ok_0.outgoings@[i]),
                        (forall|i: int|
                            0 <= i < self.input.inner->Ok_0.incomings@.len() && !has_sid(
                                in0.incomings@,
                                (#[trigger] self.input.inner->Ok_0.incomings@[i]).0,
                            ) ==> fresh_incoming(
                                self.input.inner->Ok_0.incomings@[i].1,
                                old(self).remote_bi_stream_rcvbuf_size,
                            )),
                        (forall|i: int|
                            0 <= i < self.input.inner->Ok_0.incomings@.len() && has_sid(
                                in0.incomings@,
                                (#[trigger] self.input.inner->Ok_0.incomings@[i]).0,
                            ) ==> exists|j: int|
                                0 <= j < in0.incomings@.len() && in0.incomings@[j]
                                    == self.input.inner->Ok_0.incomings@[i]),
                    decreases n - k,
                {
                    let nsid = need_create[k];
                    proof {
                        crate::sid::lemma_spec_new_fields(peer, Dir::Bi, (u + k) as u64);
                        assert(nsid.spec_index() == u + k);
                        assert(!has_sid(in0.incomings@, nsid)) by {
                            if has_sid(in0.incomings@, nsid) {
                                let j = choose|j: int|
                                    0 <= j < in0.incomings@.len() && (
                                    #[trigger] in0.incomings@[j]).0 == nsid;
                                assert(old(self).sid_opened(nsid));
                            }
                        }
                        assert(!has_sid(out0.outgoings@, nsid)) by {
                            if has_sid(out0.outgoings@, nsid) {
                                let j = choose|j: int|
                                    0 <= j < out0.outgoings@.len() && (
                                    #[trigger] out0.outgoings@[j]).0 == nsid;
                                assert(old(self).sid_opened(nsid));
                            }
                        }
                        assert forall|i: int|
                            0 <= i < self.input.inner->Ok_0.incomings@.len() implies (
                        #[trigger] self.input.inner->Ok_0.incomings@[i]).0.id != nsid.id by {
                            let k2 = self.input.inner->Ok_0.incomings@[i].0;
                            if k2.id == nsid.id {
                                assert(k2 == nsid);
                                assert(has_sid(self.input.inner->Ok_0.incomings@, nsid));
                                if has_sid(in0.incomings@, nsid) {
                                    let j = choose|j: int|
                                        0 <= j < in0.incomings@.len() && (
                                        #[trigger] in0.incomings@[j]).0 == nsid;
                                    assert(old(self).sid_opened(nsid));
                                } else {
                                    let m = choose|m: int|
                                        0 <= m < k && need_create@[m] == nsid;
                                    crate::sid::lemma_spec_new_fields(peer, Dir::Bi, (u + m) as u64);
                                }
                            }
                        }
                        assert forall|i: int|
                            0 <= i < self.output.inner->Ok_0.outgoings@.len() implies (
                        #[trigger] self.output.inner->Ok_0.outgoings@[i]).0.id != nsid.id by {
                            let k2 = self.output.inner->Ok_0.outgoings@[i].0;
                            if k2.id == nsid.id {
                                assert(k2 == nsid);
                                assert(has_sid(self.output.inner->Ok_0.outgoings@, nsid));
                                if has_sid(out0.outgoings@, nsid) {
                                    let j = choose|j: int|
                                        0 <= j < out0.outgoings@.len() && (
                                        #[trigger] out0.outgoings@[j]).0 == nsid;
                                    assert(old(self).sid_opened(nsid));
                                } else {
                                    let m = choose|m: int|
                                        0 <= m < k && need_create@[m] == nsid;
                                    crate::sid::lemma_spec_new_fields(peer, Dir::Bi, (u + m) as u64);
                                }
                            }
                        }
                    }
                    let recver = self.create_recver(rcv_buf_size);
                    let sender = self.create_sender(0);
                    let ghost in_pre = self.input.inner->Ok_0.incomings@;
                    self.input.insert(nsid, recver);
                    let ghost out_pre = self.output.inner->Ok_0.outgoings@;
                    self.output.insert(nsid, sender);
                    self.listener.push_bi_stream(nsid);
                    proof {
                        assert(self.listener.inner->Ok_0.bi@ =~= l0.bi@ + need_create@.take(
                            k as int + 1,
                        ));
                        assert forall|i: int|
                            0 <= i < self.output.inner->Ok_0.outgoings@.len() && !has_sid(
                                out0.outgoings@,
                                (#[trigger] self.output.inner->Ok_0.outgoings@[i]).0,
                            ) implies self.output.inner->Ok_0.outgoings@[i].1@ == Ok::<
                            SenderV,
                            Error,
                        >(SenderV::Ready(crate::sendbuf::empty_sendbuf(0))) by {
                            let pr = self.output.inner->Ok_0.outgoings@[i];
                            if pr.0 != nsid {
                                let j = choose|j: int| 0 <= j < out_pre.len() && out_pre[j] == pr;
                                assert(out_pre[j].1@ == Ok::<SenderV, Error>(
                                    SenderV::Ready(crate::sendbuf::empty_sendbuf(0)),
                                ) || has_sid(out0.outgoings@, out_pre[j].0));
                            }
                        }
                        assert forall|i: int|
                            0 <= i < self.output.inner->Ok_0.outgoings@.len() && has_sid(
                                out0.outgoings@,
                                (#[trigger] self.output.inner->Ok_0.outgoings@[i]).0,
                            ) implies exists|j: int|
                            0 <= j < out0.outgoings@.len() && out0.outgoings@[j]
                                == self.output.inner->Ok_0.outgoings@[i] by {
                            let pr = self.output.inner->Ok_0.outgoings@[i];
                            if pr.0 != nsid {
                                let j2 = choose|j2: int|
                                    0 <= j2 < out_pre.len() && out_pre[j2] == pr;
                                assert(has_sid(out0.outgoings@, out_pre[j2].0));
                            }
                        }
                        assert forall|i: int|
                            0 <= i < self.input.inner->Ok_0.incomings@.len() && !has_sid(
                                in0.incomings@,
                                (#[trigger] self.input.inner->Ok_0.incomings@[i]).0,
                            ) implies fresh_incoming(
                            self.input.inner->Ok_0.incomings@[i].1,
                            old(self).remote_bi_stream_rcvbuf_size,
                        ) by {
                            let pr = self.input.inner->Ok_0.incomings@[i];
                            if pr.0 != nsid {
                                let j = choose|j: int| 0 <= j < in_pre.len() && in_pre[j] == pr;
                                assert(fresh_incoming(
                                    in_pre[j].1,
                                    old(self).remote_bi_stream_rcvbuf_size,
                                ) || has_sid(in0.incomings@, in_pre[j].0));
                            }
                        }
                        assert forall|i: int|
                            0 <= i < self.input.inner->Ok_0.incomings@.len() && has_sid(
                                in0.incomings@,
                                (#[trigger] self.input.inner->Ok_0.incomings@[i]).0,
                            ) implies exists|j: int|
                            0 <= j < in0.incomings@.len() && in0.incomings@[j]
                                == self.input.inner->Ok_0.incomings@[i] by {
                            let pr = self.input.inner->Ok_0.incomings@[i];
                            if pr.0 != nsid {
                                let j2 = choose|j2: int|
                                    0 <= j2 < in_pre.len() && in_pre[j2] == pr;
                                assert(has_sid(in0.incomings@, in_pre[j2].0));
                            }
                        }
                        assert forall|s2: StreamId|
                            #[trigger] has_sid(self.output.inner->Ok_0.outgoings@, s2) <==> has_sid(
                                out0.outgoings@,
                                s2,
                            ) || (exists|m: int| 0 <= m < k + 1 && need_create@[m] == s2) by {
                            if s2 == nsid {
                                assert(need_create@[k as int] == s2);
                            }
                            if exists|m: int| 0 <= m < k + 1 && need_create@[m] == s2 {
                                let m = choose|m: int| 0 <= m < k + 1 && need_create@[m] == s2;
                                if m < k {
                                    assert(has_sid(self.output.inner->Ok_0.outgoings@, s2));
                                }
                            }
                        }
                        assert forall|s2: StreamId|
                            #[trigger] has_sid(self.input.inner->Ok_0.incomings@, s2) <==> has_sid(
                                in0.incomings@,
                                s2,
                            ) || (exists|m: int| 0 <= m < k + 1 && need_create@[m] == s2) by {
                            if s2 == nsid {
                                assert(need_create@[k as int] == s2);
                            }
                            if exists|m: int| 0 <= m < k + 1 && need_create@[m] == s2 {
                                let m = choose|m: int| 0 <= m < k + 1 && need_create@[m] == s2;
                                if m < k {
                                    assert(has_sid(self.input.inner->Ok_0.incomings@, s2));
                                }
                            }
                        }
                        assert forall|i: int|
                            0 <= i < self.output.inner->Ok_0.outgoings@.len() implies
                            self.sid_opened((#[trigger] self.output.inner->Ok_0.outgoings@[i]).0) by {
                            let k2 = self.output.inner->Ok_0.outgoings@[i].0;
                            assert(has_sid(self.output.inner->Ok_0.outgoings@, k2));
                            if has_sid(out0.outgoings@, k2) {
                                let j = choose|j: int|
                                    0 <= j < out0.outgoings@.len() && (
                                    #[trigger] out0.outgoings@[j]).0 == k2;
                                assert(old(self).sid_opened(k2));
                            } else {
                                let m = choose|m: int| 0 <= m < k + 1 && need_create@[m] == k2;
                                crate::sid::lemma_spec_new_fields(peer, Dir::Bi, (u + m) as u64);
                            }
                        }
                        assert forall|i: int|
                            0 <= i < self.input.inner->Ok_0.incomings@.len() implies
                            self.sid_opened((#[trigger] self.input.inner->Ok_0.incomings@[i]).0) by {
                            let k2 = self.input.inner->Ok_0.incomings@[i].0;
                            assert(has_sid(self.input.inner->Ok_0.incomings@, k2));
                            if has_sid(in0.incomings@, k2) {
                                let j = choose|j: int|
                                    0 <= j < in0.incomings@.len() && (
                                    #[trigger] in0.incomings@[j]).0 == k2;
                                assert(old(self).sid_opened(k2));
                            } else {
                                let m = choose|m: int| 0 <= m < k + 1 && need_create@[m] == k2;
                                crate::sid::lemma_spec_new_fields(peer, Dir::Bi, (u + m) as u64);
                            }
                        }
                    }
                    k = k + 1;
                }
                proof {
                    lemma_news_range(need_create@, peer, Dir::Bi, u, sid);
                    assert(need_create@ =~= accept_news(peer, Dir::Bi, u, sid));
                    assert(self.listener.inner->Ok_0.bi@ =~= l0.bi@ + accept_news(
                        peer,
                        Dir::Bi,
                        u,
                        sid,
                    ));
                }
                Ok(())
            },
        }
    }

    /// Validates a peer-named unidirectional ID and auto-opens every
    /// skipped ID of the quadrant up to it; each new stream gets a receive
    /// half and a place in the accept queue (there is nothing to send on
    /// it). Beyond the advertised limit nothing changes and the error is
    /// returned. Once the connection is dead this is a no-op.
    #[verifier::loop_isolation(false)]
    #[verifier::rlimit(100)]
    pub fn try_accept_uni_sid(&mut self, sid: StreamId) -> (r: Result<(), ExceedLimitError>)
        requires
            old(self).wf(),
            sid.wf(),
            sid.spec_role() == old(self).role.spec_peer(),
            sid.spec_dir() == Dir::Uni,
        ensures
            final(self).wf(),
            ({
                let healthy = old(self).input.inner is Ok && old(self).listener.inner is Ok;
                let peer = old(self).role.spec_peer();
                let u = old(self).stream_ids.remote.unallocated(Dir::Uni);
                if !healthy {
                    r is Ok && *final(self) == *old(self)
                } else {
                    match r {
                        Err(_) => sid.spec_index() >= old(self).stream_ids.remote.max(Dir::Uni)
                            && *final(self) == *old(self),
                        Ok(_) => {
                            &&& sid.spec_index() < old(self).stream_ids.remote.max(Dir::Uni)
                            &&& (sid.spec_index() < u ==> *final(self) == *old(self))
                            &&& final(self).stream_ids.local == old(self).stream_ids.local
                            &&& final(self).stream_ids.remote.unallocated(Dir::Uni) == (
                            if sid.spec_index() < u {
                                u
                            } else {
                                (sid.spec_index() + 1) as u64
                            })
                            &&& final(self).stream_ids.remote.unallocated(Dir::Bi) == old(
                                self,
                            ).stream_ids.remote.unallocated(Dir::Bi)
                            &&& final(self).ctrl_frames == old(self).ctrl_frames
                            &&& final(self).output == old(self).output
                            &&& (final(self).input.inner matches Ok(in2) && old(
                                self,
                            ).input.inner matches Ok(in0) ==> {
                                &&& (forall|s2: StreamId|
                                    s2.wf() ==> (has_sid(in2.incomings@, s2) <==> has_sid(
                                        in0.incomings@,
                                        s2,
                                    ) || #[trigger] in_accept_range(peer, Dir::Uni, u, sid, s2)))
                                &&& (forall|i: int|
                                    0 <= i < in2.incomings@.len() && !has_sid(
                                        in0.incomings@,
                                        (#[trigger] in2.incomings@[i]).0,
                                    ) ==> fresh_incoming(
                                        in2.incomings@[i].1,
                                        old(self).uni_stream_rcvbuf_size,
                                    ))
                                &&& (forall|i: int|
                                    0 <= i < in2.incomings@.len() && has_sid(
                                        in0.incomings@,
                                        (#[trigger] in2.incomings@[i]).0,
                                    ) ==> exists|j: int|
                                        0 <= j < in0.incomings@.len() && in0.incomings@[j]
                                            == in2.incomings@[i])
                            })
                            // each newly opened stream joins the accept
                            // queue, in increasing ID order
                            &&& (final(self).listener.inner matches Ok(l2) && old(
                                self,
                            ).listener.inner matches Ok(l0) ==> l2.uni@ == l0.uni@ + accept_news(
                                peer,
                                Dir::Uni,
                                u,
                                sid,
                            ) && l2.bi@ == l0.bi@)
                        },
                    }
                }
            }),
    {
        if self.input.inner.is_err() {
            return Ok(());
        }
        if self.listener.inner.is_err() {
            return Ok(());
        }
        let result = match self.stream_ids.remote.try_accept_sid(sid) {
            Err(e) => {
                return Err(e);
            },
            Ok(a) => a,
        };
        match result {
            AcceptSid::Old => {
                proof {
                    assert forall|s2: StreamId|
                        s2.wf() && #[trigger] in_accept_range(
                            old(self).role.spec_peer(),
                            Dir::Uni,
                            old(self).stream_ids.remote.unallocated(Dir::Uni),
                            sid,
                            s2,
                        ) implies false by {}
                    assert(self.listener.inner->Ok_0.uni@ =~= self.listener.inner->Ok_0.uni@
                        + accept_news(
                        old(self).role.spec_peer(),
                        Dir::Uni,
                        old(self).stream_ids.remote.unallocated(Dir::Uni),
                        sid,
                    ));
                }
                Ok(())
            },
            AcceptSid::New(need_create) => {
                let ghost peer = old(self).role.spec_peer();
                let ghost in0 = old(self).input.inner->Ok_0;
                let ghost l0 = old(self).listener.inner->Ok_0;
                let ghost u = old(self).stream_ids.remote.unallocated(Dir::Uni);
                let ghost ids1 = self.stream_ids;
                let rcv_buf_size = self.uni_stream_rcvbuf_size;
                let n = need_create.len();
                let mut k: usize = 0;
                while k < n
                    invariant
                        k <= n,
                        self.stream_ids == ids1,
                        self.role == old(self).role,
                        self.ctrl_frames == old(self).ctrl_frames,
                        self.output == old(self).output,
                        self.uni_stream_rcvbuf_size == old(self).uni_stream_rcvbuf_size,
                        self.local_bi_stream_rcvbuf_size == old(self).local_bi_stream_rcvbuf_size,
                        self.remote_bi_stream_rcvbuf_size == old(
                            self,
                        ).remote_bi_stream_rcvbuf_size,
                        self.wf(),
                        self.input.inner is Ok,
                        (forall|s2: StreamId|
                            #[trigger] has_sid(self.input.inner->Ok_0.incomings@, s2) <==> has_sid(
                                in0.incomings@,
                                s2,
                            ) || (exists|m: int| 0 <= m < k && need_create@[m] == s2)),
                        self.listener.inner matches Ok(l) && l.uni@ == l0.uni@ + need_create@.take(
                            k as int,
                        ) && l.bi@ == l0.bi@,
                        (forall|i: int|
                            0 <= i < self.input.inner->Ok_0.incomings@.len() && !has_sid(
                                in0.incomings@,
                                (#[trigger] self.input.inner->Ok_0.incomings@[i]).0,
                            ) ==> fresh_incoming(
                                self.input.inner->Ok_0.incomings@[i].1,
                                old(self).uni_stream_rcvbuf_size,
                            )),
                        (forall|i: int|
                            0 <= i < self.input.inner->Ok_0.incomings@.len() && has_sid(
                                in0.incomings@,
                                (#[trigger] self.input.inner->Ok_0.incomings@[i]).0,
                            ) ==> exists|j: int|
                                0 <= j < in0.incomings@.len() && in0.incomings@[j]
                                    == self.input.inner->Ok_0.incomings@[i]),
                    decreases n - k,
                {
                    let nsid = need_create[k];
                    proof {
                        crate::sid::lemma_spec_new_fields(peer, Dir::Uni, (u + k) as u64);
                        assert(nsid.spec_index() == u + k);
                        assert(!has_sid(in0.incomings@, nsid)) by {
                            if has_sid(in0.incomings@, nsid) {
                                let j = choose|j: int|
                                    0 <= j < in0.incomings@.len() && (
                                    #[trigger] in0.incomings@[j]).0 == nsid;
                                assert(old(self).sid_opened(nsid));
                            }
                        }
                        assert forall|i: int|
                            0 <= i < self.input.inner->Ok_0.incomings@.len() implies (
                        #[trigger] self.input.inner->Ok_0.incomings@[i]).0.id != nsid.id by {
                            let k2 = self.input.inner->Ok_0.incomings@[i].0;
                            if k2.id == nsid.id {
                                assert(k2 == nsid);
                                assert(has_sid(self.input.inner->Ok_0.incomings@, nsid));
                                if has_sid(in0.incomings@, nsid) {
                                    let j = choose|j: int|
                                        0 <= j < in0.incomings@.len() && (
                                        #[trigger] in0.incomings@[j]).0 == nsid;
                                    assert(old(self).sid_opened(nsid));
                                } else {
                                    let m = choose|m: int|
                                        0 <= m < k && need_create@[m] == nsid;
                                    crate::sid::lemma_spec_new_fields(
                                        peer,
                                        Dir::Uni,
                                        (u + m) as u64,
                                    );
                                }
                            }
                        }
                    }
                    let recver = self.create_recver(rcv_buf_size);
                    let ghost in_pre = self.input.inner->Ok_0.incomings@;
                    self.input.insert(nsid, recver);
                    self.listener.push_uni_stream(nsid);
                    proof {
                        assert(self.listener.inner->Ok_0.uni@ =~= l0.uni@ + need_create@.take(
                            k as int + 1,
                        ));
                        assert forall|i: int|
                            0 <= i < self.input.inner->Ok_0.incomings@.len() && !has_sid(
                                in0.incomings@,
                                (#[trigger] self.input.inner->Ok_0.incomings@[i]).0,
                            ) implies fresh_incoming(
                            self.input.inner->Ok_0.incomings@[i].1,
                            old(self).uni_stream_rcvbuf_size,
                        ) by {
                            let pr = self.input.inner->Ok_0.incomings@[i];
                            if pr.0 != nsid {
                                let j = choose|j: int| 0 <= j < in_pre.len() && in_pre[j] == pr;
                                assert(fresh_incoming(
                                    in_pre[j].1,
                                    old(self).uni_stream_rcvbuf_size,
                                ) || has_sid(in0.incomings@, in_pre[j].0));
                            }
                        }
                        assert forall|i: int|
                            0 <= i < self.input.inner->Ok_0.incomings@.len() && has_sid(
                                in0.incomings@,
                                (#[trigger] self.input.inner->Ok_0.incomings@[i]).0,
                            ) implies exists|j: int|
                            0 <= j < in0.incomings@.len() && in0.incomings@[j]
                                == self.input.inner->Ok_0.incomings@[i] by {
                            let pr = self.input.inner->Ok_0.incomings@[i];
                            if pr.0 != nsid {
                                let j2 = choose|j2: int|
                                    0 <= j2 < in_pre.len() && in_pre[j2] == pr;
                                assert(has_sid(in0.incomings@, in_pre[j2].0));
                            }
                        }
                        assert forall|s2: StreamId|
                            #[trigger] has_sid(self.input.inner->Ok_0.incomings@, s2) <==> has_sid(
                                in0.incomings@,
                                s2,
                            ) || (exists|m: int| 0 <= m < k + 1 && need_create@[m] == s2) by {
                            if s2 == nsid {
                                assert(need_create@[k as int] == s2);
                            }
                            if exists|m: int| 0 <= m < k + 1 && need_create@[m] == s2 {
                                let m = choose|m: int| 0 <= m < k + 1 && need_create@[m] == s2;
                                if m < k {
                                    assert(has_sid(self.input.inner->Ok_0.incomings@, s2));
                                }
                            }
                        }
                        assert forall|i: int|
                            0 <= i < self.input.inner->Ok_0.incomings@.len() implies
                            self.sid_opened((#[trigger] self.input.inner->Ok_0.incomings@[i]).0) by {
                            let k2 = self.input.inner->Ok_0.incomings@[i].0;
                            assert(has_sid(self.input.inner->Ok_0.incomings@, k2));
                            if has_sid(in0.incomings@, k2) {
                                let j = choose|j: int|
                                    0 <= j < in0.incomings@.len() && (
                                    #[trigger] in0.incomings@[j]).0 == k2;
                                assert(old(self).sid_opened(k2));
                            } else {
                                let m = choose|m: int| 0 <= m < k + 1 && need_create@[m] == k2;
                                crate::sid::lemma_spec_new_fields(peer, Dir::Uni, (u + m) as u64);
                            }
                        }
                        if self.output.inner is Ok {
                            assert forall|i: int|
                                0 <= i < self.output.inner->Ok_0.outgoings@.len() implies
                                self.sid_opened(
                                (#[trigger] self.output.inner->Ok_0.outgoings@[i]).0) by {
                                assert(self.output.inner->Ok_0.outgoings@[i] == old(
                                    self,
                                ).output.inner->Ok_0.outgoings@[i]);
                                assert(old(self).sid_opened(
                                    self.output.inner->Ok_0.outgoings@[i].0,
                                ));
                            }
                        }
                    }
                    k = k + 1;
                }
                proof {
                    lemma_news_range(need_create@, peer, Dir::Uni, u, sid);
                    assert(need_create@ =~= accept_news(peer, Dir::Uni, u, sid));
                    assert(self.listener.inner->Ok_0.uni@ =~= l0.uni@ + accept_news(
                        peer,
                        Dir::Uni,
                        u,
                        sid,
                    ));
                }
                Ok(())
            },
        }
    }

    /// Packs the next STREAM frame into `buf` under the fair round-robin:
    /// the cursor's stream is served while it has tokens, then the cursor
    /// advances in increasing ID order, wrapping to the lowest ID. The
    /// result is `(frame, bytes_written, fresh_bytes)`: `fresh_bytes` is
    /// what counts against the connection flow credit and never exceeds
    /// `flow_limit`; retransmitted bytes count as zero.
    #[verifier::loop_isolation(false)]
    #[verifier::rlimit(100)]
    pub fn try_read_data(&mut self, buf: &mut Vec<u8>, capacity: usize, flow_limit: usize) -> (r:
        Option<(StreamFrame, usize, usize)>)
        requires
            old(self).wf(),
            old(buf)@.len() <= capacity,
        ensures
            final(self).wf(),
            final(buf)@.len() <= capacity,
            match old(self).output.inner {
                Err(_) => r is None && *final(self) == *old(self) && final(buf)@ == old(buf)@,
                Ok(out0) => match spec_candidate(out0.outgoings@, out0.cur_sending_stream) {
                    None => r is None && *final(self) == *old(self) && final(buf)@ == old(buf)@,
                    Some((ci, tk)) => {
                        let sid = out0.outgoings@[ci].0;
                        let og = out0.outgoings@[ci].1;
                        match crate::sender::spec_try_read(
                            og@,
                            sid,
                            capacity - old(buf)@.len(),
                            tk,
                            flow_limit as int,
                        ) {
                            None => {
                                &&& r is None
                                &&& final(buf)@ == old(buf)@
                                // the cursor parks exhausted on the served
                                // stream, so the next call moves past it: a
                                // stream with nothing to send cannot starve
                                // the others
                                &&& (final(self).output.inner matches Ok(out2)
                                    && out2.outgoings@ == out0.outgoings@
                                    && out2.cur_sending_stream == Some((sid, 0usize)))
                                &&& final(self).input == old(self).input
                                &&& final(self).listener == old(self).listener
                                &&& final(self).stream_ids == old(self).stream_ids
                                &&& final(self).ctrl_frames == old(self).ctrl_frames
                            },
                            Some(out) => {
                                &&& r == Some(
                                    (
                                        out.0,
                                        out.3 as usize,
                                        if out.2 {
                                            out.1 as usize
                                        } else {
                                            0usize
                                        },
                                    ),
                                )
                                &&& (if out.2 {
                                    out.1
                                } else {
                                    0
                                }) <= flow_limit
                                &&& final(buf)@.len() == old(buf)@.len() + out.3
                                &&& (match sender_buf(og@->Ok_0) {
                                    Some(b) => final(buf)@ == old(buf)@ + crate::sender::zero_seq(
                                        crate::sender::spec_pad(
                                            sid,
                                            out.0.offset as int,
                                            out.1,
                                            capacity - old(buf)@.len(),
                                        ) as nat,
                                    ) + crate::frames::stream_frame_header_bytes(out.0)
                                        + b.data.subrange(
                                        out.0.offset as int,
                                        out.0.offset + out.1,
                                    ),
                                    None => false,
                                })
                                &&& (final(self).output.inner matches Ok(out2) && {
                                    &&& out2.outgoings@.len() == out0.outgoings@.len()
                                    &&& out2.outgoings@[ci].0 == sid
                                    &&& out2.outgoings@[ci].1@ == Ok::<SenderV, Error>(out.4)
                                    &&& (forall|j: int|
                                        0 <= j < out2.outgoings@.len() && j != ci ==> (
                                        #[trigger] out2.outgoings@[j]) == out0.outgoings@[j])
                                    &&& out2.cur_sending_stream == Some(
                                        (sid, (tk - out.1) as usize),
                                    )
                                })
                                &&& final(self).input == old(self).input
                                &&& final(self).listener == old(self).listener
                                &&& final(self).stream_ids == old(self).stream_ids
                                &&& final(self).ctrl_frames == old(self).ctrl_frames
                            },
                        }
                    },
                },
            },
    {
        let cand: Option<(usize, usize)> = match &self.output.inner {
            Err(_) => None,
            Ok(o) => {
                if o.outgoings.len() == 0 {
                    None
                } else {
                    match o.cur_sending_stream {
                        None => Some((0, DEFAULT_TOKENS)),
                        Some((csid, tk)) => {
                            if tk == 0 {
                                let i = find_at_or_after_index(&o.outgoings, csid);
                                if i < o.outgoings.len() && o.outgoings[i].0.id == csid.id {
                                    if i < o.outgoings.len() - 1 {
                                        Some((i + 1, DEFAULT_TOKENS))
                                    } else {
                                        Some((0, DEFAULT_TOKENS))
                                    }
                                } else if i < o.outgoings.len() {
                                    Some((i, DEFAULT_TOKENS))
                                } else {
                                    Some((0, DEFAULT_TOKENS))
                                }
                            } else {
                                let i = find_sid_index(&o.outgoings, csid);
                                if i < o.outgoings.len() {
                                    Some((i, tk))
                                } else {
                                    Some((0, DEFAULT_TOKENS))
                                }
                            }
                        },
                    }
                }
            },
        };
        if self.output.inner.is_err() {
            return None;
        }
        let (ci, tk): (usize, usize) = match cand {
            Some(t) => t,
            None => {
                return None;
            },
        };
        match &mut self.output.inner {
            Ok(o) => {
                let sid = o.outgoings[ci].0;
                let og: &mut Outgoing = &mut o.outgoings[ci].1;
                let res = og.try_read(sid, buf, capacity, tk, flow_limit);
                match res {
                    Some((frame, dlen, fresh, written)) => {
                        o.cur_sending_stream = Some((sid, tk - dlen));
                        proof {
                            assert forall|i: int|
                                0 <= i < o.outgoings@.len() implies self.sid_opened(
                                (#[trigger] o.outgoings@[i]).0,
                            ) by {
                                assert(o.outgoings@[i].0 == old(
                                    self,
                                ).output.inner->Ok_0.outgoings@[i].0);
                                assert(old(self).sid_opened(o.outgoings@[i].0));
                            }
                        }
                        Some((frame, written, if fresh {
                            dlen
                        } else {
                            0
                        }))
                    },
                    None => {
                        o.cur_sending_stream = Some((sid, 0));
                        proof {
                            assert(o.outgoings@ =~= old(self).output.inner->Ok_0.outgoings@);
                            assert forall|i: int|
                                0 <= i < o.outgoings@.len() implies self.sid_opened(
                                (#[trigger] o.outgoings@[i]).0,
                            ) by {
                                assert(o.outgoings@[i].0 == old(
                                    self,
                                ).output.inner->Ok_0.outgoings@[i].0);
                                assert(old(self).sid_opened(o.outgoings@[i].0));
                            }
                        }
                        None
                    },
                }
            },
            Err(_) => None,
        }
    }

    /// An acknowledged STREAM frame: the range is merged into its stream's
    /// state; a stream whose data is now fully acknowledged is dropped from
    /// the table. Acknowledgments for unknown streams, or on a dead
    /// connection, are ignored.
    ///
    /// Only emitted frames come back acknowledged, so the named stream (if
    /// still present) is past Ready.
    #[verifier::rlimit(50)]
    pub fn on_data_acked(&mut self, frame: StreamFrame)
        requires
            old(self).wf(),
            frame.wf(),
            old(self).output.inner matches Ok(o) ==> forall|i: int|
                0 <= i < o.outgoings@.len() && (#[trigger] o.outgoings@[i]).0 == frame.id ==> !(
                o.outgoings@[i].1@ matches Ok(s) && s is Ready),
        ensures
            final(self).wf(),
            match old(self).output.inner {
                Err(_) => *final(self) == *old(self),
                Ok(o) => {
                    let i = find_sid(o.outgoings@, frame.id, 0);
                    if i == o.outgoings@.len() {
                        *final(self) == *old(self)
                    } else {
                        let done = o.outgoings@[i].1@ matches Ok(s) && s matches
                            SenderV::DataSent(b) && b.ack(
                            frame.offset as int,
                            frame.offset + frame.length,
                        ).all_acked();
                        &&& (final(self).output.inner matches Ok(out2) && {
                            &&& (if done {
                                out2.outgoings@ == o.outgoings@.remove(i)
                            } else {
                                &&& out2.outgoings@.len() == o.outgoings@.len()
                                &&& out2.outgoings@[i].0 == frame.id
                                &&& out2.outgoings@[i].1@ == crate::sender::ack_transition(
                                    o.outgoings@[i].1@,
                                    frame.offset as int,
                                    frame.offset + frame.length,
                                )
                                &&& (forall|j: int|
                                    0 <= j < out2.outgoings@.len() && j != i ==> (
                                    #[trigger] out2.outgoings@[j]) == o.outgoings@[j])
                            })
                            &&& out2.cur_sending_stream == o.cur_sending_stream
                        })
                        &&& final(self).input == old(self).input
                        &&& final(self).listener == old(self).listener
                        &&& final(self).stream_ids == old(self).stream_ids
                        &&& final(self).ctrl_frames == old(self).ctrl_frames
                    }
                },
            },
    {
        match &mut self.output.inner {
            Ok(o) => {
                let i = find_sid_index(&o.outgoings, frame.id);
                if i < o.outgoings.len() {
                    let rng = frame.range();
                    let fin = frame.is_fin();
                    let og: &mut Outgoing = &mut o.outgoings[i].1;
                    let done = og.on_data_acked(&rng, fin);
                    if done {
                        let ghost pre = o.outgoings@;
                        let _ = o.outgoings.remove(i);
                        proof {
                            lemma_sorted_remove(pre, o.outgoings@, i as int);
                            assert(o.outgoings@ =~= old(
                                self,
                            ).output.inner->Ok_0.outgoings@.remove(i as int));
                            assert forall|k: int|
                                0 <= k < o.outgoings@.len() implies self.sid_opened(
                                (#[trigger] o.outgoings@[k]).0,
                            ) by {
                                let q0 = old(self).output.inner->Ok_0.outgoings@;
                                if k < i {
                                    assert(o.outgoings@[k].0 == q0[k].0);
                                    assert(old(self).sid_opened(q0[k].0));
                                } else {
                                    assert(o.outgoings@[k].0 == q0[k + 1].0);
                                    assert(old(self).sid_opened(q0[k + 1].0));
                                }
                            }
                        }
                    } else {
                        proof {
                            assert forall|k: int|
                                0 <= k < o.outgoings@.len() implies self.sid_opened(
                                (#[trigger] o.outgoings@[k]).0,
                            ) by {
                                assert(o.outgoings@[k].0 == old(
                                    self,
                                ).output.inner->Ok_0.outgoings@[k].0);
                                assert(old(self).sid_opened(o.outgoings@[k].0));
                            }
                        }
                    }
                }
            },
            Err(_) => {},
        }
    }

    /// A lost STREAM frame: its range is re-marked for retransmission in
    /// the stream it names. Losses for unknown streams, or on a dead
    /// connection, are ignored.
    ///
    /// Only emitted frames are declared lost, so the named stream (if
    /// still present) is past Ready.
    pub fn may_loss_data(&mut self, stream_frame: &StreamFrame)
        requires
            old(self).wf(),
            stream_frame.wf(),
            old(self).output.inner matches Ok(o) ==> forall|i: int|
                0 <= i < o.outgoings@.len() && (#[trigger] o.outgoings@[i]).0 == stream_frame.id
                    ==> !(o.outgoings@[i].1@ matches Ok(s) && s is Ready),
        ensures
            final(self).wf(),
            match old(self).output.inner {
                Err(_) => *final(self) == *old(self),
                Ok(o) => {
                    let i = find_sid(o.outgoings@, stream_frame.id, 0);
                    if i == o.outgoings@.len() {
                        *final(self) == *old(self)
                    } else {
                        &&& (final(self).output.inner matches Ok(out2) && {
                            &&& out2.outgoings@.len() == o.outgoings@.len()
                            &&& out2.outgoings@[i].0 == stream_frame.id
                            &&& out2.outgoings@[i].1@ == crate::sender::loss_transition(
                                o.outgoings@[i].1@,
                                stream_frame.offset as int,
                                stream_frame.offset + stream_frame.length,
                            )
                            &&& (forall|j: int|
                                0 <= j < out2.outgoings@.len() && j != i ==> (
                                #[trigger] out2.outgoings@[j]) == o.outgoings@[j])
                            &&& out2.cur_sending_stream == o.cur_sending_stream
                        })
                        &&& final(self).input == old(self).input
                        &&& final(self).listener == old(self).listener
                        &&& final(self).stream_ids == old(self).stream_ids
                        &&& final(self).ctrl_frames == old(self).ctrl_frames
                    }
                },
            },
    {
        match &mut self.output.inner {
            Ok(o) => {
                let i = find_sid_index(&o.outgoings, stream_frame.id);
                if i < o.outgoings.len() {
                    let rng = stream_frame.range();
                    let og: &mut Outgoing = &mut o.outgoings[i].1;
                    og.may_loss_data(&rng);
                    proof {
                        assert forall|k: int|
                            0 <= k < o.outgoings@.len() implies self.sid_opened(
                            (#[trigger] o.outgoings@[k]).0,
                        ) by {
                            assert(o.outgoings@[k].0 == old(
                                self,
                            ).output.inner->Ok_0.outgoings@[k].0);
                            assert(old(self).sid_opened(o.outgoings@[k].0));
                        }
                    }
                }
            },
            Err(_) => {},
        }
    }

    /// The peer acknowledged a RESET_STREAM of ours: the stream is finished
    /// and leaves the table. The receive half of a bidirectional stream is
    /// managed independently.
    ///
    /// An acknowledgment of a reset presumes the reset was sent.
    pub fn on_reset_acked(&mut self, reset_frame: ResetStreamFrame)
        requires
            old(self).wf(),
            old(self).output.inner matches Ok(o) ==> forall|i: int|
                0 <= i < o.outgoings@.len() && (#[trigger] o.outgoings@[i]).0
                    == reset_frame.stream_id ==> (o.outgoings@[i].1@ matches Ok(s) ==> (s
                    is ResetSent || s is ResetRcvd)),
        ensures
            final(self).wf(),
            match old(self).output.inner {
                Err(_) => *final(self) == *old(self),
                Ok(o) => {
                    let i = find_sid(o.outgoings@, reset_frame.stream_id, 0);
                    if i == o.outgoings@.len() {
                        *final(self) == *old(self)
                    } else {
                        &&& (final(self).output.inner matches Ok(out2) && out2.outgoings@
                            == o.outgoings@.remove(i) && out2.cur_sending_stream
                            == o.cur_sending_stream)
                        &&& final(self).input == old(self).input
                        &&& final(self).listener == old(self).listener
                        &&& final(self).stream_ids == old(self).stream_ids
                        &&& final(self).ctrl_frames == old(self).ctrl_frames
                    }
                },
            },
    {
        match &mut self.output.inner {
            Ok(o) => {
                let i = find_sid_index(&o.outgoings, reset_frame.stream_id);
                if i < o.outgoings.len() {
                    let ghost pre = o.outgoings@;
                    let mut pair = o.outgoings.remove(i);
                    pair.1.on_reset_acked();
                    proof {
                        lemma_sorted_remove(pre, o.outgoings@, i as int);
                        assert forall|k: int|
                            0 <= k < o.outgoings@.len() implies self.sid_opened(
                            (#[trigger] o.outgoings@[k]).0,
                        ) by {
                            let q0 = old(self).output.inner->Ok_0.outgoings@;
                            if k < i {
                                assert(o.outgoings@[k].0 == q0[k].0);
                                assert(old(self).sid_opened(q0[k].0));
                            } else {
                                assert(o.outgoings@[k].0 == q0[k + 1].0);
                                assert(old(self).sid_opened(q0[k + 1].0));
                            }
                        }
                    }
                }
            },
            Err(_) => {},
        }
    }

    /// Delivers the payload of one inbound STREAM frame to the stream it
    /// names, auto-opening skipped peer IDs first.
    ///
    /// A STREAM frame on a locally initiated unidirectional stream is a
    /// `StreamState` error; a peer ID beyond the advertised limit is a
    /// `StreamLimit` error; within a stream the final-size and flow rules
    /// of [`Incoming::recv_data`] apply. Data for a stream that is already
    /// gone is discarded as `Ok(0)`.
    #[verifier::rlimit(100)]
    pub fn recv_data(&mut self, frame: &StreamFrame, body: &Vec<u8>) -> (r: Result<usize, Error>)
        requires
            old(self).wf(),
            frame.wf(),
            body@.len() == frame.length,
            frame.offset + frame.length <= usize::MAX,
        ensures
            final(self).wf(),
            ({
                let sid = frame.id;
                let role = old(self).role;
                let off = frame.offset as int;
                let end = frame.offset + frame.length;
                if sid.spec_role() == role && sid.spec_dir() is Uni {
                    (r matches Err(e) && e.kind == ErrorKind::StreamState) && *final(self) == *old(
                        self,
                    )
                } else if sid.spec_role() != role && old(self).accept_tables_healthy(
                    sid.spec_dir(),
                ) && sid.spec_index() >= old(self).stream_ids.remote.max(sid.spec_dir()) {
                    (r matches Err(e) && e.kind == ErrorKind::StreamLimit) && *final(self) == *old(
                        self,
                    )
                } else {
                    &&& final(self).ctrl_frames == old(self).ctrl_frames
                    &&& ((sid.spec_role() == role || old(self).sid_opened(sid) || !old(
                        self,
                    ).accept_tables_healthy(sid.spec_dir())) ==> match old(self).input.inner {
                        Err(_) => r == Ok::<usize, Error>(0),
                        Ok(in0) => {
                            let i = find_sid(in0.incomings@, sid, 0);
                            if i == in0.incomings@.len() {
                                r == Ok::<usize, Error>(0)
                            } else {
                                let inc = in0.incomings@[i].1;
                                match inc.err {
                                    Some(e) => r == Err::<usize, Error>(e)
                                        && (final(self).input.inner matches Ok(in2)
                                        && in2.incomings@ == in0.incomings@),
                                    None => if inc.reset {
                                        r == Ok::<usize, Error>(0) && (final(self).input.inner
                                            matches Ok(in2) && in2.incomings@ == in0.incomings@)
                                    } else {
                                        match crate::recv::spec_recv_check(
                                            inc.final_size,
                                            inc.data@.len() as int,
                                            inc.window,
                                            off,
                                            end,
                                            frame.fin,
                                        ) {
                                            Some(kind) => {
                                                &&& (r matches Err(e2) && e2.kind == kind)
                                                &&& (final(self).input.inner matches Ok(in2)
                                                    && in2.incomings@ == in0.incomings@)
                                            },
                                            None => {
                                                &&& (r matches Ok(n) && n
                                                    == crate::recv::count_newly(
                                                    inc.rcvd@,
                                                    off,
                                                    end,
                                                ))
                                                // the frame's bytes land in the
                                                // stream's reassembly state
                                                &&& (final(self).input.inner matches Ok(in2) && {
                                                    &&& in2.incomings@.len()
                                                        == in0.incomings@.len()
                                                    &&& in2.incomings@[i].0 == sid
                                                    &&& in2.incomings@[i].1.data@
                                                        == crate::recv::overlay_bytes(
                                                        inc.data@,
                                                        off,
                                                        body@,
                                                    )
                                                    &&& in2.incomings@[i].1.rcvd@
                                                        == crate::recv::overlay_rcvd(
                                                        inc.rcvd@,
                                                        off,
                                                        end,
                                                    )
                                                    &&& in2.incomings@[i].1.final_size == (
                                                    if frame.fin {
                                                        Some(end as u64)
                                                    } else {
                                                        inc.final_size
                                                    })
                                                    &&& in2.incomings@[i].1.consumed
                                                        == inc.consumed
                                                    &&& in2.incomings@[i].1.window == inc.window
                                                    &&& (forall|j: int|
                                                        0 <= j < in2.incomings@.len() && j != i
                                                            ==> (#[trigger] in2.incomings@[j])
                                                            == in0.incomings@[j])
                                                })
                                            },
                                        }
                                    },
                                }
                            }
                        },
                    })
                    &&& (sid.spec_role() != role && !old(self).sid_opened(sid) && old(
                        self,
                    ).accept_tables_healthy(sid.spec_dir()) ==> {
                        let bufsz = if sid.spec_dir() is Bi {
                            old(self).remote_bi_stream_rcvbuf_size
                        } else {
                            old(self).uni_stream_rcvbuf_size
                        };
                        match crate::recv::spec_recv_check(None, 0, bufsz, off, end, frame.fin) {
                            Some(kind) => (r matches Err(e2) && e2.kind == kind),
                            None => {
                                &&& (r matches Ok(n) && n == frame.length)
                                // the fresh stream holds exactly the frame
                                &&& (final(self).input.inner matches Ok(in2) && forall|j: int|
                                    0 <= j < in2.incomings@.len() && (#[trigger] in2.incomings@[j]).0
                                        == sid ==> {
                                        &&& in2.incomings@[j].1.data@
                                            == crate::recv::overlay_bytes(
                                            Seq::<u8>::empty(),
                                            off,
                                            body@,
                                        )
                                        &&& in2.incomings@[j].1.rcvd@
                                            == crate::recv::overlay_rcvd(
                                            Seq::<bool>::empty(),
                                            off,
                                            end,
                                        )
                                        &&& in2.incomings@[j].1.final_size == (if frame.fin {
                                            Some(end as u64)
                                        } else {
                                            None::<u64>
                                        })
                                        &&& in2.incomings@[j].1.consumed == 0
                                        &&& in2.incomings@[j].1.window == bufsz
                                    })
                            },
                        }
                    })
                }
            }),
    {
        let sid = frame.id;
        if sid.role() != self.role {
            proof {
                assert(sid.spec_role() == old(self).role.spec_peer());
            }
            let acc = match sid.dir() {
                Dir::Bi => self.try_accept_bi_sid(sid),
                Dir::Uni => self.try_accept_uni_sid(sid),
            };
            if let Err(e) = acc {
                return Err(wrapper_error(FrameType::Stream, e));
            }
        } else {
            if matches!(sid.dir(), Dir::Uni) {
                return Err(
                    Error::new(
                        ErrorKind::StreamState,
                        FrameType::Stream,
                        "a locally initiated unidirectional stream cannot receive STREAM",
                    ),
                );
            }
        }
        proof {
            if sid.spec_role() != old(self).role && !old(self).sid_opened(sid) && old(
                self,
            ).accept_tables_healthy(sid.spec_dir()) {
                if old(self).input.inner is Ok {
                    assert(!has_sid(old(self).input.inner->Ok_0.incomings@, sid)) by {
                        if has_sid(old(self).input.inner->Ok_0.incomings@, sid) {
                            let j = choose|j: int|
                                0 <= j < old(self).input.inner->Ok_0.incomings@.len() && (
                                #[trigger] old(self).input.inner->Ok_0.incomings@[j]).0 == sid;
                            assert(old(self).sid_opened(sid));
                        }
                    }
                    assert(in_accept_range(
                        old(self).role.spec_peer(),
                        sid.spec_dir(),
                        old(self).stream_ids.remote.unallocated(sid.spec_dir()),
                        sid,
                        sid,
                    ));
                }
            }
        }
        let ghost mid = *self;
        match &mut self.input.inner {
            Ok(ii) => {
                let i = find_sid_index(&ii.incomings, sid);
                if i < ii.incomings.len() {
                    let ghost pre_q = ii.incomings@;
                    let inc: &mut Incoming = &mut ii.incomings[i].1;
                    let res = inc.recv_data(frame, body);
                    proof {
                        assert forall|k: int|
                            0 <= k < ii.incomings@.len() implies self.sid_opened(
                            (#[trigger] ii.incomings@[k]).0,
                        ) by {
                            assert(ii.incomings@[k].0 == pre_q[k].0);
                            assert(mid.sid_opened(pre_q[k].0));
                        }
                        if pre_q[i as int].1.rcvd@.len() <= frame.offset as int {
                            crate::recv::lemma_count_newly_all(
                                pre_q[i as int].1.rcvd@,
                                frame.offset as int,
                                frame.offset + frame.length,
                            );
                        }
                        if ii.incomings@[i as int].1 == pre_q[i as int].1 {
                            assert(ii.incomings@ =~= pre_q);
                        }
                        if pre_q[i as int].1.data@.len() == 0 && pre_q[i as int].1.rcvd@.len()
                            == 0 {
                            assert(crate::recv::overlay_bytes(
                                pre_q[i as int].1.data@,
                                frame.offset as int,
                                body@,
                            ) =~= crate::recv::overlay_bytes(
                                Seq::<u8>::empty(),
                                frame.offset as int,
                                body@,
                            ));
                            assert(crate::recv::overlay_rcvd(
                                pre_q[i as int].1.rcvd@,
                                frame.offset as int,
                                frame.offset + frame.length,
                            ) =~= crate::recv::overlay_rcvd(
                                Seq::<bool>::empty(),
                                frame.offset as int,
                                frame.offset + frame.length,
                            ));
                        }
                        assert forall|j: int|
                            0 <= j < ii.incomings@.len() && j != i as int implies (
                        #[trigger] ii.incomings@[j]).0 != sid by {
                            assert(ii.incomings@[j].0 == pre_q[j].0);
                            assert(ii.incomings@[i as int].0 == pre_q[i as int].0);
                            if j < i as int {
                                assert(pre_q[j].0.id < pre_q[i as int].0.id);
                            } else {
                                assert(pre_q[i as int].0.id < pre_q[j].0.id);
                            }
                        }
                    }
                    res
                } else {
                    Ok(0)
                }
            },
            Err(_) => Ok(0),
        }
    }

    /// Dispatches one inbound stream control frame.
    ///
    /// Every frame that names a peer stream first auto-opens skipped IDs
    /// (`StreamLimit` beyond the advertised ceiling); frames that only the
    /// other role may legally send raise `StreamState`. A STOP_SENDING that
    /// actually stops a stream queues a RESET_STREAM carrying application
    /// error code zero and the stream's written offset as its final size; a
    /// RESET_STREAM retires the receive half after validating its final
    /// size; MAX_STREAM_DATA widens the send window; MAX_STREAMS raises the
    /// local open ceilings; the blocked frames are informational.
    #[verifier::rlimit(100)]
    pub fn recv_stream_control(&mut self, stream_ctl_frame: &StreamCtlFrame) -> (r: Result<
        (),
        Error,
    >)
        requires
            old(self).wf(),
            stream_ctl_frame.wf(),
        ensures
            final(self).wf(),
            match *stream_ctl_frame {
                StreamCtlFrame::ResetStream(reset) => {
                    let sid = reset.stream_id;
                    let role = old(self).role;
                    if sid.spec_role() == role && sid.spec_dir() is Uni {
                        (r matches Err(e) && e.kind == ErrorKind::StreamState) && *final(self)
                            == *old(self)
                    } else if sid.spec_role() != role && old(self).accept_tables_healthy(
                        sid.spec_dir(),
                    ) && sid.spec_index() >= old(self).stream_ids.remote.max(sid.spec_dir()) {
                        (r matches Err(e) && e.kind == ErrorKind::StreamLimit) && *final(self)
                            == *old(self)
                    } else {
                        &&& final(self).ctrl_frames == old(self).ctrl_frames
                        &&& ((sid.spec_role() == role || old(self).sid_opened(sid) || !old(
                            self,
                        ).accept_tables_healthy(sid.spec_dir())) ==> match old(self).input.inner {
                            Err(_) => r is Ok,
                            Ok(in0) => {
                                let i = find_sid(in0.incomings@, sid, 0);
                                if i == in0.incomings@.len() {
                                    r is Ok && final(self).input == old(self).input
                                } else {
                                    let inc = in0.incomings@[i].1;
                                    &&& (final(self).input.inner matches Ok(in2) && in2.incomings@
                                        == in0.incomings@.remove(i))
                                    &&& match inc.err {
                                        Some(e) => r == Err::<(), Error>(e),
                                        None => {
                                            let bad_size = (inc.final_size matches Some(n) && n
                                                != reset.final_size) || inc.data@.len()
                                                > reset.final_size;
                                            let bad_flow = reset.final_size > inc.window;
                                            if bad_size {
                                                r matches Err(e) && e.kind == ErrorKind::FinalSize
                                            } else if bad_flow {
                                                r matches Err(e) && e.kind
                                                    == ErrorKind::FlowControl
                                            } else {
                                                r is Ok
                                            }
                                        },
                                    }
                                }
                            },
                        })
                        &&& (sid.spec_role() != role && !old(self).sid_opened(sid) && old(
                            self,
                        ).accept_tables_healthy(sid.spec_dir()) ==> {
                            let bufsz = if sid.spec_dir() is Bi {
                                old(self).remote_bi_stream_rcvbuf_size
                            } else {
                                old(self).uni_stream_rcvbuf_size
                            };
                            &&& (final(self).input.inner matches Ok(in2) && !has_sid(
                                in2.incomings@,
                                sid,
                            ))
                            &&& (if reset.final_size > bufsz {
                                r matches Err(e) && e.kind == ErrorKind::FlowControl
                            } else {
                                r is Ok
                            })
                        })
                    }
                },
                StreamCtlFrame::StopSending(ss) => {
                    let sid = ss.stream_id;
                    let role = old(self).role;
                    if sid.spec_role() != role && sid.spec_dir() is Uni {
                        (r matches Err(e) && e.kind == ErrorKind::StreamState) && *final(self)
                            == *old(self)
                    } else if sid.spec_role() != role && old(self).accept_tables_healthy(Dir::Bi)
                        && sid.spec_index() >= old(self).stream_ids.remote.max(Dir::Bi) {
                        (r matches Err(e) && e.kind == ErrorKind::StreamLimit) && *final(self)
                            == *old(self)
                    } else {
                        &&& r is Ok
                        &&& ((sid.spec_role() == role || old(self).sid_opened(sid) || !old(
                            self,
                        ).accept_tables_healthy(Dir::Bi)) ==> match old(self).output.inner {
                            Err(_) => final(self).ctrl_frames == old(self).ctrl_frames,
                            Ok(out0) => {
                                let i = find_sid(out0.outgoings@, sid, 0);
                                if i == out0.outgoings@.len() {
                                    final(self).ctrl_frames == old(self).ctrl_frames
                                } else {
                                    match out0.outgoings@[i].1@ {
                                        Ok(s) => match sender_buf(s) {
                                            Some(b) => {
                                                &&& final(self).ctrl_frames.queued() == old(
                                                    self,
                                                ).ctrl_frames.queued().push(
                                                    StreamCtlFrame::ResetStream(
                                                        (ResetStreamFrame {
                                                            stream_id: sid,
                                                            app_error_code: 0,
                                                            final_size: b.data.len() as u64,
                                                        }),
                                                    ),
                                                )
                                                &&& (final(self).output.inner matches Ok(out2)
                                                    && out2.outgoings@.len()
                                                    == out0.outgoings@.len()
                                                    && out2.outgoings@[i].1@ == Ok::<
                                                    SenderV,
                                                    Error,
                                                >(SenderV::ResetSent(b.data.len() as u64)))
                                            },
                                            None => final(self).ctrl_frames == old(
                                                self,
                                            ).ctrl_frames,
                                        },
                                        Err(_) => final(self).ctrl_frames == old(
                                            self,
                                        ).ctrl_frames,
                                    }
                                }
                            },
                        })
                        &&& (sid.spec_role() != role && !old(self).sid_opened(sid) && old(
                            self,
                        ).accept_tables_healthy(Dir::Bi) ==> final(self).ctrl_frames.queued()
                            == old(self).ctrl_frames.queued().push(
                            StreamCtlFrame::ResetStream(
                                (ResetStreamFrame {
                                    stream_id: sid,
                                    app_error_code: 0,
                                    final_size: 0,
                                }),
                            ),
                        ))
                    }
                },
                StreamCtlFrame::MaxStreamData(msd) => {
                    let sid = msd.stream_id;
                    let role = old(self).role;
                    if sid.spec_role() != role && sid.spec_dir() is Uni {
                        (r matches Err(e) && e.kind == ErrorKind::StreamState) && *final(self)
                            == *old(self)
                    } else if sid.spec_role() != role && old(self).accept_tables_healthy(Dir::Bi)
                        && sid.spec_index() >= old(self).stream_ids.remote.max(Dir::Bi) {
                        (r matches Err(e) && e.kind == ErrorKind::StreamLimit) && *final(self)
                            == *old(self)
                    } else {
                        &&& r is Ok
                        &&& final(self).ctrl_frames == old(self).ctrl_frames
                        &&& ((sid.spec_role() == role || old(self).sid_opened(sid) || !old(
                            self,
                        ).accept_tables_healthy(Dir::Bi)) ==> match old(self).output.inner {
                            Err(_) => true,
                            Ok(out0) => {
                                let i = find_sid(out0.outgoings@, sid, 0);
                                if i == out0.outgoings@.len() {
                                    true
                                } else {
                                    final(self).output.inner matches Ok(out2) && out2.outgoings@[i].1@
                                        == crate::sender::window_transition(
                                        out0.outgoings@[i].1@,
                                        msd.max_stream_data,
                                    ) && out2.outgoings@.len() == out0.outgoings@.len()
                                }
                            },
                        })
                    }
                },
                StreamCtlFrame::StreamDataBlocked(sdb) => {
                    let sid = sdb.stream_id;
                    let role = old(self).role;
                    if sid.spec_role() == role && sid.spec_dir() is Uni {
                        (r matches Err(e) && e.kind == ErrorKind::StreamState) && *final(self)
                            == *old(self)
                    } else if sid.spec_role() != role && old(self).accept_tables_healthy(
                        sid.spec_dir(),
                    ) && sid.spec_index() >= old(self).stream_ids.remote.max(sid.spec_dir()) {
                        (r matches Err(e) && e.kind == ErrorKind::StreamLimit) && *final(self)
                            == *old(self)
                    } else {
                        // informational, but a peer ID still auto-opens the
                        // skipped IDs of its quadrant
                        &&& r is Ok
                        &&& final(self).ctrl_frames == old(self).ctrl_frames
                        &&& (sid.spec_role() == role ==> *final(self) == *old(self))
                        &&& (sid.spec_role() != role && !old(self).accept_tables_healthy(
                            sid.spec_dir(),
                        ) ==> *final(self) == *old(self))
                        &&& (sid.spec_role() != role && old(self).sid_opened(sid) ==> *final(self)
                            == *old(self))
                        &&& (sid.spec_role() != role && old(self).accept_tables_healthy(
                            sid.spec_dir(),
                        ) ==> forall|m: StreamId|
                            m.wf() && m.spec_role() == old(self).role.spec_peer()
                                ==> (#[trigger] final(self).sid_opened(m) <==> old(
                            self,
                            ).sid_opened(m) || (m.spec_dir() == sid.spec_dir() && m.id
                                <= sid.id)))
                    }
                },
                StreamCtlFrame::MaxStreams(ms) => {
                    &&& r is Ok
                    &&& final(self).output == old(self).output
                    &&& final(self).input == old(self).input
                    &&& final(self).listener == old(self).listener
                    &&& final(self).ctrl_frames == old(self).ctrl_frames
                    &&& final(self).stream_ids.remote == old(self).stream_ids.remote
                    &&& (match ms {
                        MaxStreamsFrame::Bi(n) => final(self).stream_ids.local.max(Dir::Bi) == (
                        if n > old(self).stream_ids.local.max(Dir::Bi) {
                            if n < crate::sid::MAX_STREAMS_LIMIT {
                                n
                            } else {
                                crate::sid::MAX_STREAMS_LIMIT
                            }
                        } else {
                            old(self).stream_ids.local.max(Dir::Bi)
                        }) && final(self).stream_ids.local.max(Dir::Uni) == old(
                            self,
                        ).stream_ids.local.max(Dir::Uni),
                        MaxStreamsFrame::Uni(n) => final(self).stream_ids.local.max(Dir::Uni) == (
                        if n > old(self).stream_ids.local.max(Dir::Uni) {
                            if n < crate::sid::MAX_STREAMS_LIMIT {
                                n
                            } else {
                                crate::sid::MAX_STREAMS_LIMIT
                            }
                        } else {
                            old(self).stream_ids.local.max(Dir::Uni)
                        }) && final(self).stream_ids.local.max(Dir::Bi) == old(
                            self,
                        ).stream_ids.local.max(Dir::Bi),
                    })
                    &&& final(self).stream_ids.local.allocated(Dir::Bi) == old(
                        self,
                    ).stream_ids.local.allocated(Dir::Bi)
                    &&& final(self).stream_ids.local.allocated(Dir::Uni) == old(
                        self,
                    ).stream_ids.local.allocated(Dir::Uni)
                },
                StreamCtlFrame::StreamsBlocked(_) => r is Ok && *final(self) == *old(self),
            },
    {
        match stream_ctl_frame {
            StreamCtlFrame::ResetStream(reset) => {
                let sid = reset.stream_id;
                if sid.role() != self.role {
                    proof {
                        assert(sid.spec_role() == old(self).role.spec_peer());
                    }
                    let acc = match sid.dir() {
                        Dir::Bi => self.try_accept_bi_sid(sid),
                        Dir::Uni => self.try_accept_uni_sid(sid),
                    };
                    if let Err(e) = acc {
                        return Err(wrapper_error(FrameType::ResetStream, e));
                    }
                } else {
                    if matches!(sid.dir(), Dir::Uni) {
                        return Err(
                            Error::new(
                                ErrorKind::StreamState,
                                FrameType::ResetStream,
                                "a locally initiated unidirectional stream cannot be reset by the peer",
                            ),
                        );
                    }
                }
                proof {
                    if sid.spec_role() != old(self).role && !old(self).sid_opened(sid) && old(
                        self,
                    ).accept_tables_healthy(sid.spec_dir()) {
                        if old(self).input.inner is Ok {
                            assert(!has_sid(old(self).input.inner->Ok_0.incomings@, sid)) by {
                                if has_sid(old(self).input.inner->Ok_0.incomings@, sid) {
                                    let j = choose|j: int|
                                        0 <= j < old(self).input.inner->Ok_0.incomings@.len() && (
                                        #[trigger] old(self).input.inner->Ok_0.incomings@[j]).0
                                            == sid;
                                    assert(old(self).sid_opened(sid));
                                }
                            }
                            assert(in_accept_range(
                                old(self).role.spec_peer(),
                                sid.spec_dir(),
                                old(self).stream_ids.remote.unallocated(sid.spec_dir()),
                                sid,
                                sid,
                            ));
                        }
                    }
                }
                let ghost mid = *self;
                match &mut self.input.inner {
                    Ok(ii) => {
                        let i = find_sid_index(&ii.incomings, sid);
                        if i < ii.incomings.len() {
                            let ghost pre_q = ii.incomings@;
                            let mut pair = ii.incomings.remove(i);
                            proof {
                                lemma_sorted_remove(pre_q, ii.incomings@, i as int);
                                assert forall|k: int|
                                    0 <= k < ii.incomings@.len() implies self.sid_opened(
                                    (#[trigger] ii.incomings@[k]).0,
                                ) by {
                                    if k < i {
                                        assert(ii.incomings@[k].0 == pre_q[k].0);
                                        assert(mid.sid_opened(pre_q[k].0));
                                    } else {
                                        assert(ii.incomings@[k].0 == pre_q[k + 1].0);
                                        assert(mid.sid_opened(pre_q[k + 1].0));
                                    }
                                }
                            }
                            match pair.1.recv_reset(reset) {
                                Ok(_) => Ok(()),
                                Err(e) => Err(e),
                            }
                        } else {
                            Ok(())
                        }
                    },
                    Err(_) => Ok(()),
                }
            },
            StreamCtlFrame::StopSending(ss) => {
                let sid = ss.stream_id;
                if sid.role() != self.role {
                    if matches!(sid.dir(), Dir::Uni) {
                        return Err(
                            Error::new(
                                ErrorKind::StreamState,
                                FrameType::StopSending,
                                "the peer does not send on its own unidirectional stream",
                            ),
                        );
                    }
                    proof {
                        assert(sid.spec_role() == old(self).role.spec_peer());
                    }
                    if let Err(e) = self.try_accept_bi_sid(sid) {
                        return Err(wrapper_error(FrameType::StopSending, e));
                    }
                }
                proof {
                    if sid.spec_role() != old(self).role && !old(self).sid_opened(sid) && old(
                        self,
                    ).accept_tables_healthy(Dir::Bi) {
                        assert(!has_sid(old(self).output.inner->Ok_0.outgoings@, sid)) by {
                            if has_sid(old(self).output.inner->Ok_0.outgoings@, sid) {
                                let j = choose|j: int|
                                    0 <= j < old(self).output.inner->Ok_0.outgoings@.len() && (
                                    #[trigger] old(self).output.inner->Ok_0.outgoings@[j]).0
                                        == sid;
                                assert(old(self).sid_opened(sid));
                            }
                        }
                        assert(in_accept_range(
                            old(self).role.spec_peer(),
                            Dir::Bi,
                            old(self).stream_ids.remote.unallocated(Dir::Bi),
                            sid,
                            sid,
                        ));
                    }
                }
                let ghost mid = *self;
                let mut fs_opt: Option<u64> = None;
                match &mut self.output.inner {
                    Ok(o) => {
                        let i = find_sid_index(&o.outgoings, sid);
                        if i < o.outgoings.len() {
                            let ghost pre_q = o.outgoings@;
                            let og: &mut Outgoing = &mut o.outgoings[i].1;
                            let stopped = og.stop();
                            if stopped {
                                fs_opt = og.reset_final_size();
                            }
                            proof {
                                assert forall|k: int|
                                    0 <= k < o.outgoings@.len() implies self.sid_opened(
                                    (#[trigger] o.outgoings@[k]).0,
                                ) by {
                                    assert(o.outgoings@[k].0 == pre_q[k].0);
                                    assert(mid.sid_opened(pre_q[k].0));
                                }
                            }
                        }
                    },
                    Err(_) => {},
                }
                match fs_opt {
                    Some(fs) => {
                        let mut v: Vec<StreamCtlFrame> = Vec::new();
                        v.push(
                            StreamCtlFrame::ResetStream(
                                ResetStreamFrame { stream_id: sid, app_error_code: 0, final_size: fs },
                            ),
                        );
                        let ghost q0 = self.ctrl_frames.queued();
                        self.ctrl_frames.send_frame(v);
                        proof {
                            assert(self.ctrl_frames.queued() =~= q0.push(
                                StreamCtlFrame::ResetStream(
                                    (ResetStreamFrame {
                                        stream_id: sid,
                                        app_error_code: 0,
                                        final_size: fs,
                                    }),
                                ),
                            ));
                        }
                        Ok(())
                    },
                    None => Ok(()),
                }
            },
            StreamCtlFrame::MaxStreamData(msd) => {
                let sid = msd.stream_id;
                if sid.role() != self.role {
                    if matches!(sid.dir(), Dir::Uni) {
                        return Err(
                            Error::new(
                                ErrorKind::StreamState,
                                FrameType::MaxStreamData,
                                "the peer does not receive on its own unidirectional stream",
                            ),
                        );
                    }
                    proof {
                        assert(sid.spec_role() == old(self).role.spec_peer());
                    }
                    if let Err(e) = self.try_accept_bi_sid(sid) {
                        return Err(wrapper_error(FrameType::MaxStreamData, e));
                    }
                }
                let ghost mid = *self;
                match &mut self.output.inner {
                    Ok(o) => {
                        let i = find_sid_index(&o.outgoings, sid);
                        if i < o.outgoings.len() {
                            let ghost pre_q = o.outgoings@;
                            let og: &mut Outgoing = &mut o.outgoings[i].1;
                            og.update_window(msd.max_stream_data);
                            proof {
                                assert forall|k: int|
                                    0 <= k < o.outgoings@.len() implies self.sid_opened(
                                    (#[trigger] o.outgoings@[k]).0,
                                ) by {
                                    assert(o.outgoings@[k].0 == pre_q[k].0);
                                    assert(mid.sid_opened(pre_q[k].0));
                                }
                            }
                        }
                    },
                    Err(_) => {},
                }
                Ok(())
            },
            StreamCtlFrame::StreamDataBlocked(sdb) => {
                let sid = sdb.stream_id;
                if sid.role() != self.role {
                    proof {
                        assert(sid.spec_role() == old(self).role.spec_peer());
                    }
                    let acc = self.try_accept_sid(sid);
                    if let Err(e) = acc {
                        return Err(wrapper_error(FrameType::StreamDataBlocked, e));
                    }
                } else {
                    if matches!(sid.dir(), Dir::Uni) {
                        return Err(
                            Error::new(
                                ErrorKind::StreamState,
                                FrameType::StreamDataBlocked,
                                "only the sender of a stream reports itself blocked",
                            ),
                        );
                    }
                }
                // informational; the receive window policy is a hook for
                // the embedding connection
                Ok(())
            },
            StreamCtlFrame::MaxStreams(ms) => {
                match ms {
                    MaxStreamsFrame::Bi(n) => {
                        self.stream_ids.local.permit_max_sid(Dir::Bi, *n);
                    },
                    MaxStreamsFrame::Uni(n) => {
                        self.stream_ids.local.permit_max_sid(Dir::Uni, *n);
                    },
                }
                Ok(())
            },
            StreamCtlFrame::StreamsBlocked(_) => Ok(()),
        }
    }

    /// Writes application data to the send half of `sid`; the accepted
    /// prefix length is returned, bounded by the stream's flow window.
    pub fn write_to(&mut self, sid: StreamId, data: &[u8]) -> (r: Result<usize, Error>)
        requires
            old(self).wf(),
        ensures
            final(self).wf(),
            match old(self).output.inner {
                Err(e) => r == Err::<usize, Error>(e),
                Ok(out0) => {
                    let i = find_sid(out0.outgoings@, sid, 0);
                    if i == out0.outgoings@.len() {
                        (r matches Err(e) && e.kind == ErrorKind::InvalidInput) && *final(self)
                            == *old(self)
                    } else {
                        &&& (final(self).output.inner matches Ok(out2) && out2.outgoings@.len()
                            == out0.outgoings@.len() && out2.outgoings@[i].0 == sid)
                        &&& (match sender_buf(out0.outgoings@[i].1@->Ok_0) {
                            Some(b) => (out0.outgoings@[i].1@ matches Ok(s) && (s is Ready || s
                                is Sending) && !b.shutdown) ==> (r matches Ok(n) && n
                                == crate::sendbuf::imin(data@.len() as int, b.window - b.data.len())
                                && (final(self).output.inner matches Ok(out2)
                                && sender_buf(out2.outgoings@[i].1@->Ok_0) matches Some(b2)
                                && b2.data == b.data + data@.take(
                                    crate::sendbuf::imin(data@.len() as int, b.window - b.data.len()),
                                ))),
                            None => r is Err,
                        })
                    }
                },
            },
    {
        match &mut self.output.inner {
            Ok(o) => {
                let i = find_sid_index(&o.outgoings, sid);
                if i < o.outgoings.len() {
                    let ghost pre_q = o.outgoings@;
                    let og: &mut Outgoing = &mut o.outgoings[i].1;
                    let r = og.write(data);
                    proof {
                        assert forall|k: int|
                            0 <= k < o.outgoings@.len() implies self.sid_opened(
                            (#[trigger] o.outgoings@[k]).0,
                        ) by {
                            assert(o.outgoings@[k].0 == pre_q[k].0);
                            assert(old(self).sid_opened(pre_q[k].0));
                        }
                    }
                    r
                } else {
                    Err(
                        Error::new(
                            ErrorKind::InvalidInput,
                            FrameType::Stream,
                            "no such send stream",
                        ),
                    )
                }
            },
            Err(e) => Err(*e),
        }
    }

    /// Closes the send half of `sid` for writing: its final size is frozen
    /// at the written offset.
    pub fn shutdown_stream(&mut self, sid: StreamId) -> (r: Result<(), Error>)
        requires
            old(self).wf(),
        ensures
            final(self).wf(),
            match old(self).output.inner {
                Err(e) => r == Err::<(), Error>(e),
                Ok(out0) => {
                    let i = find_sid(out0.outgoings@, sid, 0);
                    if i == out0.outgoings@.len() {
                        (r matches Err(e) && e.kind == ErrorKind::InvalidInput) && *final(self)
                            == *old(self)
                    } else {
                        &&& (final(self).output.inner matches Ok(out2) && out2.outgoings@.len()
                            == out0.outgoings@.len() && out2.outgoings@[i].0 == sid
                            && out2.outgoings@[i].1@ == crate::sender::shutdown_transition(
                            out0.outgoings@[i].1@,
                        ).0)
                        &&& (out0.outgoings@[i].1.err is None ==> (r is Ok
                            <==> crate::sender::shutdown_transition(out0.outgoings@[i].1@).1))
                    }
                },
            },
    {
        match &mut self.output.inner {
            Ok(o) => {
                let i = find_sid_index(&o.outgoings, sid);
                if i < o.outgoings.len() {
                    let ghost pre_q = o.outgoings@;
                    let og: &mut Outgoing = &mut o.outgoings[i].1;
                    let r = og.shutdown();
                    proof {
                        assert forall|k: int|
                            0 <= k < o.outgoings@.len() implies self.sid_opened(
                            (#[trigger] o.outgoings@[k]).0,
                        ) by {
                            assert(o.outgoings@[k].0 == pre_q[k].0);
                            assert(old(self).sid_opened(pre_q[k].0));
                        }
                    }
                    r
                } else {
                    Err(
                        Error::new(
                            ErrorKind::InvalidInput,
                            FrameType::Stream,
                            "no such send stream",
                        ),
                    )
                }
            },
            Err(e) => Err(*e),
        }
    }

    /// Hands the application up to `max` bytes of the received contiguous
    /// prefix of `sid`.
    pub fn read_from(&mut self, sid: StreamId, max: usize) -> (r: Result<Vec<u8>, Error>)
        requires
            old(self).wf(),
        ensures
            final(self).wf(),
            match old(self).input.inner {
                Err(e) => r == Err::<Vec<u8>, Error>(e),
                Ok(in0) => {
                    let i = find_sid(in0.incomings@, sid, 0);
                    if i == in0.incomings@.len() {
                        (r matches Err(e) && e.kind == ErrorKind::InvalidInput) && *final(self)
                            == *old(self)
                    } else {
                        let inc = in0.incomings@[i].1;
                        &&& (final(self).input.inner matches Ok(in2) && in2.incomings@.len()
                            == in0.incomings@.len() && in2.incomings@[i].0 == sid)
                        &&& (r matches Ok(v) && {
                            &&& v@.len() <= max
                            &&& v@ == inc.data@.subrange(
                                inc.consumed as int,
                                inc.consumed + v@.len(),
                            )
                            // maximality: a short read means the data or the
                            // received prefix ran out, never that bytes were
                            // withheld
                            &&& (v@.len() < max ==> inc.consumed + v@.len() == inc.data@.len()
                                || !inc.rcvd@[inc.consumed + v@.len()])
                            &&& (final(self).input.inner matches Ok(in2)
                                && in2.incomings@[i].1.consumed == inc.consumed + v@.len())
                        })
                    }
                },
            },
    {
        match &mut self.input.inner {
            Ok(ii) => {
                let i = find_sid_index(&ii.incomings, sid);
                if i < ii.incomings.len() {
                    let ghost pre_q = ii.incomings@;
                    let inc: &mut Incoming = &mut ii.incomings[i].1;
                    let v = inc.read(max);
                    proof {
                        assert forall|k: int|
                            0 <= k < ii.incomings@.len() implies self.sid_opened(
                            (#[trigger] ii.incomings@[k]).0,
                        ) by {
                            assert(ii.incomings@[k].0 == pre_q[k].0);
                            assert(old(self).sid_opened(pre_q[k].0));
                        }
                    }
                    Ok(v)
                } else {
                    Err(
                        Error::new(
                            ErrorKind::InvalidInput,
                            FrameType::Stream,
                            "no such receive stream",
                        ),
                    )
                }
            },
            Err(e) => Err(*e),
        }
    }

    /// The lifecycle tag of the send half of `sid`: `None` when the table
    /// is dead, the stream is gone, or the stream itself was torn down.
    pub fn send_state_of(&self, sid: StreamId) -> (r: Option<crate::sender::SendState>)
        ensures
            match self.output.inner {
                Err(_) => r is None,
                Ok(out0) => {
                    let i = find_sid(out0.outgoings@, sid, 0);
                    if i == out0.outgoings@.len() {
                        r is None
                    } else {
                        r == (if out0.outgoings@[i].1.err is None {
                            Some(out0.outgoings@[i].1.state)
                        } else {
                            None::<crate::sender::SendState>
                        })
                    }
                },
            },
    {
        match &self.output.inner {
            Ok(o) => {
                let i = find_sid_index(&o.outgoings, sid);
                if i < o.outgoings.len() {
                    o.outgoings[i].1.current_state()
                } else {
                    None
                }
            },
            Err(_) => None,
        }
    }

    /// The lifecycle state of the receive half of `sid`.
    pub fn recv_state_of(&self, sid: StreamId) -> (r: Option<crate::recv::RecvState>)
        requires
            self.wf(),
        ensures
            match self.input.inner {
                Err(_) => r is None,
                Ok(in0) => {
                    let i = find_sid(in0.incomings@, sid, 0);
                    if i == in0.incomings@.len() {
                        r is None
                    } else {
                        r == (if in0.incomings@[i].1.err is None {
                            Some(in0.incomings@[i].1.spec_state())
                        } else {
                            None::<crate::recv::RecvState>
                        })
                    }
                },
            },
    {
        match &self.input.inner {
            Ok(ii) => {
                let i = find_sid_index(&ii.incomings, sid);
                if i < ii.incomings.len() {
                    proof {
                        assert(ii.incomings@[i as int].1.wf());
                    }
                    ii.incomings[i].1.current_state()
                } else {
                    None
                }
            },
            Err(_) => None,
        }
    }

    /// Whether the send table still holds `sid`.
    pub fn has_send_stream(&self, sid: StreamId) -> (r: bool)
        ensures
            r == (self.output.inner matches Ok(o) && has_sid(o.outgoings@, sid)),
    {
        match &self.output.inner {
            Ok(o) => find_sid_index(&o.outgoings, sid) < o.outgoings.len(),
            Err(_) => false,
        }
    }

    /// Whether the receive table still holds `sid`.
    pub fn has_recv_stream(&self, sid: StreamId) -> (r: bool)
        ensures
            r == (self.input.inner matches Ok(o) && has_sid(o.incomings@, sid)),
    {
        match &self.input.inner {
            Ok(o) => find_sid_index(&o.incomings, sid) < o.incomings.len(),
            Err(_) => false,
        }
    }

    /// The application cancelled the send half of `sid` with `err_code`:
    /// if the stream still owned data it moves to ResetSent and a
    /// RESET_STREAM with the frozen final size is queued. This is the
    /// decision half of the per-stream cancellation watcher; the embedding
    /// connection delivers the event.
    pub fn on_stream_cancelled(&mut self, sid: StreamId, err_code: u64) -> (r: Option<(u64, u64)>)
        requires
            old(self).wf(),
            err_code <= crate::varint::VARINT_MAX,
        ensures
            final(self).wf(),
            match old(self).output.inner {
                Err(_) => r is None && *final(self) == *old(self),
                Ok(out0) => {
                    let i = find_sid(out0.outgoings@, sid, 0);
                    if i == out0.outgoings@.len() {
                        r is None && *final(self) == *old(self)
                    } else {
                        match out0.outgoings@[i].1@ {
                            Ok(s) => match sender_buf(s) {
                                Some(b) => {
                                    &&& r == Some((b.data.len() as u64, err_code))
                                    &&& final(self).ctrl_frames.queued() == old(
                                        self,
                                    ).ctrl_frames.queued().push(
                                        StreamCtlFrame::ResetStream(
                                            (ResetStreamFrame {
                                                stream_id: sid,
                                                app_error_code: err_code,
                                                final_size: b.data.len() as u64,
                                            }),
                                        ),
                                    )
                                    &&& (final(self).output.inner matches Ok(out2)
                                        && out2.outgoings@.len() == out0.outgoings@.len()
                                        && out2.outgoings@[i].1@ == Ok::<SenderV, Error>(
                                        SenderV::ResetSent(b.data.len() as u64),
                                    ))
                                },
                                None => r is None && final(self).ctrl_frames == old(
                                    self,
                                ).ctrl_frames,
                            },
                            Err(_) => r is None && final(self).ctrl_frames == old(
                                self,
                            ).ctrl_frames,
                        }
                    }
                },
            },
    {
        let ghost mid = *self;
        let mut out: Option<(u64, u64)> = None;
        match &mut self.output.inner {
            Ok(o) => {
                let i = find_sid_index(&o.outgoings, sid);
                if i < o.outgoings.len() {
                    let ghost pre_q = o.outgoings@;
                    let og: &mut Outgoing = &mut o.outgoings[i].1;
                    let cancelled = og.is_cancelled_by_app(err_code);
                    out = cancelled.0;
                    proof {
                        assert forall|k: int|
                            0 <= k < o.outgoings@.len() implies self.sid_opened(
                            (#[trigger] o.outgoings@[k]).0,
                        ) by {
                            assert(o.outgoings@[k].0 == pre_q[k].0);
                            assert(mid.sid_opened(pre_q[k].0));
                        }
                    }
                } else {
                    return None;
                }
            },
            Err(_) => {
                return None;
            },
        }
        match out {
            Some((fs, ec)) => {
                let mut v: Vec<StreamCtlFrame> = Vec::new();
                v.push(
                    StreamCtlFrame::ResetStream(
                        ResetStreamFrame { stream_id: sid, app_error_code: ec, final_size: fs },
                    ),
                );
                let ghost q0 = self.ctrl_frames.queued();
                self.ctrl_frames.send_frame(v);
                proof {
                    assert(self.ctrl_frames.queued() =~= q0.push(
                        StreamCtlFrame::ResetStream(
                            (ResetStreamFrame {
                                stream_id: sid,
                                app_error_code: ec,
                                final_size: fs,
                            }),
                        ),
                    ));
                }
                Some((fs, ec))
            },
            None => None,
        }
    }

    /// Advances the receive window of `sid` if its consumed prefix crossed
    /// the advertisement threshold, queueing the MAX_STREAM_DATA frame.
    /// This is the decision half of the per-stream window watcher.
    pub fn on_need_update_window(&mut self, sid: StreamId) -> (r: Option<u64>)
        requires
            old(self).wf(),
        ensures
            final(self).wf(),
            match old(self).input.inner {
                Err(_) => r is None && *final(self) == *old(self),
                Ok(in0) => {
                    let i = find_sid(in0.incomings@, sid, 0);
                    if i == in0.incomings@.len() {
                        r is None && *final(self) == *old(self)
                    } else {
                        let inc = in0.incomings@[i].1;
                        let due = inc.err is None && !inc.reset && inc.final_size is None
                            && inc.consumed + inc.buf_size / 2 >= inc.window && inc.consumed
                            + inc.buf_size <= crate::varint::VARINT_MAX && inc.consumed
                            + inc.buf_size > inc.window;
                        if due {
                            &&& r == Some((inc.consumed + inc.buf_size) as u64)
                            &&& final(self).ctrl_frames.queued() == old(
                                self,
                            ).ctrl_frames.queued().push(
                                StreamCtlFrame::MaxStreamData(
                                    (crate::frames::MaxStreamDataFrame {
                                        stream_id: sid,
                                        max_stream_data: (inc.consumed + inc.buf_size) as u64,
                                    }),
                                ),
                            )
                            &&& (final(self).input.inner matches Ok(in2) && in2.incomings@.len()
                                == in0.incomings@.len() && in2.incomings@[i].1.window
                                == inc.consumed + inc.buf_size)
                        } else {
                            r is None && final(self).ctrl_frames == old(self).ctrl_frames
                        }
                    }
                },
            },
    {
        let ghost mid = *self;
        let mut grown: Option<u64> = None;
        match &mut self.input.inner {
            Ok(ii) => {
                let i = find_sid_index(&ii.incomings, sid);
                if i < ii.incomings.len() {
                    let ghost pre_q = ii.incomings@;
                    let inc: &mut Incoming = &mut ii.incomings[i].1;
                    grown = inc.need_update_window();
                    proof {
                        assert forall|k: int|
                            0 <= k < ii.incomings@.len() implies self.sid_opened(
                            (#[trigger] ii.incomings@[k]).0,
                        ) by {
                            assert(ii.incomings@[k].0 == pre_q[k].0);
                            assert(mid.sid_opened(pre_q[k].0));
                        }
                    }
                } else {
                    return None;
                }
            },
            Err(_) => {
                return None;
            },
        }
        match grown {
            Some(max_data) => {
                let mut v: Vec<StreamCtlFrame> = Vec::new();
                v.push(
                    StreamCtlFrame::MaxStreamData(
                        crate::frames::MaxStreamDataFrame { stream_id: sid, max_stream_data: max_data },
                    ),
                );
                let ghost q0 = self.ctrl_frames.queued();
                self.ctrl_frames.send_frame(v);
                proof {
                    assert(self.ctrl_frames.queued() =~= q0.push(
                        StreamCtlFrame::MaxStreamData(
                            (crate::frames::MaxStreamDataFrame {
                                stream_id: sid,
                                max_stream_data: max_data,
                            }),
                        ),
                    ));
                }
                Some(max_data)
            },
            None => None,
        }
    }

    /// The application stopped reading `sid` with `err_code`: the event is
    /// delivered to the stream exactly once and a STOP_SENDING is queued.
    /// This is the decision half of the per-stream stop watcher.
    pub fn on_stopped_by_app(&mut self, sid: StreamId, err_code: u64) -> (r: Option<u64>)
        requires
            old(self).wf(),
            err_code <= crate::varint::VARINT_MAX,
        ensures
            final(self).wf(),
            match old(self).input.inner {
                Err(_) => r is None && *final(self) == *old(self),
                Ok(in0) => {
                    let i = find_sid(in0.incomings@, sid, 0);
                    if i == in0.incomings@.len() {
                        r is None && *final(self) == *old(self)
                    } else {
                        let inc = in0.incomings@[i].1;
                        let live = inc.err is None && !inc.reset && !inc.stopped;
                        if live {
                            &&& r == Some(err_code)
                            &&& final(self).ctrl_frames.queued() == old(
                                self,
                            ).ctrl_frames.queued().push(
                                StreamCtlFrame::StopSending(
                                    (crate::frames::StopSendingFrame {
                                        stream_id: sid,
                                        app_err_code: err_code,
                                    }),
                                ),
                            )
                            &&& (final(self).input.inner matches Ok(in2) && in2.incomings@.len()
                                == in0.incomings@.len() && in2.incomings@[i].1.stopped)
                        } else {
                            r is None && final(self).ctrl_frames == old(self).ctrl_frames
                        }
                    }
                },
            },
    {
        let ghost mid = *self;
        let mut stopped: Option<u64> = None;
        match &mut self.input.inner {
            Ok(ii) => {
                let i = find_sid_index(&ii.incomings, sid);
                if i < ii.incomings.len() {
                    let ghost pre_q = ii.incomings@;
                    let inc: &mut Incoming = &mut ii.incomings[i].1;
                    stopped = inc.is_stopped_by_app(err_code);
                    proof {
                        assert forall|k: int|
                            0 <= k < ii.incomings@.len() implies self.sid_opened(
                            (#[trigger] ii.incomings@[k]).0,
                        ) by {
                            assert(ii.incomings@[k].0 == pre_q[k].0);
                            assert(mid.sid_opened(pre_q[k].0));
                        }
                    }
                } else {
                    return None;
                }
            },
            Err(_) => {
                return None;
            },
        }
        match stopped {
            Some(code) => {
                let mut v: Vec<StreamCtlFrame> = Vec::new();
                v.push(
                    StreamCtlFrame::StopSending(
                        crate::frames::StopSendingFrame { stream_id: sid, app_err_code: code },
                    ),
                );
                let ghost q0 = self.ctrl_frames.queued();
                self.ctrl_frames.send_frame(v);
                proof {
                    assert(self.ctrl_frames.queued() =~= q0.push(
                        StreamCtlFrame::StopSending(
                            (crate::frames::StopSendingFrame {
                                stream_id: sid,
                                app_err_code: code,
                            }),
                        ),
                    ));
                }
                Some(code)
            },
            None => None,
        }
    }

    /// Whether the tables an acceptance of direction `dir` touches are all
    /// still healthy.
    pub open spec fn accept_tables_healthy(self, dir: Dir) -> bool {
        match dir {
            Dir::Bi => self.output.inner is Ok && self.input.inner is Ok && self.listener.inner
                is Ok,
            Dir::Uni => self.input.inner is Ok && self.listener.inner is Ok,
        }
    }

    /// Routes a peer-named ID to the acceptance path of its direction: the
    /// limit is exceeded exactly when the ID's index reaches the advertised
    /// ceiling of its quadrant, and then nothing changes. On success
    /// exactly the unopened IDs of the quadrant up to and including `sid`
    /// become open; re-observation is idempotent.
    pub fn try_accept_sid(&mut self, sid: StreamId) -> (r: Result<(), ExceedLimitError>)
        requires
            old(self).wf(),
            sid.wf(),
            sid.spec_role() == old(self).role.spec_peer(),
        ensures
            final(self).wf(),
            final(self).role == old(self).role,
            final(self).ctrl_frames == old(self).ctrl_frames,
            r is Err <==> (old(self).accept_tables_healthy(sid.spec_dir()) && sid.spec_index()
                >= old(self).stream_ids.remote.max(sid.spec_dir())),
            r is Err ==> *final(self) == *old(self),
            !old(self).accept_tables_healthy(sid.spec_dir()) ==> *final(self) == *old(self),
            (old(self).sid_opened(sid) && !(old(self).accept_tables_healthy(sid.spec_dir())
                && sid.spec_index() >= old(self).stream_ids.remote.max(sid.spec_dir())))
                ==> *final(self) == *old(self),
            // the opened set grows by exactly the quadrant's IDs up to `sid`
            (r is Ok && old(self).accept_tables_healthy(sid.spec_dir())) ==> forall|m: StreamId|
                m.wf() && m.spec_role() == old(self).role.spec_peer()
                    ==> (#[trigger] final(self).sid_opened(m) <==> old(self).sid_opened(m) || (
                m.spec_dir() == sid.spec_dir() && m.id <= sid.id)),
    {
        let r = match sid.dir() {
            Dir::Bi => self.try_accept_bi_sid(sid),
            Dir::Uni => self.try_accept_uni_sid(sid),
        };
        proof {
            if r is Ok && old(self).accept_tables_healthy(sid.spec_dir()) {
                assert forall|m: StreamId|
                    m.wf() && m.spec_role() == old(self).role.spec_peer() implies (
                #[trigger] self.sid_opened(m) <==> old(self).sid_opened(m) || (m.spec_dir()
                    == sid.spec_dir() && m.id <= sid.id)) by {
                    if m.spec_dir() == sid.spec_dir() {
                        crate::sid::lemma_quadrant_index_le(m, sid);
                    }
                }
            }
        }
        r
    }
}

/// The STREAM-frame bytes one scheduler call appends to a packet holding
/// `buflen` bytes of `capacity` under `flow_limit`; empty when nothing
/// goes out.
pub open spec fn spec_sched_bytes(
    inner: Result<RawOutput, Error>,
    buflen: int,
    capacity: int,
    flow_limit: int,
) -> Seq<u8> {
    match inner {
        Ok(out0) => match spec_candidate(out0.outgoings@, out0.cur_sending_stream) {
            Some((ci, tk)) => crate::sender::spec_emitted_bytes(
                out0.outgoings@[ci].1@,
                out0.outgoings@[ci].0,
                capacity - buflen,
                tk,
                flow_limit,
            ),
            None => Seq::empty(),
        },
        Err(_) => Seq::empty(),
    }
}

/// The fresh stream bytes that call counts against the connection flow.
pub open spec fn spec_sched_fresh(
    inner: Result<RawOutput, Error>,
    buflen: int,
    capacity: int,
    flow_limit: int,
) -> int {
    match inner {
        Ok(out0) => match spec_candidate(out0.outgoings@, out0.cur_sending_stream) {
            Some((ci, tk)) => match crate::sender::spec_try_read(
                out0.outgoings@[ci].1@,
                out0.outgoings@[ci].0,
                capacity - buflen,
                tk,
                flow_limit,
            ) {
                Some(out) => if out.2 {
                    out.1
                } else {
                    0
                },
                None => 0,
            },
            None => 0,
        },
        Err(_) => 0,
    }
}

/// Fills a packet buffer in the scheduler's priority order: first as many
/// pending control frames as fit, dequeued in enqueue order per
/// [`drain_ctl`]; then one STREAM frame chosen by the fair round-robin,
/// with its stream transition; then one DATAGRAM if room remains.
///
/// The returned count is the fresh stream bytes the packet carries: only
/// they consume connection flow credit, and they never exceed `flow_limit`.
#[verifier::loop_isolation(false)]
#[verifier::rlimit(100)]
pub fn fill_packet(
    streams: &mut RawDataStreams<crate::frames::ControlFrameQueue>,
    datagrams: &mut crate::datagram::DatagramOutgoing,
    buf: &mut Vec<u8>,
    capacity: usize,
    flow_limit: usize,
) -> (fresh: usize)
    requires
        old(streams).wf(),
        old(streams).ctrl_frames.wf(),
        old(datagrams).wf(),
        old(buf)@.len() <= capacity,
    ensures
        final(streams).wf(),
        final(streams).ctrl_frames.wf(),
        final(datagrams).wf(),
        final(buf)@.len() <= capacity,
        fresh <= flow_limit,
        ({
            let dr = crate::frames::drain_ctl(
                old(streams).ctrl_frames.frames@,
                old(buf)@,
                capacity as int,
            );
            let buf1 = dr.0;
            let buf2 = buf1 + spec_sched_bytes(
                old(streams).output.inner,
                buf1.len() as int,
                capacity as int,
                flow_limit as int,
            );
            let dg = crate::datagram::spec_datagram_emission(
                *old(datagrams),
                buf2.len() as int,
                capacity as int,
            );
            // the packet holds the dequeued control frames, the stream
            // frame, and the datagram, in that order and byte for byte
            &&& final(buf)@ == buf2 + (match dg {
                Some(em) => em.2,
                None => Seq::<u8>::empty(),
            })
            &&& final(streams).ctrl_frames.frames@ == dr.1
            &&& fresh == spec_sched_fresh(
                old(streams).output.inner,
                buf1.len() as int,
                capacity as int,
                flow_limit as int,
            )
            &&& final(streams).input == old(streams).input
            &&& final(streams).listener == old(streams).listener
            &&& final(streams).stream_ids == old(streams).stream_ids
            &&& (match old(streams).output.inner {
                Err(_) => final(streams).output == old(streams).output,
                Ok(out0) => match spec_candidate(out0.outgoings@, out0.cur_sending_stream) {
                    None => final(streams).output == old(streams).output,
                    Some((ci, tk)) => {
                        let sid = out0.outgoings@[ci].0;
                        match crate::sender::spec_try_read(
                            out0.outgoings@[ci].1@,
                            sid,
                            capacity - buf1.len(),
                            tk,
                            flow_limit as int,
                        ) {
                            None => (final(streams).output.inner matches Ok(out2)
                                && out2.outgoings@ == out0.outgoings@ && out2.cur_sending_stream
                                == Some((sid, 0usize))),
                            Some(out) => (final(streams).output.inner matches Ok(out2) && {
                                &&& out2.outgoings@.len() == out0.outgoings@.len()
                                &&& out2.outgoings@[ci].0 == sid
                                &&& out2.outgoings@[ci].1@ == Ok::<SenderV, Error>(out.4)
                                &&& (forall|j: int|
                                    0 <= j < out2.outgoings@.len() && j != ci ==> (
                                    #[trigger] out2.outgoings@[j]) == out0.outgoings@[j])
                                &&& out2.cur_sending_stream == Some((sid, (tk - out.1) as usize))
                            }),
                        }
                    },
                },
            })
            &&& (match dg {
                Some(_) => final(datagrams).writer.queue@ == old(
                    datagrams,
                ).writer.queue@.drop_first() && final(datagrams).writer.remote_max_size == old(
                    datagrams,
                ).writer.remote_max_size && final(datagrams).err is None,
                None => *final(datagrams) == *old(datagrams),
            })
        }),
{
    let ghost q0 = streams.ctrl_frames.frames@;
    let ghost b0 = buf@;
    let mut more = true;
    while more
        invariant
            streams.wf(),
            streams.ctrl_frames.wf(),
            buf@.len() <= capacity,
            streams.output == old(streams).output,
            streams.input == old(streams).input,
            streams.listener == old(streams).listener,
            streams.stream_ids == old(streams).stream_ids,
            streams.role == old(streams).role,
            crate::frames::drain_ctl(q0, b0, capacity as int) == crate::frames::drain_ctl(
                streams.ctrl_frames.frames@,
                buf@,
                capacity as int,
            ),
            !more ==> crate::frames::drain_ctl(streams.ctrl_frames.frames@, buf@, capacity as int)
                == (buf@, streams.ctrl_frames.frames@),
        decreases streams.ctrl_frames.frames@.len(), (if more {
            1int
        } else {
            0int
        }),
    {
        let ghost qpre = streams.ctrl_frames.frames@;
        let ghost bpre = buf@;
        match streams.ctrl_frames.try_read_ctl_frame(buf, capacity) {
            Some(_) => {
                proof {
                    assert(crate::frames::drain_ctl(qpre, bpre, capacity as int)
                        == crate::frames::drain_ctl(
                        streams.ctrl_frames.frames@,
                        buf@,
                        capacity as int,
                    ));
                }
            },
            None => {
                more = false;
                proof {
                    assert(crate::frames::drain_ctl(
                        streams.ctrl_frames.frames@,
                        buf@,
                        capacity as int,
                    ) == (buf@, streams.ctrl_frames.frames@));
                }
            },
        }
    }
    let ghost buf1 = buf@;
    let fresh = match streams.try_read_data(buf, capacity, flow_limit) {
        Some((_frame, _written, fresh_bytes)) => fresh_bytes,
        None => 0,
    };
    proof {
        assert(buf@ =~= buf1 + spec_sched_bytes(
            old(streams).output.inner,
            buf1.len() as int,
            capacity as int,
            flow_limit as int,
        ));
    }
    let ghost buf2 = buf@;
    let _ = datagrams.try_read_datagram(buf, capacity);
    proof {
        assert(buf@ =~= buf2 + (match crate::datagram::spec_datagram_emission(
            *old(datagrams),
            buf2.len() as int,
            capacity as int,
        ) {
            Some(em) => em.2,
            None => Seq::<u8>::empty(),
        }));
    }
    fresh
}

} // verus!
