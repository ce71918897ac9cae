//! Stream identifiers and the per-connection stream-ID registry.
//!
//! A stream ID is a 62-bit integer whose two low bits encode the initiating
//! role and the direction; the remaining bits are the index within that
//! quadrant. IDs of a quadrant are opened in increasing index order, and
//! observing an ID implicitly opens every lower ID of the same quadrant.

use vstd::prelude::*;
use crate::varint::VARINT_MAX;

verus! {

/// The ceiling on per-quadrant stream counts (`2^60`), so that
/// `index * 4 + 3` always stays a legal varint.
pub const MAX_STREAMS_LIMIT: u64 = 0x1000_0000_0000_0000;

/// Which endpoint initiated a stream.
#[derive(Clone, Copy, Debug, PartialEq, Eq, Structural)]
pub enum Role {
    Client,
    Server,
}

impl Role {
    /// The opposite role.
    pub open spec fn spec_peer(self) -> Role {
        match self {
            Role::Client => Role::Server,
            Role::Server => Role::Client,
        }
    }

    pub fn peer(self) -> (r: Role)
        ensures
            r == self.spec_peer(),
    {
        match self {
            Role::Client => Role::Server,
            Role::Server => Role::Client,
        }
    }
}

/// Whether a stream carries data both ways or one way only.
#[derive(Clone, Copy, Debug, PartialEq, Eq, Structural)]
pub enum Dir {
    Bi,
    Uni,
}

/// A stream identifier: `index * 4 + dir_bit * 2 + role_bit`.
#[derive(Clone, Copy, Debug, PartialEq, Eq, Structural)]
pub struct StreamId {
    pub id: u64,
}

impl StreamId {
    /// A legal ID fits in a varint.
    pub open spec fn wf(self) -> bool {
        self.id <= VARINT_MAX
    }

    pub open spec fn spec_role(self) -> Role {
        if self.id % 2 == 0 {
            Role::Client
        } else {
            Role::Server
        }
    }

    pub open spec fn spec_dir(self) -> Dir {
        if self.id % 4 < 2 {
            Dir::Bi
        } else {
            Dir::Uni
        }
    }

    /// The position of this stream within its quadrant.
    pub open spec fn spec_index(self) -> u64 {
        self.id / 4
    }

    /// The ID with the given quadrant and index.
    pub open spec fn spec_new(role: Role, dir: Dir, index: u64) -> StreamId {
        StreamId {
            id: (index * 4 + (if dir is Uni { 2u64 } else { 0u64 }) + (if role is Server {
                1u64
            } else {
                0u64
            })) as u64,
        }
    }

    pub fn new(role: Role, dir: Dir, index: u64) -> (sid: StreamId)
        requires
            index < MAX_STREAMS_LIMIT,
        ensures
            sid == StreamId::spec_new(role, dir, index),
            sid.wf(),
            sid.spec_role() == role,
            sid.spec_dir() == dir,
            sid.spec_index() == index,
    {
        let dir_bit: u64 = if let Dir::Uni = dir {
            2
        } else {
            0
        };
        let role_bit: u64 = if let Role::Server = role {
            1
        } else {
            0
        };
        StreamId { id: index * 4 + dir_bit + role_bit }
    }

    pub fn role(&self) -> (r: Role)
        ensures
            r == self.spec_role(),
    {
        if self.id % 2 == 0 {
            Role::Client
        } else {
            Role::Server
        }
    }

    pub fn dir(&self) -> (d: Dir)
        ensures
            d == self.spec_dir(),
    {
        if self.id % 4 < 2 {
            Dir::Bi
        } else {
            Dir::Uni
        }
    }

    pub fn index(&self) -> (i: u64)
        ensures
            i == self.spec_index(),
    {
        self.id / 4
    }
}

/// Within one quadrant (same role and direction), ID order and index order
/// agree.
pub proof fn lemma_quadrant_index_le(a: StreamId, b: StreamId)
    requires
        a.spec_role() == b.spec_role(),
        a.spec_dir() == b.spec_dir(),
    ensures
        (a.id <= b.id) <==> (a.spec_index() <= b.spec_index()),
{
    assert(a.id % 4 % 2 == a.id % 2) by (nonlinear_arith);
    assert(b.id % 4 % 2 == b.id % 2) by (nonlinear_arith);
    assert(a.id % 4 == b.id % 4);
    assert((a.id <= b.id) <==> (a.id / 4 <= b.id / 4)) by (nonlinear_arith)
        requires
            a.id % 4 == b.id % 4,
    ;
}

/// The fields of a freshly composed ID are the composing arguments.
pub proof fn lemma_spec_new_fields(role: Role, dir: Dir, index: u64)
    requires
        index < MAX_STREAMS_LIMIT,
    ensures
        StreamId::spec_new(role, dir, index).wf(),
        StreamId::spec_new(role, dir, index).spec_role() == role,
        StreamId::spec_new(role, dir, index).spec_dir() == dir,
        StreamId::spec_new(role, dir, index).spec_index() == index,
{
    let d: u64 = if dir is Uni {
        2
    } else {
        0
    };
    let r: u64 = if role is Server {
        1
    } else {
        0
    };
    let id: u64 = (index * 4 + d + r) as u64;
    assert(id == index * 4 + d + r && id % 4 == d + r && id / 4 == index && id % 2 == r) by (nonlinear_arith)
        requires
            index < 0x1000_0000_0000_0000,
            d == 2 || d == 0,
            r == 1 || r == 0,
            id == index * 4 + d + r,
    ;
}

/// Every legal ID is the composition of its own role, direction and index.
pub proof fn lemma_sid_decompose(s: StreamId)
    ensures
        s == StreamId::spec_new(s.spec_role(), s.spec_dir(), s.spec_index()),
{
    assert(s.id == 4 * (s.id / 4) + s.id % 4) by (nonlinear_arith);
    assert(s.id % 4 % 2 == s.id % 2) by (nonlinear_arith);
    assert(s.id % 4 < 4) by (nonlinear_arith);
}

/// Raised when the peer names a stream beyond the advertised limit.
#[derive(Clone, Copy, Debug, PartialEq, Eq, Structural)]
pub struct ExceedLimitError {
    pub sid: StreamId,
    pub max: u64,
}

/// What accepting a remote stream ID yielded: the ID was already open, or
/// these IDs (in increasing order, ending with the named one) are new.
#[derive(Clone, Debug)]
pub enum AcceptSid {
    Old,
    New(Vec<StreamId>),
}

/// Allocator for the streams this endpoint itself opens: one counter and one
/// peer-advertised ceiling per direction.
#[derive(Clone, Copy, Debug)]
pub struct LocalStreamIds {
    pub role: Role,
    pub bi_allocated: u64,
    pub bi_max: u64,
    pub uni_allocated: u64,
    pub uni_max: u64,
}

impl LocalStreamIds {
    pub open spec fn wf(self) -> bool {
        &&& self.bi_allocated <= self.bi_max <= MAX_STREAMS_LIMIT
        &&& self.uni_allocated <= self.uni_max <= MAX_STREAMS_LIMIT
    }

    pub open spec fn allocated(self, dir: Dir) -> u64 {
        if dir is Bi {
            self.bi_allocated
        } else {
            self.uni_allocated
        }
    }

    pub open spec fn max(self, dir: Dir) -> u64 {
        if dir is Bi {
            self.bi_max
        } else {
            self.uni_max
        }
    }

    /// Starts with nothing allocated and nothing permitted; the ceilings rise
    /// once the peer's transport parameters or MAX_STREAMS frames arrive.
    pub fn new(role: Role) -> (r: LocalStreamIds)
        ensures
            r.wf(),
            r.role == role,
            r.bi_allocated == 0 && r.uni_allocated == 0,
            r.bi_max == 0 && r.uni_max == 0,
    {
        LocalStreamIds { role, bi_allocated: 0, bi_max: 0, uni_allocated: 0, uni_max: 0 }
    }

    /// Processes a MAX_STREAMS advertisement: the ceiling only ever rises,
    /// and is clamped to the protocol limit.
    pub fn permit_max_sid(&mut self, dir: Dir, val: u64)
        requires
            old(self).wf(),
        ensures
            final(self).wf(),
            final(self).role == old(self).role,
            final(self).allocated(dir) == old(self).allocated(dir),
            final(self).max(dir) == if val > old(self).max(dir) {
                if val < MAX_STREAMS_LIMIT {
                    val
                } else {
                    MAX_STREAMS_LIMIT
                }
            } else {
                old(self).max(dir)
            },
            final(self).max(dir) >= old(self).max(dir),
            final(self).allocated(if dir is Bi { Dir::Uni } else { Dir::Bi }) == old(self).allocated(
                if dir is Bi {
                    Dir::Uni
                } else {
                    Dir::Bi
                },
            ),
            final(self).max(if dir is Bi { Dir::Uni } else { Dir::Bi }) == old(self).max(
                if dir is Bi {
                    Dir::Uni
                } else {
                    Dir::Bi
                },
            ),
    {
        let capped: u64 = if val < MAX_STREAMS_LIMIT {
            val
        } else {
            MAX_STREAMS_LIMIT
        };
        match dir {
            Dir::Bi => {
                if capped > self.bi_max {
                    self.bi_max = capped;
                }
            },
            Dir::Uni => {
                if capped > self.uni_max {
                    self.uni_max = capped;
                }
            },
        }
    }

    /// Allocates the next ID of the quadrant, or reports that the peer's
    /// ceiling is reached (`None`: the caller must wait for MAX_STREAMS).
    pub fn alloc_sid(&mut self, dir: Dir) -> (r: Option<StreamId>)
        requires
            old(self).wf(),
        ensures
            final(self).wf(),
            final(self).role == old(self).role,
            final(self).max(dir) == old(self).max(dir),
            r is Some <==> old(self).allocated(dir) < old(self).max(dir),
            r is Some ==> {
                &&& r->0 == StreamId::spec_new(old(self).role, dir, old(self).allocated(dir))
                &&& r->0.wf()
                &&& r->0.spec_role() == old(self).role
                &&& r->0.spec_dir() == dir
                &&& r->0.spec_index() == old(self).allocated(dir)
                &&& final(self).allocated(dir) == old(self).allocated(dir) + 1
            },
            r is None ==> *final(self) == *old(self),
            final(self).allocated(if dir is Bi { Dir::Uni } else { Dir::Bi }) == old(self).allocated(
                if dir is Bi {
                    Dir::Uni
                } else {
                    Dir::Bi
                },
            ),
            final(self).max(if dir is Bi { Dir::Uni } else { Dir::Bi }) == old(self).max(
                if dir is Bi {
                    Dir::Uni
                } else {
                    Dir::Bi
                },
            ),
    {
        match dir {
            Dir::Bi => {
                if self.bi_allocated < self.bi_max {
                    let sid = StreamId::new(self.role, Dir::Bi, self.bi_allocated);
                    self.bi_allocated = self.bi_allocated + 1;
                    Some(sid)
                } else {
                    None
                }
            },
            Dir::Uni => {
                if self.uni_allocated < self.uni_max {
                    let sid = StreamId::new(self.role, Dir::Uni, self.uni_allocated);
                    self.uni_allocated = self.uni_allocated + 1;
                    Some(sid)
                } else {
                    None
                }
            },
        }
    }
}

/// Acceptor for the streams the peer opens: the next unopened index and the
/// locally advertised ceiling, per direction.
#[derive(Clone, Copy, Debug)]
pub struct RemoteStreamIds {
    /// The peer's role: every accepted ID carries it.
    pub role: Role,
    pub bi_unallocated: u64,
    pub bi_max: u64,
    pub uni_unallocated: u64,
    pub uni_max: u64,
}

impl RemoteStreamIds {
    pub open spec fn wf(self) -> bool {
        &&& self.bi_unallocated <= self.bi_max <= MAX_STREAMS_LIMIT
        &&& self.uni_unallocated <= self.uni_max <= MAX_STREAMS_LIMIT
    }

    pub open spec fn unallocated(self, dir: Dir) -> u64 {
        if dir is Bi {
            self.bi_unallocated
        } else {
            self.uni_unallocated
        }
    }

    pub open spec fn max(self, dir: Dir) -> u64 {
        if dir is Bi {
            self.bi_max
        } else {
            self.uni_max
        }
    }

    /// Whether `sid` (a peer-initiated ID) has been opened already.
    pub open spec fn opened(self, sid: StreamId) -> bool {
        sid.spec_index() < self.unallocated(sid.spec_dir())
    }

    pub fn new(role: Role, max_bi: u64, max_uni: u64) -> (r: RemoteStreamIds)
        requires
            max_bi <= MAX_STREAMS_LIMIT,
            max_uni <= MAX_STREAMS_LIMIT,
        ensures
            r.wf(),
            r.role == role,
            r.bi_unallocated == 0 && r.uni_unallocated == 0,
            r.bi_max == max_bi && r.uni_max == max_uni,
    {
        RemoteStreamIds { role, bi_unallocated: 0, bi_max: max_bi, uni_unallocated: 0, uni_max: max_uni }
    }

    /// Accepts a peer-initiated stream ID.
    ///
    /// Exactly the unopened IDs of the same quadrant up to and including
    /// `sid` become open; an ID at or beyond the advertised ceiling is
    /// rejected and nothing changes; re-observation is idempotent.
    pub fn try_accept_sid(&mut self, sid: StreamId) -> (r: Result<AcceptSid, ExceedLimitError>)
        requires
            old(self).wf(),
            sid.wf(),
            sid.spec_role() == old(self).role,
        ensures
            final(self).wf(),
            final(self).role == old(self).role,
            final(self).max(Dir::Bi) == old(self).max(Dir::Bi),
            final(self).max(Dir::Uni) == old(self).max(Dir::Uni),
            r is Err <==> sid.spec_index() >= old(self).max(sid.spec_dir()),
            r is Err ==> *final(self) == *old(self),
            r matches Ok(AcceptSid::Old) <==> sid.spec_index() < old(self).max(sid.spec_dir())
                && old(self).opened(sid),
            r matches Ok(AcceptSid::Old) ==> *final(self) == *old(self),
            r matches Ok(AcceptSid::New(news)) ==> {
                &&& final(self).unallocated(sid.spec_dir()) == sid.spec_index() + 1
                &&& news@.len() == sid.spec_index() + 1 - old(self).unallocated(sid.spec_dir())
                &&& forall|k: int|
                    0 <= k < news@.len() ==> news@[k] == StreamId::spec_new(
                        old(self).role,
                        sid.spec_dir(),
                        (old(self).unallocated(sid.spec_dir()) + k) as u64,
                    )
                &&& final(self).unallocated(if sid.spec_dir() is Bi { Dir::Uni } else { Dir::Bi })
                    == old(self).unallocated(if sid.spec_dir() is Bi { Dir::Uni } else { Dir::Bi })
            },
            // every ID of the quadrant at or below `sid` ends up open, and
            // nothing else changes: the set of newly opened IDs is exactly
            // { m : same quadrant, m <= sid, m not previously opened }
            r is Ok ==> forall|m: StreamId|
                m.wf() && m.spec_role() == old(self).role ==> (#[trigger] final(self).opened(m)
                    <==> old(self).opened(m) || (m.spec_dir() == sid.spec_dir() && m.id <= sid.id)),
    {
        let idx = sid.index();
        let dir = sid.dir();
        let (unalloc, maxv): (u64, u64) = match dir {
            Dir::Bi => (self.bi_unallocated, self.bi_max),
            Dir::Uni => (self.uni_unallocated, self.uni_max),
        };
        if idx >= maxv {
            return Err(ExceedLimitError { sid, max: maxv });
        }
        if idx < unalloc {
            proof {
                assert forall|m: StreamId|
                    m.wf() && m.spec_role() == old(self).role && m.spec_dir() == sid.spec_dir()
                        && m.id <= sid.id implies #[trigger] old(self).opened(m) by {
                    lemma_quadrant_index_le(m, sid);
                }
            }
            return Ok(AcceptSid::Old);
        }
        let mut news: Vec<StreamId> = Vec::new();
        let mut i: u64 = unalloc;
        while i <= idx
            invariant
                unalloc <= i <= idx + 1,
                idx < MAX_STREAMS_LIMIT,
                news@.len() == i - unalloc,
                forall|k: int|
                    0 <= k < news@.len() ==> news@[k] == StreamId::spec_new(
                        self.role,
                        dir,
                        (unalloc + k) as u64,
                    ),
                *self == *old(self),
                dir == sid.spec_dir(),
            decreases idx + 1 - i,
        {
            news.push(StreamId::new(self.role, dir, i));
            i = i + 1;
        }
        match dir {
            Dir::Bi => {
                self.bi_unallocated = idx + 1;
            },
            Dir::Uni => {
                self.uni_unallocated = idx + 1;
            },
        }
        proof {
            assert forall|m: StreamId|
                m.wf() && m.spec_role() == old(self).role implies (#[trigger] self.opened(m)
                <==> old(self).opened(m) || (m.spec_dir() == sid.spec_dir() && m.id <= sid.id)) by {
                if m.spec_dir() == sid.spec_dir() {
                    lemma_quadrant_index_le(m, sid);
                }
            }
        }
        Ok(AcceptSid::New(news))
    }
}

/// Both sides of the registry: IDs we allocate and IDs we accept.
#[derive(Clone, Copy, Debug)]
pub struct StreamIds {
    pub local: LocalStreamIds,
    pub remote: RemoteStreamIds,
}

impl StreamIds {
    pub open spec fn wf(self) -> bool {
        &&& self.local.wf()
        &&& self.remote.wf()
        &&& self.remote.role == self.local.role.spec_peer()
    }

    /// `max_bi` and `max_uni` are this endpoint's own advertisements: they
    /// cap what the peer may open.
    pub fn new(role: Role, max_bi: u64, max_uni: u64) -> (r: StreamIds)
        requires
            max_bi <= MAX_STREAMS_LIMIT,
            max_uni <= MAX_STREAMS_LIMIT,
        ensures
            r.wf(),
            r.local.role == role,
            r.local.bi_allocated == 0 && r.local.uni_allocated == 0,
            r.local.bi_max == 0 && r.local.uni_max == 0,
            r.remote.bi_unallocated == 0 && r.remote.uni_unallocated == 0,
            r.remote.bi_max == max_bi && r.remote.uni_max == max_uni,
    {
        StreamIds { local: LocalStreamIds::new(role), remote: RemoteStreamIds::new(role.peer(), max_bi, max_uni) }
    }
}

} // verus!
