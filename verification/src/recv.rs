//! The receive side of one stream: reassembly, flow checking, final-size
//! bookkeeping, and the lazy events (window advertisements, stop-sending)
//! that the surrounding connection turns into control frames.

use vstd::prelude::*;
use crate::err::{Error, ErrorKind, FrameType};
use crate::frames::{ResetStreamFrame, StreamFrame};
use crate::varint::VARINT_MAX;

verus! {

/// The lifecycle of a receive stream: Recv until a FIN fixes the size,
/// SizeKnown until the bytes are all here, DataRcvd until the application
/// read them, then DataRead; a RESET_STREAM short-circuits to ResetRcvd.
#[derive(Clone, Copy, Debug, PartialEq, Eq, Structural)]
pub enum RecvState {
    Recv,
    SizeKnown,
    DataRcvd,
    DataRead,
    ResetRcvd,
}

/// `data` overlaid with `body` at `off`, extended (with zeros below any
/// still unreceived offset) as far as the write reaches.
pub open spec fn overlay_bytes(data: Seq<u8>, off: int, body: Seq<u8>) -> Seq<u8> {
    Seq::new(
        if data.len() >= off + body.len() {
            data.len()
        } else {
            (off + body.len()) as nat
        },
        |i: int|
            if off <= i < off + body.len() {
                body[i - off]
            } else if i < data.len() {
                data[i]
            } else {
                0u8
            },
    )
}

/// `rcvd` with `[off, end)` marked received, extended as far as `end`.
pub open spec fn overlay_rcvd(rcvd: Seq<bool>, off: int, end: int) -> Seq<bool> {
    Seq::new(
        if rcvd.len() >= end {
            rcvd.len()
        } else {
            end as nat
        },
        |i: int|
            if off <= i < end {
                true
            } else if i < rcvd.len() {
                rcvd[i]
            } else {
                false
            },
    )
}

/// How many offsets of `[off, end)` are not yet received.
pub open spec fn count_newly(rcvd: Seq<bool>, off: int, end: int) -> int
    decreases end - off,
{
    if off >= end {
        0
    } else {
        (if 0 <= off < rcvd.len() && rcvd[off] {
            0int
        } else {
            1int
        }) + count_newly(rcvd, off + 1, end)
    }
}

/// Which check an inbound frame for `[off, end)` fails, in the order the
/// checks are made: a FIN that contradicts the known final size or data
/// already received, data beyond the known final size, then the stream flow
/// window.
pub open spec fn spec_recv_check(
    final_size: Option<u64>,
    highest: int,
    window: u64,
    off: int,
    end: int,
    fin: bool,
) -> Option<ErrorKind> {
    if fin {
        if final_size matches Some(n) && n != end {
            Some(ErrorKind::FinalSize)
        } else if highest > end {
            Some(ErrorKind::FinalSize)
        } else if end > window {
            Some(ErrorKind::FlowControl)
        } else {
            None
        }
    } else {
        if final_size matches Some(n) && end > n {
            Some(ErrorKind::FinalSize)
        } else if end > window {
            Some(ErrorKind::FlowControl)
        } else {
            None
        }
    }
}

/// The receive half of one stream, as the connection owns it.
#[derive(Clone, Debug)]
pub struct Incoming {
    /// Reassembled bytes; the index is the absolute stream offset. Offsets
    /// not yet received hold zero.
    pub data: Vec<u8>,
    /// Which offsets below `data.len()` have been received.
    pub rcvd: Vec<bool>,
    /// How many bytes the application has consumed; always a received
    /// contiguous prefix.
    pub consumed: usize,
    /// The final size, once a FIN or a RESET_STREAM fixed it.
    pub final_size: Option<u64>,
    /// The currently advertised MAX_STREAM_DATA.
    pub window: u64,
    /// The configured receive-buffer size: how much credit beyond the
    /// consumed offset is advertised.
    pub buf_size: u64,
    /// The application asked to stop reading, and the event was delivered.
    pub stopped: bool,
    /// A RESET_STREAM was accepted.
    pub reset: bool,
    /// Set once a connection error tore the stream down.
    pub err: Option<Error>,
}

impl Incoming {
    pub open spec fn wf(self) -> bool {
        &&& self.data@.len() == self.rcvd@.len()
        &&& self.data@.len() <= self.window
        &&& self.buf_size <= self.window <= VARINT_MAX
        &&& self.consumed <= self.data@.len()
        &&& (forall|i: int| 0 <= i < self.consumed ==> self.rcvd@[i])
        &&& (self.final_size matches Some(n) ==> self.data@.len() <= n && n <= VARINT_MAX)
    }

    /// The derived lifecycle state.
    pub open spec fn spec_state(self) -> RecvState {
        if self.reset {
            RecvState::ResetRcvd
        } else {
            match self.final_size {
                None => RecvState::Recv,
                Some(n) => if self.consumed == n {
                    RecvState::DataRead
                } else if self.data@.len() == n && (forall|i: int|
                    0 <= i < self.rcvd@.len() ==> self.rcvd@[i]) {
                    RecvState::DataRcvd
                } else {
                    RecvState::SizeKnown
                },
            }
        }
    }

    /// A fresh stream with a receive buffer of `buf_size` bytes, which is
    /// also the initially advertised window.
    pub fn new(buf_size: u64) -> (r: Incoming)
        requires
            buf_size <= VARINT_MAX,
        ensures
            r.wf(),
            r.data@.len() == 0,
            r.consumed == 0,
            r.final_size is None,
            r.window == buf_size,
            r.buf_size == buf_size,
            !r.stopped,
            !r.reset,
            r.err is None,
    {
        Incoming {
            data: Vec::new(),
            rcvd: Vec::new(),
            consumed: 0,
            final_size: None,
            window: buf_size,
            buf_size,
            stopped: false,
            reset: false,
            err: None,
        }
    }

    /// Accepts the data of one STREAM frame: `body` holds the bytes the
    /// frame covered. Returns how many offsets were newly covered; an
    /// inconsistent final size raises `FinalSize`, data beyond the
    /// advertised window raises `FlowControl`. After a reset the data is
    /// ignored; on a dead connection the stored error surfaces.
    #[verifier::loop_isolation(false)]
    #[verifier::rlimit(60)]
    pub fn recv_data(&mut self, frame: &StreamFrame, body: &Vec<u8>) -> (r: Result<usize, Error>)
        requires
            old(self).wf(),
            frame.wf(),
            body@.len() == frame.length,
            frame.offset + frame.length <= usize::MAX,
        ensures
            final(self).wf(),
            ({
                let off = frame.offset as int;
                let end = frame.offset + frame.length;
                let check = spec_recv_check(
                    old(self).final_size,
                    old(self).data@.len() as int,
                    old(self).window,
                    off,
                    end,
                    frame.fin,
                );
                match old(self).err {
                    Some(e) => r == Err::<usize, Error>(e) && *final(self) == *old(self),
                    None => if old(self).reset {
                        r == Ok::<usize, Error>(0) && *final(self) == *old(self)
                    } else {
                        match check {
                            Some(kind) => {
                                &&& r matches Err(e) && e.kind == kind
                                &&& *final(self) == *old(self)
                            },
                            None => {
                                &&& r matches Ok(n) && n == count_newly(old(self).rcvd@, off, end)
                                &&& final(self).data@ == overlay_bytes(old(self).data@, off, body@)
                                &&& final(self).rcvd@ == overlay_rcvd(old(self).rcvd@, off, end)
                                &&& final(self).final_size == (if frame.fin {
                                    Some(end as u64)
                                } else {
                                    old(self).final_size
                                })
                                &&& final(self).consumed == old(self).consumed
                                &&& final(self).window == old(self).window
                                &&& final(self).stopped == old(self).stopped
                                &&& !final(self).reset
                                &&& final(self).err is None
                            },
                        }
                    },
                }
            }),
    {
        if let Some(e) = self.err {
            return Err(e);
        }
        if self.reset {
            return Ok(0);
        }
        let off = frame.offset;
        let end = frame.offset + frame.length;
        if frame.fin {
            match self.final_size {
                Some(n) => {
                    if n != end {
                        return Err(
                            Error::new(
                                ErrorKind::FinalSize,
                                FrameType::Stream,
                                "FIN contradicts the known final size",
                            ),
                        );
                    }
                },
                None => {},
            }
            if self.data.len() as u64 > end {
                return Err(
                    Error::new(
                        ErrorKind::FinalSize,
                        FrameType::Stream,
                        "data was received beyond the declared final size",
                    ),
                );
            }
        } else {
            match self.final_size {
                Some(n) => {
                    if end > n {
                        return Err(
                            Error::new(
                                ErrorKind::FinalSize,
                                FrameType::Stream,
                                "data beyond the known final size",
                            ),
                        );
                    }
                },
                None => {},
            }
        }
        if end > self.window {
            return Err(
                Error::new(
                    ErrorKind::FlowControl,
                    FrameType::Stream,
                    "data beyond the advertised stream window",
                ),
            );
        }
        // grow the buffers up to `end`
        let end_us = end as usize;
        assert(end_us as int == end as int);
        assert(off as usize as int == off as int);
        let ghost data0 = self.data@;
        let ghost rcvd0 = self.rcvd@;
        while self.data.len() < end_us
            invariant
                self.data@.len() == self.rcvd@.len(),
                data0.len() <= self.data@.len() <= (if data0.len() >= end_us {
                    data0.len() as int
                } else {
                    end_us as int
                }),
                data0 == self.data@.take(data0.len() as int),
                rcvd0 == self.rcvd@.take(rcvd0.len() as int),
                forall|i: int| data0.len() <= i < self.data@.len() ==> self.data@[i] == 0u8,
                forall|i: int| rcvd0.len() <= i < self.rcvd@.len() ==> !self.rcvd@[i],
                self.consumed == old(self).consumed,
                self.final_size == old(self).final_size,
                self.window == old(self).window,
                self.buf_size == old(self).buf_size,
                self.stopped == old(self).stopped,
                self.reset == old(self).reset,
                self.err == old(self).err,
            decreases end_us - self.data@.len(),
        {
            self.data.push(0u8);
            self.rcvd.push(false);
            assert(data0 =~= self.data@.take(data0.len() as int));
            assert(rcvd0 =~= self.rcvd@.take(rcvd0.len() as int));
        }
        // copy the body and count what is new
        let mut newly: usize = 0;
        let mut k: usize = 0;
        let off_us = off as usize;
        let blen = body.len();
        while k < blen
            invariant
                k <= blen,
                off_us + blen <= self.data@.len(),
                self.data@.len() == self.rcvd@.len(),
                self.data@.len() == (if data0.len() >= end_us {
                    data0.len() as int
                } else {
                    end_us as int
                }),
                newly == count_newly(rcvd0, off_us as int, off_us as int + k),
                newly <= k,
                forall|i: int|
                    0 <= i < self.data@.len() ==> self.data@[i] == (if off_us <= i < off_us + k {
                        body@[i - off_us]
                    } else if i < data0.len() {
                        data0[i]
                    } else {
                        0u8
                    }),
                forall|i: int|
                    0 <= i < self.rcvd@.len() ==> self.rcvd@[i] == (if off_us <= i < off_us + k {
                        true
                    } else if i < rcvd0.len() {
                        rcvd0[i]
                    } else {
                        false
                    }),
                self.consumed == old(self).consumed,
                self.final_size == old(self).final_size,
                self.window == old(self).window,
                self.buf_size == old(self).buf_size,
                self.stopped == old(self).stopped,
                self.reset == old(self).reset,
                self.err == old(self).err,
            decreases blen - k,
        {
            proof {
                lemma_count_newly_step(rcvd0, off_us as int, off_us as int + k);
            }
            if !self.rcvd[off_us + k] {
                newly = newly + 1;
            }
            self.data[off_us + k] = body[k];
            self.rcvd[off_us + k] = true;
            k = k + 1;
        }
        if frame.fin {
            self.final_size = Some(end);
        }
        proof {
            assert(self.data@ =~= overlay_bytes(data0, off as int, body@));
            assert(self.rcvd@ =~= overlay_rcvd(rcvd0, off as int, off as int + frame.length));
        }
        Ok(newly)
    }
}

impl Incoming {
    /// Hands the application up to `max` bytes of the received contiguous
    /// prefix; the consumed offset only ever advances.
    #[verifier::loop_isolation(false)]
    pub fn read(&mut self, max: usize) -> (r: Vec<u8>)
        requires
            old(self).wf(),
        ensures
            final(self).wf(),
            final(self).consumed == old(self).consumed + r@.len(),
            final(self).consumed >= old(self).consumed,
            r@ == old(self).data@.subrange(
                old(self).consumed as int,
                old(self).consumed + r@.len(),
            ),
            r@.len() <= max,
            forall|i: int|
                old(self).consumed <= i < old(self).consumed + r@.len() ==> old(self).rcvd@[i],
            // maximality: we stopped only at `max`, the end of the data, or
            // the first gap
            r@.len() < max ==> final(self).consumed == old(self).data@.len() || !old(
                self,
            ).rcvd@[final(self).consumed as int],
            final(self).data == old(self).data,
            final(self).rcvd == old(self).rcvd,
            final(self).final_size == old(self).final_size,
            final(self).window == old(self).window,
            final(self).buf_size == old(self).buf_size,
            final(self).stopped == old(self).stopped,
            final(self).reset == old(self).reset,
            final(self).err == old(self).err,
    {
        let mut out: Vec<u8> = Vec::new();
        while out.len() < max && self.consumed < self.data.len() && self.rcvd[self.consumed]
            invariant
                self.consumed == old(self).consumed + out@.len(),
                out@ == self.data@.subrange(old(self).consumed as int, self.consumed as int),
                forall|i: int| old(self).consumed <= i < self.consumed ==> self.rcvd@[i],
                self.consumed <= self.data@.len(),
                out@.len() <= max,
                self.data == old(self).data,
                self.rcvd == old(self).rcvd,
                self.final_size == old(self).final_size,
                self.window == old(self).window,
                self.buf_size == old(self).buf_size,
                self.stopped == old(self).stopped,
                self.reset == old(self).reset,
                self.err == old(self).err,
            decreases self.data@.len() - self.consumed,
        {
            out.push(self.data[self.consumed]);
            self.consumed = self.consumed + 1;
            assert(out@ =~= self.data@.subrange(old(self).consumed as int, self.consumed as int));
        }
        out
    }

    /// Accepts a RESET_STREAM: the peer abandons the stream at the frame's
    /// final size. The size must agree with everything received so far
    /// (`FinalSize` otherwise) and stay within the advertised window
    /// (`FlowControl` otherwise).
    pub fn recv_reset(&mut self, frame: &ResetStreamFrame) -> (r: Result<(), Error>)
        requires
            old(self).wf(),
        ensures
            final(self).wf(),
            match old(self).err {
                Some(e) => r == Err::<(), Error>(e) && *final(self) == *old(self),
                None => {
                    let bad_size = (old(self).final_size matches Some(n) && n != frame.final_size)
                        || old(self).data@.len() > frame.final_size;
                    let bad_flow = frame.final_size > old(self).window;
                    if bad_size {
                        r matches Err(e) && e.kind == ErrorKind::FinalSize && *final(self) == *old(
                            self,
                        )
                    } else if bad_flow {
                        r matches Err(e) && e.kind == ErrorKind::FlowControl && *final(self)
                            == *old(self)
                    } else {
                        &&& r is Ok
                        &&& final(self).reset
                        &&& final(self).final_size == Some(frame.final_size)
                        &&& final(self).data == old(self).data
                        &&& final(self).consumed == old(self).consumed
                        &&& final(self).err is None
                    }
                },
            },
    {
        if let Some(e) = self.err {
            return Err(e);
        }
        let mismatch = match self.final_size {
            Some(n) => n != frame.final_size,
            None => false,
        };
        if mismatch || self.data.len() as u64 > frame.final_size {
            return Err(
                Error::new(
                    ErrorKind::FinalSize,
                    FrameType::ResetStream,
                    "RESET_STREAM contradicts the received data",
                ),
            );
        }
        if frame.final_size > self.window {
            return Err(
                Error::new(
                    ErrorKind::FlowControl,
                    FrameType::ResetStream,
                    "RESET_STREAM final size beyond the advertised window",
                ),
            );
        }
        self.final_size = Some(frame.final_size);
        self.reset = true;
        Ok(())
    }

    /// Produces the next MAX_STREAM_DATA advertisement, if the consumed
    /// prefix has crossed half of the current window: the new window is
    /// the consumed offset plus the configured buffer size. Streams whose
    /// final size is known advertise nothing.
    pub fn need_update_window(&mut self) -> (r: Option<u64>)
        requires
            old(self).wf(),
        ensures
            final(self).wf(),
            ({
                let due = old(self).err is None && !old(self).reset && old(self).final_size is None
                    && old(self).consumed + old(self).buf_size / 2 >= old(self).window && old(
                    self,
                ).consumed + old(self).buf_size <= VARINT_MAX && old(self).consumed + old(
                    self,
                ).buf_size > old(self).window;
                if due {
                    &&& r == Some((old(self).consumed + old(self).buf_size) as u64)
                    &&& final(self).window == old(self).consumed + old(self).buf_size
                    &&& final(self).data == old(self).data
                    &&& final(self).consumed == old(self).consumed
                    &&& final(self).final_size == old(self).final_size
                    &&& final(self).err == old(self).err
                } else {
                    r is None && *final(self) == *old(self)
                }
            }),
            final(self).window >= old(self).window,
    {
        if self.err.is_some() || self.reset || self.final_size.is_some() {
            return None;
        }
        let cons = self.consumed as u64;
        if cons + self.buf_size / 2 >= self.window {
            if cons <= VARINT_MAX - self.buf_size {
                let nm = cons + self.buf_size;
                if nm > self.window {
                    self.window = nm;
                    return Some(nm);
                }
            }
        }
        None
    }

    /// Delivers the application's decision to stop reading with `err_code`:
    /// the code is yielded exactly once, and only while the stream is still
    /// live; the surrounding connection then emits a STOP_SENDING.
    pub fn is_stopped_by_app(&mut self, err_code: u64) -> (r: Option<u64>)
        requires
            old(self).wf(),
        ensures
            final(self).wf(),
            ({
                let live = old(self).err is None && !old(self).reset && !old(self).stopped;
                if live {
                    r == Some(err_code) && *final(self) == (Incoming {
                        stopped: true,
                        ..*old(self)
                    })
                } else {
                    r is None && *final(self) == *old(self)
                }
            }),
    {
        if self.err.is_some() || self.reset || self.stopped {
            return None;
        }
        self.stopped = true;
        Some(err_code)
    }

    /// A connection error: readers are torn down and every later operation
    /// surfaces the error.
    pub fn on_conn_error(&mut self, err: &Error)
        requires
            old(self).wf(),
        ensures
            final(self).wf(),
            old(self).err is Some ==> *final(self) == *old(self),
            old(self).err is None ==> *final(self) == (Incoming {
                err: Some(
                    (Error {
                        kind: ErrorKind::BrokenPipe,
                        frame_type: err.frame_type,
                        reason: err.reason,
                    }),
                ),
                ..*old(self)
            }),
    {
        if self.err.is_some() {
            return ;
        }
        self.err = Some(Error::new(ErrorKind::BrokenPipe, err.frame_type, err.reason));
    }

    /// The derived lifecycle state, or `None` once a connection error tore
    /// the stream down.
    pub fn current_state(&self) -> (r: Option<RecvState>)
        requires
            self.wf(),
        ensures
            self.err is Some <==> r is None,
            self.err is None ==> r == Some(self.spec_state()),
    {
        if self.err.is_some() {
            return None;
        }
        if self.reset {
            return Some(RecvState::ResetRcvd);
        }
        match self.final_size {
            None => Some(RecvState::Recv),
            Some(n) => {
                if self.consumed as u64 == n {
                    Some(RecvState::DataRead)
                } else if self.data.len() as u64 == n && self.all_rcvd() {
                    Some(RecvState::DataRcvd)
                } else {
                    Some(RecvState::SizeKnown)
                }
            },
        }
    }

    /// Whether every offset below the buffered length was received.
    fn all_rcvd(&self) -> (b: bool)
        ensures
            b == (forall|i: int| 0 <= i < self.rcvd@.len() ==> self.rcvd@[i]),
    {
        let mut i: usize = 0;
        while i < self.rcvd.len()
            invariant
                i <= self.rcvd@.len(),
                forall|j: int| 0 <= j < i ==> self.rcvd@[j],
            decreases self.rcvd@.len() - i,
        {
            if !self.rcvd[i] {
                return false;
            }
            i = i + 1;
        }
        true
    }
}

/// A range entirely beyond the received prefix is entirely new.
pub proof fn lemma_count_newly_all(rcvd: Seq<bool>, off: int, end: int)
    requires
        rcvd.len() <= off,
        0 <= off <= end,
    ensures
        count_newly(rcvd, off, end) == end - off,
    decreases end - off,
{
    if off < end {
        lemma_count_newly_all(rcvd, off + 1, end);
    }
}

/// Unfolds one step of [`count_newly`] from the left end.
proof fn lemma_count_newly_step(rcvd: Seq<bool>, off: int, mid: int)
    requires
        off <= mid,
    ensures
        count_newly(rcvd, off, mid + 1) == count_newly(rcvd, off, mid) + (
        if 0 <= mid < rcvd.len() && rcvd[mid] {
            0int
        } else {
            1int
        }),
    decreases mid - off,
{
    if off < mid {
        lemma_count_newly_step(rcvd, off + 1, mid);
        assert(count_newly(rcvd, off, mid + 1) == (if 0 <= off < rcvd.len() && rcvd[off] {
            0int
        } else {
            1int
        }) + count_newly(rcvd, off + 1, mid + 1));
    } else {
        assert(count_newly(rcvd, mid + 1, mid + 1) == 0);
        assert(count_newly(rcvd, mid, mid) == 0);
    }
}

} // verus!
