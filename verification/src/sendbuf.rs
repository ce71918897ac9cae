//! The outbound byte buffer of one stream.
//!
//! Every byte the application wrote sits at a fixed absolute offset. Bytes
//! below the flushed mark carry a per-byte transmission state; bytes above
//! it are fresh, waiting for their first emission. Acknowledgment and loss
//! marking are range operations on those states, which makes them
//! commutative and idempotent by construction.

use vstd::prelude::*;
use crate::varint::VARINT_MAX;

verus! {

/// The smaller of two mathematical integers.
pub open spec fn imin(a: int, b: int) -> int {
    if a <= b {
        a
    } else {
        b
    }
}

/// Transmission state of one flushed byte.
#[derive(Clone, Copy, Debug, PartialEq, Eq, Structural)]
pub enum ByteState {
    /// Emitted and neither acknowledged nor declared lost.
    Inflight,
    /// Acknowledged by the peer.
    Acked,
    /// Declared lost; waiting to be retransmitted.
    Lost,
}

/// Marks `[start, end)` acknowledged; everything else keeps its state.
/// Indexes beyond the sequence are ignored.
pub open spec fn mark_range_acked(flags: Seq<ByteState>, start: int, end: int) -> Seq<ByteState> {
    Seq::new(flags.len(), |i: int| if start <= i < end {
        ByteState::Acked
    } else {
        flags[i]
    })
}

/// Marks the in-flight bytes of `[start, end)` lost; acknowledged bytes stay
/// acknowledged, bytes already lost stay lost.
pub open spec fn mark_range_lost(flags: Seq<ByteState>, start: int, end: int) -> Seq<ByteState> {
    Seq::new(flags.len(), |i: int| if start <= i < end && flags[i] is Inflight {
        ByteState::Lost
    } else {
        flags[i]
    })
}

/// Marks `[start, end)` in flight again (a retransmission of lost bytes).
pub open spec fn mark_range_inflight(flags: Seq<ByteState>, start: int, end: int) -> Seq<
    ByteState,
> {
    Seq::new(flags.len(), |i: int| if start <= i < end {
        ByteState::Inflight
    } else {
        flags[i]
    })
}

/// Acknowledging a range twice is the same as acknowledging it once.
pub proof fn lemma_mark_acked_idempotent(flags: Seq<ByteState>, start: int, end: int)
    ensures
        mark_range_acked(mark_range_acked(flags, start, end), start, end) == mark_range_acked(
            flags,
            start,
            end,
        ),
{
    assert(mark_range_acked(mark_range_acked(flags, start, end), start, end) =~= mark_range_acked(
        flags,
        start,
        end,
    ));
}

/// Acknowledgments of any two ranges commute, even overlapping ones.
pub proof fn lemma_mark_acked_commutes(flags: Seq<ByteState>, a1: int, b1: int, a2: int, b2: int)
    ensures
        mark_range_acked(mark_range_acked(flags, a1, b1), a2, b2) == mark_range_acked(
            mark_range_acked(flags, a2, b2),
            a1,
            b1,
        ),
{
    assert(mark_range_acked(mark_range_acked(flags, a1, b1), a2, b2) =~= mark_range_acked(
        mark_range_acked(flags, a2, b2),
        a1,
        b1,
    ));
}

/// A loss mark and an acknowledgment of disjoint ranges commute.
pub proof fn lemma_mark_lost_acked_commute(flags: Seq<ByteState>, a1: int, b1: int, a2: int, b2: int)
    requires
        b1 <= a2 || b2 <= a1,
    ensures
        mark_range_acked(mark_range_lost(flags, a1, b1), a2, b2) == mark_range_lost(
            mark_range_acked(flags, a2, b2),
            a1,
            b1,
        ),
{
    assert(mark_range_acked(mark_range_lost(flags, a1, b1), a2, b2) =~= mark_range_lost(
        mark_range_acked(flags, a2, b2),
        a1,
        b1,
    ));
}

/// The index of the first lost byte at or after `i`, or the length if none.
pub open spec fn first_lost_from(flags: Seq<ByteState>, i: int) -> int
    decreases flags.len() - i,
{
    if i < 0 || i >= flags.len() {
        flags.len() as int
    } else if flags[i] is Lost {
        i
    } else {
        first_lost_from(flags, i + 1)
    }
}

/// The length of the run of lost bytes starting at `i`.
pub open spec fn lost_run_len(flags: Seq<ByteState>, i: int) -> int
    decreases flags.len() - i,
{
    if i < 0 || i >= flags.len() || !(flags[i] is Lost) {
        0
    } else {
        1 + lost_run_len(flags, i + 1)
    }
}

/// The mathematical content of a [`SendBuf`].
#[verifier::ext_equal]
pub struct SendBufV {
    pub data: Seq<u8>,
    pub flags: Seq<ByteState>,
    pub window: u64,
    pub shutdown: bool,
    pub fin_sent: bool,
}

impl SendBufV {
    /// Whether the peer has acknowledged every written byte.
    pub open spec fn all_acked(self) -> bool {
        self.flags.len() == self.data.len() && forall|i: int|
            0 <= i < self.flags.len() ==> self.flags[i] is Acked
    }

    /// The buffer after an acknowledgment of `[start, end)`.
    pub open spec fn ack(self, start: int, end: int) -> SendBufV {
        SendBufV { flags: mark_range_acked(self.flags, start, end), ..self }
    }

    /// The buffer after a loss declaration for `[start, end)`.
    pub open spec fn loss(self, start: int, end: int) -> SendBufV {
        SendBufV { flags: mark_range_lost(self.flags, start, end), ..self }
    }

    /// The buffer after a frame carrying `[off, off + len)` (and possibly
    /// the FIN bit) has been emitted: fresh bytes extend the flushed prefix,
    /// a retransmission returns its range to in-flight.
    pub open spec fn after_emit(self, off: int, len: int, fin: bool) -> SendBufV {
        let flags2 = if off == self.flags.len() {
            self.flags + Seq::new(len as nat, |i: int| ByteState::Inflight)
        } else {
            mark_range_inflight(self.flags, off, off + len)
        };
        SendBufV { flags: flags2, fin_sent: self.fin_sent || fin, ..self }
    }
}

/// A fresh, empty buffer with the given window.
pub open spec fn empty_sendbuf(window: u64) -> SendBufV {
    SendBufV {
        data: Seq::empty(),
        flags: Seq::empty(),
        window: window,
        shutdown: false,
        fin_sent: false,
    }
}

/// What the next frame of a stream should carry, before capacity is
/// considered: the oldest run of lost bytes first (a retransmission, free of
/// flow accounting), else fresh bytes at the flushed offset, bounded by the
/// scheduler tokens and the connection flow credit. `None`: nothing to send.
/// The result is `(offset, available, is_fresh)`.
pub open spec fn spec_pick(b: SendBufV, tokens: int, flow_limit: int) -> Option<(int, int, bool)> {
    let fl = first_lost_from(b.flags, 0);
    if fl < b.flags.len() {
        let a = imin(lost_run_len(b.flags, fl), tokens);
        if a > 0 {
            Some((fl, a, false))
        } else {
            None
        }
    } else {
        let a = imin(imin(b.data.len() - b.flags.len(), tokens), flow_limit);
        if a > 0 {
            Some((b.flags.len() as int, a, true))
        } else {
            None
        }
    }
}

/// With no byte marked lost, the lost-byte search runs to the end.
pub proof fn lemma_no_lost(flags: Seq<ByteState>, i: int)
    requires
        forall|j: int| 0 <= j < flags.len() ==> !((#[trigger] flags[j]) is Lost),
        0 <= i,
    ensures
        first_lost_from(flags, i) == flags.len(),
    decreases flags.len() - i,
{
    if i < flags.len() {
        lemma_no_lost(flags, i + 1);
    }
}

/// The outbound buffer: written bytes, per-byte state of the flushed prefix,
/// the peer-granted flow window, and the fin bookkeeping.
#[derive(Clone, Debug)]
pub struct SendBuf {
    /// Every byte the application has written; the index is the absolute
    /// stream offset. The written offset is `data.len()`.
    pub data: Vec<u8>,
    /// State of each emitted byte; the flushed offset is `flags.len()`.
    pub flags: Vec<ByteState>,
    /// Peer-granted MAX_STREAM_DATA: the application may write at most this
    /// many bytes in total.
    pub window: u64,
    /// The application has closed the stream: the final size is `data.len()`
    /// and is immutable from then on.
    pub shutdown: bool,
    /// A frame carrying the FIN bit has been emitted.
    pub fin_sent: bool,
}

impl View for SendBuf {
    type V = SendBufV;

    open spec fn view(&self) -> SendBufV {
        SendBufV {
            data: self.data@,
            flags: self.flags@,
            window: self.window,
            shutdown: self.shutdown,
            fin_sent: self.fin_sent,
        }
    }
}

impl SendBuf {
    pub open spec fn wf(self) -> bool {
        &&& self.flags@.len() <= self.data@.len()
        &&& self.data@.len() <= self.window
        &&& self.window <= VARINT_MAX
        &&& (self.fin_sent ==> self.shutdown && self.flags@.len() == self.data@.len())
    }

    /// The written offset: how many bytes the application has produced.
    pub open spec fn written(self) -> int {
        self.data@.len() as int
    }

    /// The flushed offset: the least offset never yet emitted.
    pub open spec fn flushed(self) -> int {
        self.flags@.len() as int
    }

    pub fn new(window: u64) -> (b: SendBuf)
        requires
            window <= VARINT_MAX,
        ensures
            b.wf(),
            b.data@.len() == 0,
            b.flags@.len() == 0,
            b.window == window,
            !b.shutdown,
            !b.fin_sent,
    {
        SendBuf { data: Vec::new(), flags: Vec::new(), window, shutdown: false, fin_sent: false }
    }

    /// Appends as much of `input` as the flow window allows; the accepted
    /// prefix length is returned (zero means the writer must wait for a
    /// wider window).
    pub fn write(&mut self, input: &[u8]) -> (n: usize)
        requires
            old(self).wf(),
            !old(self).shutdown,
        ensures
            final(self).wf(),
            n == imin(input@.len() as int, old(self).window - old(self).written()),
            final(self).data@ == old(self).data@ + input@.take(n as int),
            final(self).flags == old(self).flags,
            final(self).window == old(self).window,
            final(self).shutdown == old(self).shutdown,
            final(self).fin_sent == old(self).fin_sent,
            final(self).written() >= old(self).written(),
    {
        let remaining: u64 = self.window - self.data.len() as u64;
        let n: usize = if input.len() as u64 <= remaining {
            input.len()
        } else {
            remaining as usize
        };
        let mut i: usize = 0;
        while i < n
            invariant
                i <= n,
                n <= input@.len(),
                self.data@ == old(self).data@ + input@.take(i as int),
                self.flags == old(self).flags,
                self.window == old(self).window,
                self.shutdown == old(self).shutdown,
                self.fin_sent == old(self).fin_sent,
            decreases n - i,
        {
            self.data.push(input[i]);
            assert(self.data@ =~= old(self).data@ + input@.take(i + 1));
            i = i + 1;
        }
        n
    }

    /// Records a MAX_STREAM_DATA advertisement; the window never shrinks.
    pub fn update_window(&mut self, max_data_size: u64)
        requires
            old(self).wf(),
            max_data_size <= VARINT_MAX,
        ensures
            final(self).wf(),
            final(self).window == if max_data_size > old(self).window {
                max_data_size
            } else {
                old(self).window
            },
            final(self).data == old(self).data,
            final(self).flags == old(self).flags,
            final(self).shutdown == old(self).shutdown,
            final(self).fin_sent == old(self).fin_sent,
    {
        if max_data_size > self.window {
            self.window = max_data_size;
        }
    }

    /// Merges an acknowledged range into the per-byte states. Offsets at or
    /// beyond the flushed mark are ignored.
    pub fn mark_acked(&mut self, start: u64, end: u64)
        requires
            old(self).wf(),
        ensures
            final(self).wf(),
            final(self).flags@ == mark_range_acked(old(self).flags@, start as int, end as int),
            final(self).data == old(self).data,
            final(self).window == old(self).window,
            final(self).shutdown == old(self).shutdown,
            final(self).fin_sent == old(self).fin_sent,
    {
        let len = self.flags.len();
        let lo: usize = if start as u64 >= len as u64 {
            len
        } else {
            start as usize
        };
        let hi: usize = if end as u64 >= len as u64 {
            len
        } else {
            end as usize
        };
        let mut i: usize = lo;
        if lo >= hi {
            assert(self.flags@ =~= mark_range_acked(old(self).flags@, start as int, end as int));
            return ;
        }
        while i < hi
            invariant
                lo <= i <= hi,
                hi <= self.flags@.len(),
                start as int <= lo,
                hi <= end as int,
                self.flags@.len() == old(self).flags@.len(),
                forall|j: int|
                    0 <= j < self.flags@.len() ==> self.flags@[j] == (if lo <= j < i {
                        ByteState::Acked
                    } else {
                        old(self).flags@[j]
                    }),
                self.data == old(self).data,
                self.window == old(self).window,
                self.shutdown == old(self).shutdown,
                self.fin_sent == old(self).fin_sent,
            decreases hi - i,
        {
            self.flags[i] = ByteState::Acked;
            i = i + 1;
        }
        assert(self.flags@ =~= mark_range_acked(old(self).flags@, start as int, end as int));
    }

    /// Re-marks the still in-flight bytes of a lost range for retransmission.
    /// Acknowledged bytes are left alone; offsets beyond the flushed mark are
    /// ignored.
    pub fn mark_lost(&mut self, start: u64, end: u64)
        requires
            old(self).wf(),
        ensures
            final(self).wf(),
            final(self).flags@ == mark_range_lost(old(self).flags@, start as int, end as int),
            final(self).data == old(self).data,
            final(self).window == old(self).window,
            final(self).shutdown == old(self).shutdown,
            final(self).fin_sent == old(self).fin_sent,
    {
        let len = self.flags.len();
        let lo: usize = if start as u64 >= len as u64 {
            len
        } else {
            start as usize
        };
        let hi: usize = if end as u64 >= len as u64 {
            len
        } else {
            end as usize
        };
        let mut i: usize = lo;
        if lo >= hi {
            assert(self.flags@ =~= mark_range_lost(old(self).flags@, start as int, end as int));
            return ;
        }
        while i < hi
            invariant
                lo <= i <= hi,
                hi <= self.flags@.len(),
                start as int <= lo,
                hi <= end as int,
                self.flags@.len() == old(self).flags@.len(),
                forall|j: int|
                    0 <= j < self.flags@.len() ==> self.flags@[j] == (if lo <= j < i && old(
                        self,
                    ).flags@[j] is Inflight {
                        ByteState::Lost
                    } else {
                        old(self).flags@[j]
                    }),
                self.data == old(self).data,
                self.window == old(self).window,
                self.shutdown == old(self).shutdown,
                self.fin_sent == old(self).fin_sent,
            decreases hi - i,
        {
            if let ByteState::Inflight = self.flags[i] {
                self.flags[i] = ByteState::Lost;
            }
            i = i + 1;
        }
        assert(self.flags@ =~= mark_range_lost(old(self).flags@, start as int, end as int));
    }

    /// Extends the flushed prefix by `len` freshly emitted bytes.
    pub fn push_inflight(&mut self, len: usize)
        requires
            old(self).wf(),
            old(self).flushed() + len <= old(self).written(),
        ensures
            final(self).wf(),
            final(self).flags@ == old(self).flags@ + Seq::new(
                len as nat,
                |i: int| ByteState::Inflight,
            ),
            final(self).data == old(self).data,
            final(self).window == old(self).window,
            final(self).shutdown == old(self).shutdown,
            final(self).fin_sent == old(self).fin_sent,
    {
        let mut i: usize = 0;
        while i < len
            invariant
                i <= len,
                old(self).flags@.len() + len <= old(self).data@.len(),
                self.flags@ == old(self).flags@ + Seq::new(i as nat, |j: int| ByteState::Inflight),
                self.data == old(self).data,
                self.window == old(self).window,
                self.shutdown == old(self).shutdown,
                self.fin_sent == old(self).fin_sent,
            decreases len - i,
        {
            self.flags.push(ByteState::Inflight);
            assert(self.flags@ =~= old(self).flags@ + Seq::new(
                (i + 1) as nat,
                |j: int| ByteState::Inflight,
            ));
            i = i + 1;
        }
    }

    /// Returns a retransmitted range to the in-flight state.
    pub fn mark_inflight(&mut self, start: usize, end: usize)
        requires
            old(self).wf(),
            start <= end <= old(self).flushed(),
        ensures
            final(self).wf(),
            final(self).flags@ == mark_range_inflight(old(self).flags@, start as int, end as int),
            final(self).data == old(self).data,
            final(self).window == old(self).window,
            final(self).shutdown == old(self).shutdown,
            final(self).fin_sent == old(self).fin_sent,
    {
        let mut i: usize = start;
        while i < end
            invariant
                start <= i <= end,
                end <= self.flags@.len(),
                self.flags@.len() == old(self).flags@.len(),
                forall|j: int|
                    0 <= j < self.flags@.len() ==> self.flags@[j] == (if start <= j < i {
                        ByteState::Inflight
                    } else {
                        old(self).flags@[j]
                    }),
                self.data == old(self).data,
                self.window == old(self).window,
                self.shutdown == old(self).shutdown,
                self.fin_sent == old(self).fin_sent,
            decreases end - i,
        {
            self.flags[i] = ByteState::Inflight;
            i = i + 1;
        }
        assert(self.flags@ =~= mark_range_inflight(old(self).flags@, start as int, end as int));
    }

    /// Chooses the next chunk to emit: the oldest lost run, else fresh
    /// bytes, within the token and flow budgets.
    pub fn pick_chunk(&self, tokens: usize, flow_limit: usize) -> (r: Option<(u64, usize, bool)>)
        requires
            self.wf(),
        ensures
            ({
                let p = spec_pick(self@, tokens as int, flow_limit as int);
                match r {
                    Some((off, len, fresh)) => {
                        &&& p == Some((off as int, len as int, fresh))
                        &&& (fresh ==> off == self.flushed() && len <= flow_limit && off + len
                            <= self.written())
                        &&& (!fresh ==> off + len <= self.flushed())
                        &&& len >= 1
                        &&& len <= tokens
                    },
                    None => p is None,
                }
            }),
    {
        let flen = self.flags.len();
        let mut i: usize = 0;
        while i < flen && !matches!(self.flags[i], ByteState::Lost)
            invariant
                i <= flen,
                flen == self.flags@.len(),
                first_lost_from(self.flags@, 0) == first_lost_from(self.flags@, i as int),
            decreases flen - i,
        {
            assert(first_lost_from(self.flags@, i as int) == first_lost_from(
                self.flags@,
                i as int + 1,
            ));
            i = i + 1;
        }
        if i < flen {
            // a lost run starts at i
            assert(first_lost_from(self.flags@, 0) == i);
            let mut j: usize = i;
            while j < flen && matches!(self.flags[j], ByteState::Lost)
                invariant
                    i <= j <= flen,
                    flen == self.flags@.len(),
                    lost_run_len(self.flags@, i as int) == j - i + lost_run_len(
                        self.flags@,
                        j as int,
                    ),
                decreases flen - j,
            {
                assert(lost_run_len(self.flags@, j as int) == 1 + lost_run_len(
                    self.flags@,
                    j as int + 1,
                ));
                j = j + 1;
            }
            assert(lost_run_len(self.flags@, j as int) == 0);
            let run = j - i;
            let a = if run <= tokens {
                run
            } else {
                tokens
            };
            if a > 0 {
                Some((i as u64, a, false))
            } else {
                None
            }
        } else {
            assert(first_lost_from(self.flags@, 0) == self.flags@.len());
            let fresh_avail = self.data.len() - self.flags.len();
            let mut a = fresh_avail;
            if tokens < a {
                a = tokens;
            }
            if flow_limit < a {
                a = flow_limit;
            }
            if a > 0 {
                Some((flen as u64, a, true))
            } else {
                None
            }
        }
    }

    /// Whether every written byte has been acknowledged.
    pub fn is_all_acked(&self) -> (b: bool)
        ensures
            b == self@.all_acked(),
    {
        if self.flags.len() != self.data.len() {
            return false;
        }
        let mut i: usize = 0;
        while i < self.flags.len()
            invariant
                i <= self.flags@.len(),
                forall|j: int| 0 <= j < i ==> self.flags@[j] is Acked,
            decreases self.flags@.len() - i,
        {
            match self.flags[i] {
                ByteState::Acked => {
                    i = i + 1;
                },
                _ => {
                    return false;
                },
            }
        }
        true
    }
}

} // verus!
