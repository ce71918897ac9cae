//! The send side of one stream: its lifecycle state machine and the frame
//! emission logic.
//!
//! The lifecycle is Ready, then Sending once a frame has been emitted, then
//! DataSent once the final size is flushed and the FIN bit is out, then
//! DataRcvd once everything is acknowledged; an application or peer initiated
//! reset branches to ResetSent and, once acknowledged, ResetRcvd. A
//! connection error replaces the whole state with the error, after which
//! every operation is a no-op that surfaces it.

use vstd::prelude::*;
use core::ops::Range;
use crate::err::{Error, ErrorKind, FrameType};
use crate::frames::{encode_stream_frame_header, stream_frame_header_bytes, StreamFrame};
use crate::sendbuf::{empty_sendbuf, imin, spec_pick, SendBuf, SendBufV};
use crate::sid::StreamId;
use crate::varint::{varint_len, varint_length, VARINT_MAX};

verus! {

/// The lifecycle tag of a send stream.
#[derive(Clone, Copy, Debug, PartialEq, Eq, Structural)]
pub enum SendState {
    Ready,
    Sending,
    DataSent,
    DataRcvd,
    ResetSent,
    ResetRcvd,
}

/// The mathematical state of a healthy send stream: the tag together with
/// the data it still carries.
pub enum SenderV {
    Ready(SendBufV),
    Sending(SendBufV),
    DataSent(SendBufV),
    DataRcvd,
    ResetSent(u64),
    ResetRcvd,
}

/// The buffer of a state that still owns one.
pub open spec fn sender_buf(s: SenderV) -> Option<SendBufV> {
    match s {
        SenderV::Ready(b) => Some(b),
        SenderV::Sending(b) => Some(b),
        SenderV::DataSent(b) => Some(b),
        _ => None,
    }
}

/// `b` with the fin committed at the current written offset.
pub open spec fn with_shutdown(b: SendBufV) -> SendBufV {
    SendBufV { shutdown: true, ..b }
}

/// The state after an acknowledgment of `[start, end)`: the range is merged
/// into the acknowledged bytes; a fully acknowledged DataSent stream is done.
pub open spec fn spec_ack(s: SenderV, start: int, end: int) -> SenderV {
    match s {
        SenderV::Sending(b) => SenderV::Sending(b.ack(start, end)),
        SenderV::DataSent(b) => {
            let b2 = b.ack(start, end);
            if b2.all_acked() {
                SenderV::DataRcvd
            } else {
                SenderV::DataSent(b2)
            }
        },
        _ => s,
    }
}

/// The state after `[start, end)` is declared lost: in-flight bytes of the
/// range are marked for retransmission.
pub open spec fn spec_loss(s: SenderV, start: int, end: int) -> SenderV {
    match s {
        SenderV::Sending(b) => SenderV::Sending(b.loss(start, end)),
        SenderV::DataSent(b) => SenderV::DataSent(b.loss(start, end)),
        _ => s,
    }
}

/// The state after a frame carrying `[off, off + len)` (and `fin`) left:
/// the buffer is updated, and once the committed final size is fully flushed
/// the stream moves to DataSent.
pub open spec fn sender_after_emit(s: SenderV, off: int, len: int, fin: bool) -> SenderV {
    match s {
        SenderV::Ready(b) => {
            let b2 = b.after_emit(off, len, fin);
            if b2.shutdown && b2.flags.len() == b2.data.len() {
                SenderV::DataSent(b2)
            } else {
                SenderV::Sending(b2)
            }
        },
        SenderV::Sending(b) => {
            let b2 = b.after_emit(off, len, fin);
            if b2.shutdown && b2.flags.len() == b2.data.len() {
                SenderV::DataSent(b2)
            } else {
                SenderV::Sending(b2)
            }
        },
        SenderV::DataSent(b) => SenderV::DataSent(b.after_emit(off, len, fin)),
        _ => s,
    }
}

/// An acknowledgment lifted over the error wrapper: once the connection is
/// dead nothing moves.
pub open spec fn ack_transition(o: Result<SenderV, Error>, start: int, end: int) -> Result<
    SenderV,
    Error,
> {
    match o {
        Ok(s) => Ok(spec_ack(s, start, end)),
        Err(e) => Err(e),
    }
}

/// A loss declaration lifted over the error wrapper.
pub open spec fn loss_transition(o: Result<SenderV, Error>, start: int, end: int) -> Result<
    SenderV,
    Error,
> {
    match o {
        Ok(s) => Ok(spec_loss(s, start, end)),
        Err(e) => Err(e),
    }
}

/// An application close lifted over the error wrapper: the fin is
/// committed at the written offset, a stream with nothing left to flush
/// goes straight to DataSent, and the second component says whether the
/// close was legal (it is not after a reset or on a dead connection).
pub open spec fn shutdown_transition(o: Result<SenderV, Error>) -> (Result<SenderV, Error>, bool) {
    match o {
        Ok(s) => match s {
            SenderV::Ready(b) => (
                Ok(
                    if b.data.len() == 0 {
                        SenderV::DataSent(with_shutdown(b))
                    } else {
                        SenderV::Ready(with_shutdown(b))
                    },
                ),
                true,
            ),
            SenderV::Sending(b) => (
                Ok(
                    if b.flags.len() == b.data.len() {
                        SenderV::DataSent(with_shutdown(b))
                    } else {
                        SenderV::Sending(with_shutdown(b))
                    },
                ),
                true,
            ),
            SenderV::DataSent(_) => (Ok(s), true),
            SenderV::DataRcvd => (Ok(s), true),
            _ => (Ok(s), false),
        },
        Err(e) => (Err(e), false),
    }
}

/// A MAX_STREAM_DATA advertisement lifted over the error wrapper: the
/// window of a stream still accepting writes rises monotonically, all
/// other states ignore it.
pub open spec fn window_transition(o: Result<SenderV, Error>, max_data_size: u64) -> Result<
    SenderV,
    Error,
> {
    match o {
        Ok(s) => Ok(
            match s {
                SenderV::Ready(b) => SenderV::Ready(
                    (SendBufV {
                        window: if max_data_size > b.window {
                            max_data_size
                        } else {
                            b.window
                        },
                        ..b
                    }),
                ),
                SenderV::Sending(b) => SenderV::Sending(
                    (SendBufV {
                        window: if max_data_size > b.window {
                            max_data_size
                        } else {
                            b.window
                        },
                        ..b
                    }),
                ),
                _ => s,
            },
        ),
        Err(e) => Err(e),
    }
}

/// The width of a STREAM frame header that omits the length field.
pub open spec fn hdr_no_len(sid: StreamId, off: int) -> int {
    1 + varint_len(sid.id) + (if off > 0 {
        varint_len(off as u64) as int
    } else {
        0
    })
}

/// Whether the emitted frame carries an explicit length. It may be omitted
/// only when the frame ends the packet: either the data already reaches the
/// capacity exactly, or the length field itself would not fit.
pub open spec fn spec_carries(sid: StreamId, off: int, len: int, space: int) -> bool {
    hdr_no_len(sid, off) + len != space && hdr_no_len(sid, off) + varint_len(len as u64) + len
        <= space
}

/// How many PADDING bytes go in front of the frame: only when the length
/// field would not fit but the data would, the gap is filled so that the
/// length-less frame still ends the packet exactly.
pub open spec fn spec_pad(sid: StreamId, off: int, len: int, space: int) -> int {
    if hdr_no_len(sid, off) + len == space || spec_carries(sid, off, len, space) {
        0
    } else {
        space - hdr_no_len(sid, off) - len
    }
}

/// What the next frame of this stream carries, given `space` free bytes of
/// packet buffer: the picked chunk truncated to the space behind the header,
/// or an empty FIN frame if the fin is committed but not yet emitted.
pub open spec fn spec_plan(b: SendBufV, sid: StreamId, space: int, tokens: int, flow_limit: int)
    -> Option<(int, int, bool)> {
    match spec_pick(b, tokens, flow_limit) {
        Some((off, avail, fresh)) => {
            let hdr = hdr_no_len(sid, off);
            if space < hdr + 1 {
                None
            } else {
                Some((off, imin(avail, space - hdr), fresh))
            }
        },
        None => {
            if b.shutdown && !b.fin_sent && b.flags.len() == b.data.len() {
                let hdr = hdr_no_len(sid, b.data.len() as int);
                if space >= hdr {
                    Some((b.data.len() as int, 0, true))
                } else {
                    None
                }
            } else {
                None
            }
        },
    }
}

/// `n` zero (PADDING) bytes.
pub open spec fn zero_seq(n: nat) -> Seq<u8> {
    Seq::new(n, |i: int| 0u8)
}

/// The full outcome of one emission attempt on a healthy stream:
/// `(frame, data_len, is_fresh, bytes_written, next_state)`.
pub open spec fn spec_try_read(
    o: Result<SenderV, Error>,
    sid: StreamId,
    space: int,
    tokens: int,
    flow_limit: int,
) -> Option<(StreamFrame, int, bool, int, SenderV)> {
    match o {
        Ok(s) => match sender_buf(s) {
            Some(b) => match spec_plan(b, sid, space, tokens, flow_limit) {
                Some((off, len, fresh)) => {
                    let fin = b.shutdown && off + len == b.data.len();
                    let carries = spec_carries(sid, off, len, space);
                    let frame = (StreamFrame {
                        id: sid,
                        offset: off as u64,
                        length: len as u64,
                        fin: fin,
                        carries_length: carries,
                    });
                    let written = spec_pad(sid, off, len, space) + hdr_no_len(sid, off) + (
                    if carries {
                        varint_len(len as u64) as int
                    } else {
                        0
                    }) + len;
                    Some((frame, len, fresh, written, sender_after_emit(s, off, len, fin)))
                },
                None => None,
            },
            None => None,
        },
        Err(_) => None,
    }
}

/// The bytes one emission attempt appends to the packet buffer: PADDING,
/// the frame header, then the covered data slice — or nothing when nothing
/// can go out.
pub open spec fn spec_emitted_bytes(
    o: Result<SenderV, Error>,
    sid: StreamId,
    space: int,
    tokens: int,
    flow_limit: int,
) -> Seq<u8> {
    match spec_try_read(o, sid, space, tokens, flow_limit) {
        Some(out) => match sender_buf(o->Ok_0) {
            Some(b) => zero_seq(spec_pad(sid, out.0.offset as int, out.1, space) as nat)
                + stream_frame_header_bytes(out.0) + b.data.subrange(
                out.0.offset as int,
                out.0.offset + out.1,
            ),
            None => Seq::empty(),
        },
        None => Seq::empty(),
    }
}

/// The send half of one stream, as the connection owns it.
#[derive(Clone, Debug)]
pub struct Outgoing {
    /// The lifecycle tag.
    pub state: SendState,
    /// The byte buffer; meaningful while the tag still owns data.
    pub buf: SendBuf,
    /// The final size frozen by a reset; meaningful in ResetSent.
    pub reset_size: u64,
    /// Set once a connection error tore the stream down.
    pub err: Option<Error>,
}

impl View for Outgoing {
    type V = Result<SenderV, Error>;

    open spec fn view(&self) -> Result<SenderV, Error> {
        match self.err {
            Some(e) => Err(e),
            None => Ok(
                match self.state {
                    SendState::Ready => SenderV::Ready(self.buf@),
                    SendState::Sending => SenderV::Sending(self.buf@),
                    SendState::DataSent => SenderV::DataSent(self.buf@),
                    SendState::DataRcvd => SenderV::DataRcvd,
                    SendState::ResetSent => SenderV::ResetSent(self.reset_size),
                    SendState::ResetRcvd => SenderV::ResetRcvd,
                },
            ),
        }
    }
}

impl Outgoing {
    pub open spec fn wf(self) -> bool {
        self.err is None ==> {
            &&& self.buf.wf()
            &&& (self.state is Ready ==> self.buf.flags@.len() == 0 && !self.buf.fin_sent)
            &&& (self.state is Sending ==> !(self.buf.shutdown && self.buf.flags@.len()
                == self.buf.data@.len()))
            &&& (self.state is DataSent ==> self.buf.shutdown && self.buf.flags@.len()
                == self.buf.data@.len())
        }
    }

    /// A fresh stream in Ready, with the peer-granted window `wnd_size`.
    pub fn new(wnd_size: u64) -> (o: Outgoing)
        requires
            wnd_size <= VARINT_MAX,
        ensures
            o.wf(),
            o@ == Ok::<SenderV, Error>(SenderV::Ready(empty_sendbuf(wnd_size))),
    {
        let o = Outgoing {
            state: SendState::Ready,
            buf: SendBuf::new(wnd_size),
            reset_size: 0,
            err: None,
        };
        proof {
            assert(o.buf@ =~= empty_sendbuf(wnd_size));
        }
        o
    }

    /// How many bytes the application has written so far.
    pub fn written_offset(&self) -> (n: u64)
        requires
            self.wf(),
        ensures
            match self@ {
                Ok(s) => match sender_buf(s) {
                    Some(b) => n == b.data.len(),
                    None => n == 0,
                },
                Err(_) => n == 0,
            },
    {
        if self.err.is_some() {
            return 0;
        }
        match self.state {
            SendState::Ready | SendState::Sending | SendState::DataSent => self.buf.data.len()
                as u64,
            _ => 0,
        }
    }

    /// The lifecycle tag, or `None` once a connection error replaced it.
    pub fn current_state(&self) -> (s: Option<SendState>)
        ensures
            self.err is Some <==> s is None,
            self.err is None ==> s == Some(self.state),
    {
        if self.err.is_some() {
            None
        } else {
            Some(self.state)
        }
    }

    /// The frozen final size while a reset awaits acknowledgment.
    pub fn reset_final_size(&self) -> (r: Option<u64>)
        ensures
            match self@ {
                Ok(s) => r == (if s is ResetSent {
                    Some(s->ResetSent_0)
                } else {
                    None::<u64>
                }),
                Err(_) => r is None,
            },
    {
        if self.err.is_none() && matches!(self.state, SendState::ResetSent) {
            Some(self.reset_size)
        } else {
            None
        }
    }

    /// Appends application data, bounded by the peer-granted flow window.
    /// The accepted prefix length is returned; zero means the writer must
    /// wait for the window to widen. Writing after a close or a reset fails,
    /// as does writing on a dead connection.
    pub fn write(&mut self, input: &[u8]) -> (r: Result<usize, Error>)
        requires
            old(self).wf(),
        ensures
            final(self).wf(),
            match old(self)@ {
                Ok(s) => match s {
                    SenderV::Ready(b) => if b.shutdown {
                        r is Err && final(self)@ == old(self)@
                    } else {
                        &&& r matches Ok(n) && n == imin(input@.len() as int, b.window - b.data.len())
                        &&& final(self)@ == Ok::<SenderV, Error>(
                            SenderV::Ready(
                                (SendBufV {
                                    data: b.data + input@.take(
                                        imin(input@.len() as int, b.window - b.data.len()),
                                    ),
                                    ..b
                                }),
                            ),
                        )
                    },
                    SenderV::Sending(b) => if b.shutdown {
                        r is Err && final(self)@ == old(self)@
                    } else {
                        &&& r matches Ok(n) && n == imin(input@.len() as int, b.window - b.data.len())
                        &&& final(self)@ == Ok::<SenderV, Error>(
                            SenderV::Sending(
                                (SendBufV {
                                    data: b.data + input@.take(
                                        imin(input@.len() as int, b.window - b.data.len()),
                                    ),
                                    ..b
                                }),
                            ),
                        )
                    },
                    _ => r is Err && final(self)@ == old(self)@,
                },
                Err(e) => r == Err::<usize, Error>(e) && final(self)@ == old(self)@,
            },
    {
        if let Some(e) = self.err {
            return Err(e);
        }
        match self.state {
            SendState::Ready | SendState::Sending => {
                if self.buf.shutdown {
                    Err(Error::new(ErrorKind::InvalidInput, FrameType::Stream, "write after close"))
                } else {
                    Ok(self.buf.write(input))
                }
            },
            _ => Err(Error::new(ErrorKind::InvalidInput, FrameType::Stream, "stream no longer writable")),
        }
    }

    /// Closes the stream for writing: the final size is frozen at the
    /// written offset. Idempotent once closed; fails after a reset.
    pub fn shutdown(&mut self) -> (r: Result<(), Error>)
        requires
            old(self).wf(),
        ensures
            final(self).wf(),
            final(self)@ == shutdown_transition(old(self)@).0,
            r is Ok <==> shutdown_transition(old(self)@).1,
            match old(self)@ {
                Err(e) => r == Err::<(), Error>(e),
                Ok(_) => true,
            },
    {
        if let Some(e) = self.err {
            return Err(e);
        }
        match self.state {
            SendState::Ready => {
                self.buf.shutdown = true;
                if self.buf.data.len() == 0 {
                    self.state = SendState::DataSent;
                }
                Ok(())
            },
            SendState::Sending => {
                self.buf.shutdown = true;
                if self.buf.flags.len() == self.buf.data.len() {
                    self.state = SendState::DataSent;
                }
                Ok(())
            },
            SendState::DataSent | SendState::DataRcvd => Ok(()),
            _ => Err(Error::new(ErrorKind::InvalidInput, FrameType::Stream, "stream was reset")),
        }
    }

    /// Records a MAX_STREAM_DATA advertisement; the window never shrinks,
    /// and only streams still accepting writes care.
    pub fn update_window(&mut self, max_data_size: u64)
        requires
            old(self).wf(),
            max_data_size <= VARINT_MAX,
        ensures
            final(self).wf(),
            final(self)@ == window_transition(old(self)@, max_data_size),
    {
        if self.err.is_some() {
            return ;
        }
        match self.state {
            SendState::Ready | SendState::Sending => {
                self.buf.update_window(max_data_size);
            },
            _ => {},
        }
    }

    /// Emits the next STREAM frame of this stream into `buf`, which may
    /// already hold earlier frames and can grow to `capacity` bytes.
    ///
    /// Loss-marked bytes go first (oldest offset, no flow accounting), then
    /// fresh bytes at the flushed offset, bounded by the scheduler `tokens`,
    /// the connection `flow_limit` and the space left in `buf`; a committed
    /// but unsent fin yields an empty FIN frame. The length field is omitted
    /// exactly when the frame ends the packet, with PADDING emitted first
    /// when the length would not fit but the data would. The result is
    /// `(frame, data_len, is_fresh, bytes_written)`.
    ///
    /// The written offset never changes here: only `write` advances it.
    #[verifier::loop_isolation(false)]
    #[verifier::rlimit(100)]
    pub fn try_read(
        &mut self,
        sid: StreamId,
        buf: &mut Vec<u8>,
        capacity: usize,
        tokens: usize,
        flow_limit: usize,
    ) -> (r: Option<(StreamFrame, usize, bool, usize)>)
        requires
            old(self).wf(),
            sid.wf(),
            old(buf)@.len() <= capacity,
        ensures
            final(self).wf(),
            final(buf)@.len() <= capacity,
            match spec_try_read(
                old(self)@,
                sid,
                capacity - old(buf)@.len(),
                tokens as int,
                flow_limit as int,
            ) {
                Some(out) => {
                    &&& r == Some((out.0, out.1 as usize, out.2, out.3 as usize))
                    &&& final(self)@ == Ok::<SenderV, Error>(out.4)
                    &&& final(buf)@.len() == old(buf)@.len() + out.3
                    &&& (!out.0.carries_length ==> final(buf)@.len() == capacity)
                    &&& (out.2 ==> out.1 <= flow_limit)
                    &&& out.1 <= tokens
                    &&& (match sender_buf(old(self)@->Ok_0) {
                        Some(b) => {
                            &&& final(buf)@ == old(buf)@ + zero_seq(
                                spec_pad(
                                    sid,
                                    out.0.offset as int,
                                    out.1,
                                    capacity - old(buf)@.len(),
                                ) as nat,
                            ) + stream_frame_header_bytes(out.0) + b.data.subrange(
                                out.0.offset as int,
                                out.0.offset + out.1,
                            )
                            &&& b.data == sender_buf(out.4)->Some_0.data
                        },
                        None => false,
                    })
                },
                None => r is None && *final(self) == *old(self) && final(buf)@ == old(buf)@,
            },
    {
        if self.err.is_some() {
            return None;
        }
        match self.state {
            SendState::Ready | SendState::Sending | SendState::DataSent => {},
            _ => {
                return None;
            },
        }
        let space = capacity - buf.len();
        let plan = plan_emission(&self.buf, sid, space, tokens, flow_limit);
        let (off, len, fresh): (u64, usize, bool) = match plan {
            Some(t) => t,
            None => {
                return None;
            },
        };
        let fin = self.buf.shutdown && off + (len as u64) == self.buf.data.len() as u64;
        let hdr = header_no_len_size(sid, off);
        let (carries, pad) = carry_pad(sid, off, len, space);
        let frame = StreamFrame {
            id: sid,
            offset: off,
            length: len as u64,
            fin: fin,
            carries_length: carries,
        };
        assert(frame.wf());
        emit_frame_bytes(buf, &self.buf.data, &frame, pad);
        let ghost pre_emit = self.buf@;
        if fresh {
            self.buf.push_inflight(len);
        } else {
            let fl = self.buf.flags.len();
            assert(off as int + len as int <= fl as int);
            let off_us = off as usize;
            assert(off_us as int == off as int);
            self.buf.mark_inflight(off_us, off_us + len);
        }
        if fin {
            self.buf.fin_sent = true;
        }
        proof {
            assert(self.buf@ =~= pre_emit.after_emit(off as int, len as int, fin));
        }
        if !matches!(self.state, SendState::DataSent) {
            if self.buf.shutdown && self.buf.flags.len() == self.buf.data.len() {
                self.state = SendState::DataSent;
            } else {
                self.state = SendState::Sending;
            }
        }
        let written = pad + hdr + (if carries {
            varint_length(len as u64)
        } else {
            0
        }) + len;
        proof {
            crate::frames::lemma_stream_frame_header_bytes_len(frame);
        }
        Some((frame, len, fresh, written))
    }

    /// Merges an acknowledged range into the stream state. Returns `true`
    /// exactly when this acknowledgment completed a DataSent stream: the
    /// caller should drop the stream from its table. `is_fin` is the FIN
    /// bit of the acknowledged frame; completion is judged from coverage of
    /// the committed final size alone.
    ///
    /// An acknowledgment can only arrive for data that was emitted, so the
    /// stream cannot still be in Ready.
    pub fn on_data_acked(&mut self, range: &Range<u64>, is_fin: bool) -> (r: bool)
        requires
            old(self).wf(),
            !(old(self)@ matches Ok(s) && s is Ready),
        ensures
            final(self).wf(),
            final(self)@ == ack_transition(old(self)@, range.start as int, range.end as int),
            r == (old(self)@ matches Ok(s) && s matches SenderV::DataSent(b) && b.ack(
                range.start as int,
                range.end as int,
            ).all_acked()),
    {
        let _ = is_fin;
        if self.err.is_some() {
            return false;
        }
        match self.state {
            SendState::Sending => {
                self.buf.mark_acked(range.start, range.end);
                false
            },
            SendState::DataSent => {
                self.buf.mark_acked(range.start, range.end);
                if self.buf.is_all_acked() {
                    self.state = SendState::DataRcvd;
                    true
                } else {
                    false
                }
            },
            _ => false,
        }
    }

    /// Marks a lost range for retransmission; acknowledged bytes stay
    /// acknowledged.
    ///
    /// A loss can only be declared for data that was emitted, so the stream
    /// cannot still be in Ready.
    pub fn may_loss_data(&mut self, range: &Range<u64>)
        requires
            old(self).wf(),
            !(old(self)@ matches Ok(s) && s is Ready),
        ensures
            final(self).wf(),
            final(self)@ == loss_transition(old(self)@, range.start as int, range.end as int),
    {
        if self.err.is_some() {
            return ;
        }
        match self.state {
            SendState::Sending | SendState::DataSent => {
                self.buf.mark_lost(range.start, range.end);
            },
            _ => {},
        }
    }

    /// A peer STOP_SENDING: abandons the stream at the current written
    /// offset. Returns `true` when the stream actually moved to ResetSent
    /// (the caller must then emit a RESET_STREAM); `false` when the stream
    /// was already finished or reset, or the connection is dead.
    pub fn stop(&mut self) -> (r: bool)
        requires
            old(self).wf(),
        ensures
            final(self).wf(),
            match old(self)@ {
                Ok(s) => match sender_buf(s) {
                    Some(b) => r && final(self)@ == Ok::<SenderV, Error>(
                        SenderV::ResetSent(b.data.len() as u64),
                    ),
                    None => !r && final(self)@ == old(self)@,
                },
                Err(_) => !r && final(self)@ == old(self)@,
            },
    {
        if self.err.is_some() {
            return false;
        }
        match self.state {
            SendState::Ready | SendState::Sending | SendState::DataSent => {
                self.reset_size = self.buf.data.len() as u64;
                self.state = SendState::ResetSent;
                true
            },
            _ => false,
        }
    }

    /// The peer acknowledged our RESET_STREAM; the stream is finished.
    ///
    /// Only meaningful after a reset was sent.
    pub fn on_reset_acked(&mut self)
        requires
            old(self).wf(),
            old(self)@ matches Ok(s) ==> (s is ResetSent || s is ResetRcvd),
        ensures
            final(self).wf(),
            match old(self)@ {
                Ok(_) => final(self)@ == Ok::<SenderV, Error>(SenderV::ResetRcvd),
                Err(_) => final(self)@ == old(self)@,
            },
    {
        if self.err.is_some() {
            return ;
        }
        self.state = SendState::ResetRcvd;
    }

    /// The application cancelled the stream with `err_code`: a stream that
    /// still owned data moves to ResetSent and the frozen final size is
    /// handed back so that a RESET_STREAM can be emitted. On a finished,
    /// already reset, or dead stream nothing happens.
    pub fn is_cancelled_by_app(&mut self, err_code: u64) -> (r: IsCancelled)
        requires
            old(self).wf(),
            err_code <= VARINT_MAX,
        ensures
            final(self).wf(),
            match old(self)@ {
                Ok(s) => match sender_buf(s) {
                    Some(b) => r == (IsCancelled(Some((b.data.len() as u64, err_code))))
                        && final(self)@ == Ok::<SenderV, Error>(SenderV::ResetSent(b.data.len() as u64)),
                    None => r == (IsCancelled(None::<(u64, u64)>)) && final(self)@ == old(self)@,
                },
                Err(_) => r == (IsCancelled(None::<(u64, u64)>)) && final(self)@ == old(self)@,
            },
    {
        if self.err.is_some() {
            return IsCancelled(None);
        }
        match self.state {
            SendState::Ready | SendState::Sending | SendState::DataSent => {
                let final_size = self.buf.data.len() as u64;
                self.reset_size = final_size;
                self.state = SendState::ResetSent;
                IsCancelled(Some((final_size, err_code)))
            },
            _ => IsCancelled(None),
        }
    }

    /// A connection error: a stream that still owned data is torn down and
    /// every later operation surfaces the error; finished streams keep
    /// their terminal state.
    pub fn on_conn_error(&mut self, err: &Error)
        requires
            old(self).wf(),
        ensures
            final(self).wf(),
            match old(self)@ {
                Ok(s) => if sender_buf(s) is Some {
                    final(self)@ == Err::<SenderV, Error>(
                        (Error {
                            kind: ErrorKind::BrokenPipe,
                            frame_type: err.frame_type,
                            reason: err.reason,
                        }),
                    )
                } else {
                    final(self)@ == old(self)@
                },
                Err(_) => final(self)@ == old(self)@,
            },
    {
        if self.err.is_some() {
            return ;
        }
        match self.state {
            SendState::Ready | SendState::Sending | SendState::DataSent => {
                self.err = Some(
                    Error::new(ErrorKind::BrokenPipe, err.frame_type, err.reason),
                );
            },
            _ => {},
        }
    }
}

/// The resolved outcome of watching a stream for application cancellation:
/// `(final_size, app_error_code)` once the watcher must emit a RESET_STREAM.
pub struct IsCancelled(pub Option<(u64, u64)>);

/// Computes [`spec_plan`] at run time: the offset, data length and
/// freshness of the next frame of `b`, or `None` when nothing can go out.
fn plan_emission(b: &SendBuf, sid: StreamId, space: usize, tokens: usize, flow_limit: usize) -> (r:
    Option<(u64, usize, bool)>)
    requires
        b.wf(),
        sid.wf(),
    ensures
        match r {
            Some((off, len, fresh)) => {
                &&& spec_plan(b@, sid, space as int, tokens as int, flow_limit as int) == Some(
                    (off as int, len as int, fresh),
                )
                &&& off + len <= b.data@.len()
                &&& (fresh ==> len <= flow_limit)
                &&& len <= tokens
                &&& hdr_no_len(sid, off as int) + len <= space
                &&& (fresh && len > 0 ==> off == b.flags@.len())
                &&& (!fresh ==> off + len <= b.flags@.len() && len >= 1)
                &&& (len == 0 ==> off == b.flags@.len() && off == b.data@.len())
                &&& off <= VARINT_MAX
            },
            None => spec_plan(b@, sid, space as int, tokens as int, flow_limit as int) is None,
        },
{
    let pick = b.pick_chunk(tokens, flow_limit);
    match pick {
        Some((o, avail, fr)) => {
            let hdr0 = header_no_len_size(sid, o);
            if space < hdr0 + 1 {
                return None;
            }
            let cap_len = space - hdr0;
            let len = if avail <= cap_len {
                avail
            } else {
                cap_len
            };
            Some((o, len, fr))
        },
        None => {
            if b.shutdown && !b.fin_sent && b.flags.len() == b.data.len() {
                let o = b.data.len() as u64;
                let hdr0 = header_no_len_size(sid, o);
                if space < hdr0 {
                    return None;
                }
                Some((o, 0, true))
            } else {
                None
            }
        },
    }
}

/// Decides whether the frame carries an explicit length and how much
/// PADDING precedes it, per [`spec_carries`] and [`spec_pad`].
fn carry_pad(sid: StreamId, off: u64, len: usize, space: usize) -> (r: (bool, usize))
    requires
        sid.wf(),
        off <= VARINT_MAX,
        hdr_no_len(sid, off as int) + len <= space,
    ensures
        r.0 == spec_carries(sid, off as int, len as int, space as int),
        r.1 == spec_pad(sid, off as int, len as int, space as int),
        !r.0 ==> hdr_no_len(sid, off as int) + len + r.1 == space,
        r.0 ==> r.1 == 0,
{
    let hdr = header_no_len_size(sid, off);
    if hdr + len == space {
        (false, 0)
    } else {
        let ll = varint_length(len as u64);
        if ll <= space - (hdr + len) {
            (true, 0)
        } else {
            (false, space - hdr - len)
        }
    }
}

/// Writes `pad` PADDING bytes, then the frame header, then the covered
/// slice of `data`.
#[verifier::loop_isolation(false)]
fn emit_frame_bytes(buf: &mut Vec<u8>, data: &Vec<u8>, frame: &StreamFrame, pad: usize)
    requires
        frame.wf(),
        frame.offset + frame.length <= data@.len(),
    ensures
        final(buf)@ == old(buf)@ + zero_seq(pad as nat) + stream_frame_header_bytes(*frame)
            + data@.subrange(frame.offset as int, frame.offset + frame.length),
        final(buf)@.len() == old(buf)@.len() + pad + stream_frame_header_bytes(*frame).len()
            + frame.length,
{
    let ghost buf0 = buf@;
    let mut p: usize = 0;
    while p < pad
        invariant
            p <= pad,
            buf@ == buf0 + zero_seq(p as nat),
        decreases pad - p,
    {
        buf.push(0u8);
        assert(buf@ =~= buf0 + zero_seq((p + 1) as nat));
        p = p + 1;
    }
    encode_stream_frame_header(buf, frame);
    let ghost buf1 = buf@;
    let dl = data.len();
    assert(frame.offset <= dl && frame.length <= dl);
    let off_us = frame.offset as usize;
    let len = frame.length as usize;
    assert(off_us as int == frame.offset as int && len as int == frame.length as int);
    assert(off_us + len <= dl);
    let mut k: usize = 0;
    while k < len
        invariant
            k <= len,
            buf@ == buf1 + data@.subrange(off_us as int, off_us as int + k),
        decreases len - k,
    {
        buf.push(data[off_us + k]);
        assert(buf@ =~= buf1 + data@.subrange(off_us as int, off_us as int + k + 1));
        k = k + 1;
    }
    assert(buf@ =~= buf0 + zero_seq(pad as nat) + stream_frame_header_bytes(*frame)
        + data@.subrange(frame.offset as int, frame.offset + frame.length));
}

/// The width of a STREAM frame header without a length field, as a run-time
/// value.
fn header_no_len_size(sid: StreamId, off: u64) -> (n: usize)
    requires
        sid.wf(),
        off <= VARINT_MAX,
    ensures
        n == hdr_no_len(sid, off as int),
{
    1 + varint_length(sid.id) + (if off > 0 {
        varint_length(off)
    } else {
        0
    })
}

/// Law: an emission never changes the written offset; together with the
/// `write` contract (which only appends), the written offset observed
/// across `try_read` calls is non-decreasing.
pub proof fn lemma_emit_preserves_written(s: SenderV, off: int, len: int, fin: bool)
    ensures
        match (sender_buf(s), sender_buf(sender_after_emit(s, off, len, fin))) {
            (Some(b), Some(b2)) => b2.data == b.data,
            (None, None) => sender_after_emit(s, off, len, fin) == s,
            _ => false,
        },
{
}

/// Law: acknowledging two ranges leaves the same state in either order,
/// even when the ranges overlap.
pub proof fn lemma_ack_ack_commute(o: Result<SenderV, Error>, a1: int, b1: int, a2: int, b2: int)
    ensures
        ack_transition(ack_transition(o, a1, b1), a2, b2) == ack_transition(
            ack_transition(o, a2, b2),
            a1,
            b1,
        ),
{
    if let Ok(s) = o {
        match s {
            SenderV::Sending(b) => {
                crate::sendbuf::lemma_mark_acked_commutes(b.flags, a1, b1, a2, b2);
                assert(b.ack(a1, b1).ack(a2, b2) =~= b.ack(a2, b2).ack(a1, b1));
            },
            SenderV::DataSent(b) => {
                crate::sendbuf::lemma_mark_acked_commutes(b.flags, a1, b1, a2, b2);
                assert(b.ack(a1, b1).ack(a2, b2) =~= b.ack(a2, b2).ack(a1, b1));
                lemma_ack_keeps_all_acked(b.ack(a1, b1), a2, b2);
                lemma_ack_keeps_all_acked(b.ack(a2, b2), a1, b1);
            },
            _ => {},
        }
    }
}

/// Law: acknowledging the same range twice is the same as acknowledging it
/// once.
pub proof fn lemma_ack_idempotent(o: Result<SenderV, Error>, a: int, b: int)
    ensures
        ack_transition(ack_transition(o, a, b), a, b) == ack_transition(o, a, b),
{
    if let Ok(s) = o {
        match s {
            SenderV::Sending(bf) => {
                crate::sendbuf::lemma_mark_acked_idempotent(bf.flags, a, b);
                assert(bf.ack(a, b).ack(a, b) =~= bf.ack(a, b));
            },
            SenderV::DataSent(bf) => {
                crate::sendbuf::lemma_mark_acked_idempotent(bf.flags, a, b);
                assert(bf.ack(a, b).ack(a, b) =~= bf.ack(a, b));
            },
            _ => {},
        }
    }
}

/// Law: a loss declaration and an acknowledgment of disjoint ranges leave
/// the same state in either order.
pub proof fn lemma_loss_ack_commute(
    o: Result<SenderV, Error>,
    la: int,
    lb: int,
    aa: int,
    ab: int,
)
    requires
        lb <= aa || ab <= la,
    ensures
        ack_transition(loss_transition(o, la, lb), aa, ab) == loss_transition(
            ack_transition(o, aa, ab),
            la,
            lb,
        ),
{
    if let Ok(s) = o {
        match s {
            SenderV::Sending(b) => {
                crate::sendbuf::lemma_mark_lost_acked_commute(b.flags, la, lb, aa, ab);
                assert(b.loss(la, lb).ack(aa, ab) =~= b.ack(aa, ab).loss(la, lb));
            },
            SenderV::DataSent(b) => {
                crate::sendbuf::lemma_mark_lost_acked_commute(b.flags, la, lb, aa, ab);
                assert(b.loss(la, lb).ack(aa, ab) =~= b.ack(aa, ab).loss(la, lb));
                lemma_loss_keeps_ack_coverage(b, la, lb, aa, ab);
            },
            _ => {},
        }
    }
}

/// Marking more bytes acknowledged cannot destroy full coverage.
proof fn lemma_ack_keeps_all_acked(b: SendBufV, a: int, c: int)
    ensures
        b.all_acked() ==> b.ack(a, c).all_acked(),
{
    if b.all_acked() {
        assert forall|i: int| 0 <= i < b.ack(a, c).flags.len() implies b.ack(
            a,
            c,
        ).flags[i] is Acked by {
            assert(b.flags[i] is Acked);
        }
    }
}

/// A loss declaration touches no acknowledged byte, so it does not change
/// whether an acknowledgment completes the stream.
proof fn lemma_loss_keeps_ack_coverage(b: SendBufV, la: int, lb: int, aa: int, ab: int)
    ensures
        b.loss(la, lb).ack(aa, ab).all_acked() == b.ack(aa, ab).all_acked(),
{
    let x = b.loss(la, lb).ack(aa, ab);
    let y = b.ack(aa, ab);
    assert forall|i: int| 0 <= i < x.flags.len() implies (x.flags[i] is Acked <==> y.flags[i]
        is Acked) by {}
    if y.all_acked() {
        assert forall|i: int| 0 <= i < x.flags.len() implies x.flags[i] is Acked by {
            assert(y.flags[i] is Acked);
        }
    }
    if x.all_acked() {
        assert forall|i: int| 0 <= i < y.flags.len() implies y.flags[i] is Acked by {
            assert(x.flags[i] is Acked);
        }
    }
}

} // verus!
