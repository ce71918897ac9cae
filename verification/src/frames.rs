//! The frames this crate emits or consumes, their exact wire encodings, and
//! the queue of pending control frames.
//!
//! Inbound frames arrive already decoded (the wire parser is an external
//! collaborator); outbound frames are encoded here, byte for byte.

use vstd::prelude::*;
use core::ops::Range;
use crate::sid::StreamId;
use crate::varint::{encode_varint, varint_bytes, varint_len, varint_length, VARINT_MAX};

verus! {

/// A STREAM frame header as emitted by the scheduler: the data bytes follow
/// it in the packet. `carries_length` records whether the explicit length
/// field was present (it may be omitted only for the last frame of a packet).
#[derive(Clone, Copy, Debug, PartialEq, Eq, Structural)]
pub struct StreamFrame {
    pub id: StreamId,
    pub offset: u64,
    pub length: u64,
    pub fin: bool,
    pub carries_length: bool,
}

impl StreamFrame {
    pub open spec fn wf(self) -> bool {
        &&& self.id.wf()
        &&& self.offset <= VARINT_MAX
        &&& self.length <= VARINT_MAX
        &&& self.offset + self.length <= VARINT_MAX
    }

    /// The absolute byte range the frame covers.
    pub open spec fn spec_range(self) -> Range<u64> {
        self.offset..(self.offset + self.length) as u64
    }

    pub fn range(&self) -> (r: Range<u64>)
        requires
            self.wf(),
        ensures
            r == self.spec_range(),
            r.start == self.offset,
            r.end == self.offset + self.length,
    {
        self.offset..self.offset + self.length
    }

    pub fn is_fin(&self) -> (b: bool)
        ensures
            b == self.fin,
    {
        self.fin
    }
}

/// The type byte of a STREAM frame: `0x08` plus the OFF, LEN and FIN bits.
/// The OFF bit is set exactly when the offset is non-zero.
pub open spec fn stream_frame_type_byte(offset: u64, carries_length: bool, fin: bool) -> u8 {
    (8 + (if offset > 0 {
        4int
    } else {
        0int
    }) + (if carries_length {
        2int
    } else {
        0int
    }) + (if fin {
        1int
    } else {
        0int
    })) as u8
}

/// The encoded header of a STREAM frame (the data bytes follow it).
pub open spec fn stream_frame_header_bytes(f: StreamFrame) -> Seq<u8> {
    seq![stream_frame_type_byte(f.offset, f.carries_length, f.fin)] + varint_bytes(f.id.id) + (
    if f.offset > 0 {
        varint_bytes(f.offset)
    } else {
        Seq::<u8>::empty()
    }) + (if f.carries_length {
        varint_bytes(f.length)
    } else {
        Seq::<u8>::empty()
    })
}

/// The width of a STREAM frame header with the given shape.
pub open spec fn stream_frame_header_len(
    sid: StreamId,
    offset: u64,
    carries_length: bool,
    length: u64,
) -> nat {
    1 + varint_len(sid.id) + (if offset > 0 {
        varint_len(offset)
    } else {
        0nat
    }) + (if carries_length {
        varint_len(length)
    } else {
        0nat
    })
}

pub broadcast proof fn lemma_stream_frame_header_bytes_len(f: StreamFrame)
    ensures
        (#[trigger] stream_frame_header_bytes(f)).len() == stream_frame_header_len(
            f.id,
            f.offset,
            f.carries_length,
            f.length,
        ),
{
}

/// Appends the header of `f` to `buf`.
pub fn encode_stream_frame_header(buf: &mut Vec<u8>, f: &StreamFrame)
    requires
        f.wf(),
    ensures
        final(buf)@ == old(buf)@ + stream_frame_header_bytes(*f),
{
    let mut ty: u8 = 8;
    if f.offset > 0 {
        ty = ty + 4;
    }
    if f.carries_length {
        ty = ty + 2;
    }
    if f.fin {
        ty = ty + 1;
    }
    buf.push(ty);
    encode_varint(buf, f.id.id);
    if f.offset > 0 {
        encode_varint(buf, f.offset);
    }
    if f.carries_length {
        encode_varint(buf, f.length);
    }
    assert(buf@ =~= old(buf)@ + stream_frame_header_bytes(*f));
}

/// A DATAGRAM frame header: type `0x30` carries no length (the payload runs
/// to the end of the packet), type `0x31` carries it explicitly.
#[derive(Clone, Copy, Debug, PartialEq, Eq, Structural)]
pub enum DatagramFrame {
    NoLen,
    WithLen(u64),
}

impl DatagramFrame {
    pub open spec fn wf(self) -> bool {
        match self {
            DatagramFrame::NoLen => true,
            DatagramFrame::WithLen(l) => l <= VARINT_MAX,
        }
    }

    /// The width of the encoded header.
    pub open spec fn spec_encoding_size(self) -> nat {
        match self {
            DatagramFrame::NoLen => 1,
            DatagramFrame::WithLen(l) => 1 + varint_len(l),
        }
    }

    pub fn encoding_size(&self) -> (n: usize)
        ensures
            n == self.spec_encoding_size(),
    {
        match self {
            DatagramFrame::NoLen => 1,
            DatagramFrame::WithLen(l) => 1 + varint_length(*l),
        }
    }
}

/// The encoded header of a DATAGRAM frame (the payload follows it).
pub open spec fn datagram_frame_header_bytes(f: DatagramFrame) -> Seq<u8> {
    match f {
        DatagramFrame::NoLen => seq![0x30u8],
        DatagramFrame::WithLen(l) => seq![0x31u8] + varint_bytes(l),
    }
}

/// Appends the header of `f` to `buf`.
pub fn encode_datagram_frame_header(buf: &mut Vec<u8>, f: &DatagramFrame)
    requires
        f.wf(),
    ensures
        final(buf)@ == old(buf)@ + datagram_frame_header_bytes(*f),
{
    match f {
        DatagramFrame::NoLen => {
            buf.push(0x30);
        },
        DatagramFrame::WithLen(l) => {
            buf.push(0x31);
            encode_varint(buf, *l);
        },
    }
    assert(buf@ =~= old(buf)@ + datagram_frame_header_bytes(*f));
}

/// RESET_STREAM: the sender abandons the stream at `final_size`.
#[derive(Clone, Copy, Debug, PartialEq, Eq, Structural)]
pub struct ResetStreamFrame {
    pub stream_id: StreamId,
    pub app_error_code: u64,
    pub final_size: u64,
}

/// STOP_SENDING: the receiver asks the peer to abandon the stream.
#[derive(Clone, Copy, Debug, PartialEq, Eq, Structural)]
pub struct StopSendingFrame {
    pub stream_id: StreamId,
    pub app_err_code: u64,
}

/// MAX_STREAM_DATA: a new per-stream flow-control credit.
#[derive(Clone, Copy, Debug, PartialEq, Eq, Structural)]
pub struct MaxStreamDataFrame {
    pub stream_id: StreamId,
    pub max_stream_data: u64,
}

/// MAX_STREAMS: a new count of streams the peer may open.
#[derive(Clone, Copy, Debug, PartialEq, Eq, Structural)]
pub enum MaxStreamsFrame {
    Bi(u64),
    Uni(u64),
}

/// STREAM_DATA_BLOCKED: the peer reports it is stalled on stream credit.
#[derive(Clone, Copy, Debug, PartialEq, Eq, Structural)]
pub struct StreamDataBlockedFrame {
    pub stream_id: StreamId,
    pub stream_data_limit: u64,
}

/// STREAMS_BLOCKED: the peer reports it is stalled on the stream count.
#[derive(Clone, Copy, Debug, PartialEq, Eq, Structural)]
pub enum StreamsBlockedFrame {
    Bi(u64),
    Uni(u64),
}

/// The stream-related control frames the dispatcher consumes and the
/// scheduler emits.
#[derive(Clone, Copy, Debug, PartialEq, Eq, Structural)]
pub enum StreamCtlFrame {
    ResetStream(ResetStreamFrame),
    StopSending(StopSendingFrame),
    MaxStreamData(MaxStreamDataFrame),
    MaxStreams(MaxStreamsFrame),
    StreamDataBlocked(StreamDataBlockedFrame),
    StreamsBlocked(StreamsBlockedFrame),
}

impl StreamCtlFrame {
    pub open spec fn wf(self) -> bool {
        match self {
            StreamCtlFrame::ResetStream(f) => f.stream_id.wf() && f.app_error_code <= VARINT_MAX
                && f.final_size <= VARINT_MAX,
            StreamCtlFrame::StopSending(f) => f.stream_id.wf() && f.app_err_code <= VARINT_MAX,
            StreamCtlFrame::MaxStreamData(f) => f.stream_id.wf() && f.max_stream_data
                <= VARINT_MAX,
            StreamCtlFrame::MaxStreams(f) => match f {
                MaxStreamsFrame::Bi(n) => n <= VARINT_MAX,
                MaxStreamsFrame::Uni(n) => n <= VARINT_MAX,
            },
            StreamCtlFrame::StreamDataBlocked(f) => f.stream_id.wf() && f.stream_data_limit
                <= VARINT_MAX,
            StreamCtlFrame::StreamsBlocked(f) => match f {
                StreamsBlockedFrame::Bi(n) => n <= VARINT_MAX,
                StreamsBlockedFrame::Uni(n) => n <= VARINT_MAX,
            },
        }
    }
}

/// The encoded form of a control frame.
pub open spec fn ctl_frame_bytes(f: StreamCtlFrame) -> Seq<u8> {
    match f {
        StreamCtlFrame::ResetStream(r) => seq![0x04u8] + varint_bytes(r.stream_id.id)
            + varint_bytes(r.app_error_code) + varint_bytes(r.final_size),
        StreamCtlFrame::StopSending(s) => seq![0x05u8] + varint_bytes(s.stream_id.id)
            + varint_bytes(s.app_err_code),
        StreamCtlFrame::MaxStreamData(m) => seq![0x11u8] + varint_bytes(m.stream_id.id)
            + varint_bytes(m.max_stream_data),
        StreamCtlFrame::MaxStreams(m) => match m {
            MaxStreamsFrame::Bi(n) => seq![0x12u8] + varint_bytes(n),
            MaxStreamsFrame::Uni(n) => seq![0x13u8] + varint_bytes(n),
        },
        StreamCtlFrame::StreamDataBlocked(b) => seq![0x15u8] + varint_bytes(b.stream_id.id)
            + varint_bytes(b.stream_data_limit),
        StreamCtlFrame::StreamsBlocked(b) => match b {
            StreamsBlockedFrame::Bi(n) => seq![0x16u8] + varint_bytes(n),
            StreamsBlockedFrame::Uni(n) => seq![0x17u8] + varint_bytes(n),
        },
    }
}

/// Appends the encoding of `f` to `buf`.
pub fn encode_ctl_frame(buf: &mut Vec<u8>, f: &StreamCtlFrame)
    requires
        f.wf(),
    ensures
        final(buf)@ == old(buf)@ + ctl_frame_bytes(*f),
{
    match f {
        StreamCtlFrame::ResetStream(r) => {
            buf.push(0x04);
            encode_varint(buf, r.stream_id.id);
            encode_varint(buf, r.app_error_code);
            encode_varint(buf, r.final_size);
        },
        StreamCtlFrame::StopSending(s) => {
            buf.push(0x05);
            encode_varint(buf, s.stream_id.id);
            encode_varint(buf, s.app_err_code);
        },
        StreamCtlFrame::MaxStreamData(m) => {
            buf.push(0x11);
            encode_varint(buf, m.stream_id.id);
            encode_varint(buf, m.max_stream_data);
        },
        StreamCtlFrame::MaxStreams(m) => {
            match m {
                MaxStreamsFrame::Bi(n) => {
                    buf.push(0x12);
                    encode_varint(buf, *n);
                },
                MaxStreamsFrame::Uni(n) => {
                    buf.push(0x13);
                    encode_varint(buf, *n);
                },
            }
        },
        StreamCtlFrame::StreamDataBlocked(b) => {
            buf.push(0x15);
            encode_varint(buf, b.stream_id.id);
            encode_varint(buf, b.stream_data_limit);
        },
        StreamCtlFrame::StreamsBlocked(b) => {
            match b {
                StreamsBlockedFrame::Bi(n) => {
                    buf.push(0x16);
                    encode_varint(buf, *n);
                },
                StreamsBlockedFrame::Uni(n) => {
                    buf.push(0x17);
                    encode_varint(buf, *n);
                },
            }
        },
    }
    assert(buf@ =~= old(buf)@ + ctl_frame_bytes(*f));
}

/// An ACK frame as the recovery machinery hands it over: the largest
/// acknowledged packet number, the peer's ack delay, and the acknowledged
/// packet-number ranges as `(start, end)` pairs.
#[derive(Clone, Debug)]
pub struct AckFrame {
    pub largest: u64,
    pub delay: u64,
    pub ranges: Vec<(u64, u64)>,
}

/// A sink for control frames awaiting transmission. The connection hands one
/// to each component that must emit control frames; the packetizer drains it.
pub trait SendFrame<F> {
    /// The frames enqueued so far, oldest first.
    spec fn queued(&self) -> Seq<F>;

    /// Enqueues `frames` behind everything already queued, in order.
    fn send_frame(&mut self, frames: Vec<F>)
        ensures
            final(self).queued() == old(self).queued() + frames@,
    ;
}

/// What repeatedly dequeueing control frames into a packet leaves behind:
/// frames leave the front of `queue` in order, each appending its encoding
/// to `buf`, until the queue is empty or the next frame would overflow
/// `capacity`. The result is the filled buffer and the remaining queue.
pub open spec fn drain_ctl(queue: Seq<StreamCtlFrame>, buf: Seq<u8>, capacity: int) -> (
    Seq<u8>,
    Seq<StreamCtlFrame>,
)
    decreases queue.len(),
{
    if queue.len() == 0 {
        (buf, queue)
    } else {
        let fb = ctl_frame_bytes(queue[0]);
        if buf.len() + fb.len() <= capacity {
            drain_ctl(queue.drop_first(), buf + fb, capacity)
        } else {
            (buf, queue)
        }
    }
}

/// The connection's FIFO of pending stream control frames.
#[derive(Clone, Debug)]
pub struct ControlFrameQueue {
    pub frames: Vec<StreamCtlFrame>,
}

impl ControlFrameQueue {
    pub fn new() -> (q: ControlFrameQueue)
        ensures
            q.frames@ == Seq::<StreamCtlFrame>::empty(),
    {
        ControlFrameQueue { frames: Vec::new() }
    }

    /// Every queued frame is well formed.
    pub open spec fn wf(self) -> bool {
        forall|i: int| 0 <= i < self.frames@.len() ==> (#[trigger] self.frames@[i]).wf()
    }

    /// Encodes the oldest pending frame into `buf` if it fits within
    /// `capacity`; frames leave the queue in enqueue order.
    pub fn try_read_ctl_frame(&mut self, buf: &mut Vec<u8>, capacity: usize) -> (r: Option<
        StreamCtlFrame,
    >)
        requires
            old(self).wf(),
            old(buf)@.len() <= capacity,
        ensures
            final(self).wf(),
            match r {
                Some(f) => {
                    &&& old(self).frames@.len() > 0
                    &&& f == old(self).frames@[0]
                    &&& final(self).frames@ == old(self).frames@.drop_first()
                    &&& final(buf)@ == old(buf)@ + ctl_frame_bytes(f)
                    &&& final(buf)@.len() <= capacity
                },
                None => {
                    &&& *final(self) == *old(self)
                    &&& final(buf)@ == old(buf)@
                    &&& (old(self).frames@.len() > 0 ==> old(buf)@.len() + ctl_frame_bytes(
                        old(self).frames@[0],
                    ).len() > capacity)
                },
            },
    {
        if self.frames.len() == 0 {
            return None;
        }
        let f = self.frames[0];
        let sz = ctl_frame_encoding_size(&f);
        if capacity - buf.len() < sz {
            return None;
        }
        let f = self.frames.remove(0);
        encode_ctl_frame(buf, &f);
        Some(f)
    }
}

/// The width of the encoding of `f`.
pub fn ctl_frame_encoding_size(f: &StreamCtlFrame) -> (n: usize)
    ensures
        n == ctl_frame_bytes(*f).len(),
{
    match f {
        StreamCtlFrame::ResetStream(r) => 1 + varint_length(r.stream_id.id) + varint_length(
            r.app_error_code,
        ) + varint_length(r.final_size),
        StreamCtlFrame::StopSending(s) => 1 + varint_length(s.stream_id.id) + varint_length(
            s.app_err_code,
        ),
        StreamCtlFrame::MaxStreamData(m) => 1 + varint_length(m.stream_id.id) + varint_length(
            m.max_stream_data,
        ),
        StreamCtlFrame::MaxStreams(m) => match m {
            MaxStreamsFrame::Bi(n) => 1 + varint_length(*n),
            MaxStreamsFrame::Uni(n) => 1 + varint_length(*n),
        },
        StreamCtlFrame::StreamDataBlocked(b) => 1 + varint_length(b.stream_id.id) + varint_length(
            b.stream_data_limit,
        ),
        StreamCtlFrame::StreamsBlocked(b) => match b {
            StreamsBlockedFrame::Bi(n) => 1 + varint_length(*n),
            StreamsBlockedFrame::Uni(n) => 1 + varint_length(*n),
        },
    }
}

impl SendFrame<StreamCtlFrame> for ControlFrameQueue {
    open spec fn queued(&self) -> Seq<StreamCtlFrame> {
        self.frames@
    }

    fn send_frame(&mut self, frames: Vec<StreamCtlFrame>) {
        let mut i: usize = 0;
        while i < frames.len()
            invariant
                i <= frames@.len(),
                self.frames@ == old(self).frames@ + frames@.take(i as int),
            decreases frames@.len() - i,
        {
            self.frames.push(frames[i]);
            assert(self.frames@ =~= old(self).frames@ + frames@.take(i + 1));
            i = i + 1;
        }
        assert(self.frames@ =~= old(self).frames@ + frames@);
    }
}

} // verus!
