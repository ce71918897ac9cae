//! The unreliable datagram channel: a bounded-size FIFO of opaque payloads
//! sharing the packetization substrate with the streams.
//!
//! A payload is accepted only once the peer's `max_datagram_frame_size` is
//! known and the smallest encoding fits it; the transport drains the queue
//! into DATAGRAM frames, preferring the form that carries an explicit
//! length and padding in front of the length-less form so that it ends the
//! packet exactly.

use vstd::prelude::*;
use crate::err::{Error, ErrorKind, FrameType};
use crate::frames::{datagram_frame_header_bytes, encode_datagram_frame_header, DatagramFrame};
use crate::sender::zero_seq;
use crate::varint::{varint_len, varint_length, VARINT_MAX};

verus! {

/// The queue of datagrams awaiting emission, and the peer's advertised
/// ceiling on the whole encoded frame.
#[derive(Clone, Debug)]
pub struct RawDatagramWriter {
    /// The peer's `max_datagram_frame_size`, once its transport parameters
    /// arrived. Monotonic: it may only rise.
    pub remote_max_size: Option<usize>,
    /// Payloads to send, oldest first.
    pub queue: Vec<Vec<u8>>,
}

/// The transport-side owner of the datagram channel. A connection error
/// replaces the queue with the error; application sends then fail with it.
#[derive(Clone, Debug)]
pub struct DatagramOutgoing {
    pub writer: RawDatagramWriter,
    pub err: Option<Error>,
}

/// What one datagram emission attempt into a packet with `buflen` bytes
/// already written and `capacity` in all yields: the frame, the count of
/// appended bytes, and the appended bytes themselves — or `None` when the
/// channel is dead, the queue is empty, or the head does not fit.
pub open spec fn spec_datagram_emission(
    d: DatagramOutgoing,
    buflen: int,
    capacity: int,
) -> Option<(DatagramFrame, int, Seq<u8>)> {
    let avail = capacity - buflen;
    if d.err is None && d.writer.queue@.len() > 0 && avail > d.writer.queue@[0]@.len() {
        let head = d.writer.queue@[0]@;
        let max_encoding = avail - head.len();
        let with_len = DatagramFrame::WithLen(head.len() as u64);
        let with_len_size = 1 + varint_len(head.len() as u64) as int;
        if max_encoding >= with_len_size {
            Some(
                (
                    with_len,
                    with_len_size + head.len(),
                    datagram_frame_header_bytes(with_len) + head,
                ),
            )
        } else {
            Some(
                (
                    DatagramFrame::NoLen,
                    max_encoding + head.len(),
                    zero_seq((max_encoding - 1) as nat) + datagram_frame_header_bytes(
                        DatagramFrame::NoLen,
                    ) + head,
                ),
            )
        }
    } else {
        None
    }
}

impl RawDatagramWriter {
    pub fn new(remote_max_size: Option<usize>) -> (r: RawDatagramWriter)
        ensures
            r.remote_max_size == remote_max_size,
            r.queue@.len() == 0,
    {
        RawDatagramWriter { remote_max_size, queue: Vec::new() }
    }
}

impl DatagramOutgoing {
    pub open spec fn wf(self) -> bool {
        self.err is None ==> {
            &&& (self.writer.remote_max_size matches Some(m) ==> m <= VARINT_MAX)
            &&& (self.writer.remote_max_size is None ==> self.writer.queue@.len() == 0)
            &&& (forall|i: int|
                0 <= i < self.writer.queue@.len() ==> (#[trigger] self.writer.queue@[i]@.len()) + 1
                    <= self.writer.remote_max_size->Some_0)
        }
    }

    /// The queued payloads, oldest first.
    pub open spec fn queued(self) -> Seq<Seq<u8>> {
        self.writer.queue@.map_values(|v: Vec<u8>| v@)
    }

    /// A fresh channel; the ceiling is known only when the peer's transport
    /// parameters already arrived.
    pub fn new(remote_max_size: Option<usize>) -> (r: DatagramOutgoing)
        requires
            remote_max_size matches Some(m) ==> m <= VARINT_MAX,
        ensures
            r.wf(),
            r.err is None,
            r.writer.remote_max_size == remote_max_size,
            r.writer.queue@.len() == 0,
    {
        DatagramOutgoing { writer: RawDatagramWriter::new(remote_max_size), err: None }
    }

    /// Queues one payload. Accepted exactly when the ceiling is known and
    /// the smallest encoding (a one-byte header) fits it; otherwise the
    /// payload is rejected as `InvalidInput`. On a dead connection the
    /// stored error surfaces.
    pub fn send_bytes(&mut self, data: Vec<u8>) -> (r: Result<(), Error>)
        requires
            old(self).wf(),
        ensures
            final(self).wf(),
            match old(self).err {
                Some(e) => r == Err::<(), Error>(e) && *final(self) == *old(self),
                None => {
                    let fits = old(self).writer.remote_max_size matches Some(m) && 1 + data@.len()
                        <= m;
                    if fits {
                        &&& r is Ok
                        &&& final(self).writer.queue@ == old(self).writer.queue@.push(data)
                        &&& final(self).writer.remote_max_size == old(self).writer.remote_max_size
                        &&& final(self).err is None
                    } else {
                        &&& r matches Err(e) && e.kind == ErrorKind::InvalidInput
                        &&& *final(self) == *old(self)
                    }
                },
            },
    {
        if let Some(e) = self.err {
            return Err(e);
        }
        match self.writer.remote_max_size {
            Some(m) => {
                if data.len() < m && 1 + data.len() <= m {
                    self.writer.queue.push(data);
                    Ok(())
                } else {
                    Err(
                        Error::new(
                            ErrorKind::InvalidInput,
                            FrameType::Datagram,
                            "datagram frame size exceeds the limit",
                        ),
                    )
                }
            },
            None => Err(
                Error::new(
                    ErrorKind::InvalidInput,
                    FrameType::Datagram,
                    "the peer's datagram frame size is not yet known",
                ),
            ),
        }
    }

    /// Queues one payload given as a slice.
    pub fn send(&mut self, data: &[u8]) -> (r: Result<(), Error>)
        requires
            old(self).wf(),
        ensures
            final(self).wf(),
            match old(self).err {
                Some(e) => r == Err::<(), Error>(e) && *final(self) == *old(self),
                None => {
                    let fits = old(self).writer.remote_max_size matches Some(m) && 1 + data@.len()
                        <= m;
                    if fits {
                        &&& r is Ok
                        &&& final(self).queued() == old(self).queued().push(data@)
                        &&& final(self).writer.remote_max_size == old(self).writer.remote_max_size
                        &&& final(self).err is None
                    } else {
                        &&& r matches Err(e) && e.kind == ErrorKind::InvalidInput
                        &&& *final(self) == *old(self)
                    }
                },
            },
    {
        let mut v: Vec<u8> = Vec::new();
        let mut i: usize = 0;
        while i < data.len()
            invariant
                i <= data@.len(),
                v@ == data@.take(i as int),
            decreases data@.len() - i,
        {
            v.push(data[i]);
            assert(v@ =~= data@.take(i + 1));
            i = i + 1;
        }
        assert(v@ =~= data@);
        let r = self.send_bytes(v);
        proof {
            if r is Ok {
                assert(final(self).queued() =~= old(self).queued().push(data@));
            }
        }
        r
    }

    /// Encodes the oldest datagram into `buf` if it fits in the space up to
    /// `capacity`. The form with an explicit length is preferred; when only
    /// the length-less form fits, PADDING is emitted first so that the
    /// DATAGRAM frame ends the packet exactly. If nothing fits, the queue
    /// is untouched.
    #[verifier::rlimit(30)]
    pub fn try_read_datagram(&mut self, buf: &mut Vec<u8>, capacity: usize) -> (r: Option<
        (DatagramFrame, usize),
    >)
        requires
            old(self).wf(),
            old(buf)@.len() <= capacity,
        ensures
            final(self).wf(),
            final(buf)@.len() <= capacity,
            match spec_datagram_emission(*old(self), old(buf)@.len() as int, capacity as int) {
                Some(em) => {
                    &&& r == Some((em.0, em.1 as usize))
                    &&& final(buf)@ == old(buf)@ + em.2
                    &&& final(buf)@.len() == old(buf)@.len() + em.1
                    &&& (em.0 is NoLen ==> final(buf)@.len() == capacity)
                    &&& final(self).writer.queue@ == old(self).writer.queue@.drop_first()
                    &&& final(self).writer.remote_max_size == old(self).writer.remote_max_size
                    &&& final(self).err is None
                },
                None => r is None && *final(self) == *old(self) && final(buf)@ == old(buf)@,
            },
    {
        if self.err.is_some() {
            return None;
        }
        if self.writer.queue.len() == 0 {
            return None;
        }
        let avail = capacity - buf.len();
        let head_len = self.writer.queue[0].len();
        if avail <= head_len {
            return None;
        }
        let max_encoding = avail - head_len;
        let datagram = self.writer.queue.remove(0);
        proof {
            assert(self.writer.queue@ =~= old(self).writer.queue@.drop_first());
        }
        let with_len_frame = DatagramFrame::WithLen(head_len as u64);
        let with_len_size = with_len_frame.encoding_size();
        if max_encoding >= with_len_size {
            let ghost buf0 = buf@;
            encode_datagram_frame_header(buf, &with_len_frame);
            append_bytes(buf, &datagram);
            assert(buf@ =~= buf0 + datagram_frame_header_bytes(with_len_frame) + datagram@);
            Some((with_len_frame, with_len_size + head_len))
        } else {
            let ghost buf0 = buf@;
            let pad = max_encoding - 1;
            push_zeros(buf, pad);
            encode_datagram_frame_header(buf, &DatagramFrame::NoLen);
            append_bytes(buf, &datagram);
            assert(buf@ =~= buf0 + zero_seq(pad as nat) + datagram_frame_header_bytes(
                DatagramFrame::NoLen,
            ) + datagram@);
            Some((DatagramFrame::NoLen, max_encoding + head_len))
        }
    }

    /// Raises the peer's ceiling on encoded datagram frames. Reducing it
    /// below an earlier value is a protocol violation; once the connection
    /// is dead the call is ignored.
    pub fn update_remote_max_datagram_frame_size(&mut self, size: usize) -> (r: Result<(), Error>)
        requires
            old(self).wf(),
            size <= VARINT_MAX,
        ensures
            final(self).wf(),
            match old(self).err {
                Some(_) => r is Ok && *final(self) == *old(self),
                None => {
                    let reduced = old(self).writer.remote_max_size matches Some(m) && m > size;
                    if reduced {
                        &&& r matches Err(e) && e.kind == ErrorKind::ProtocolViolation
                        &&& *final(self) == *old(self)
                    } else {
                        &&& r is Ok
                        &&& final(self).writer.remote_max_size == Some(size)
                        &&& final(self).writer.queue == old(self).writer.queue
                        &&& final(self).err is None
                    }
                },
            },
    {
        if self.err.is_some() {
            return Ok(());
        }
        match self.writer.remote_max_size {
            Some(m) => {
                if m > size {
                    return Err(
                        Error::new(
                            ErrorKind::ProtocolViolation,
                            FrameType::Datagram,
                            "datagram frame size cannot be reduced",
                        ),
                    );
                }
            },
            None => {},
        }
        self.writer.remote_max_size = Some(size);
        Ok(())
    }

    /// The peer's ceiling, or `None` while the handshake has not delivered
    /// it yet; on a dead connection the stored error surfaces.
    pub fn max_datagram_frame_size(&self) -> (r: Result<Option<usize>, Error>)
        ensures
            match self.err {
                Some(e) => r == Err::<Option<usize>, Error>(e),
                None => r == Ok::<Option<usize>, Error>(self.writer.remote_max_size),
            },
    {
        match self.err {
            Some(e) => Err(e),
            None => Ok(self.writer.remote_max_size),
        }
    }

    /// A connection error: the queue is dropped and every later send
    /// surfaces a broken-pipe error carrying the connection error's text.
    pub fn on_conn_error(&mut self, error: &Error)
        requires
            old(self).wf(),
        ensures
            final(self).wf(),
            old(self).err is Some ==> *final(self) == *old(self),
            old(self).err is None ==> {
                &&& final(self).err == Some(
                    (Error {
                        kind: ErrorKind::BrokenPipe,
                        frame_type: error.frame_type,
                        reason: error.reason,
                    }),
                )
                &&& final(self).writer.queue@.len() == 0
            },
    {
        if self.err.is_some() {
            return ;
        }
        self.writer.queue.clear();
        self.err = Some(Error::new(ErrorKind::BrokenPipe, error.frame_type, error.reason));
    }
}

/// Appends `n` PADDING (zero) bytes.
fn push_zeros(buf: &mut Vec<u8>, n: usize)
    ensures
        final(buf)@ == old(buf)@ + zero_seq(n as nat),
{
    let mut p: usize = 0;
    while p < n
        invariant
            p <= n,
            buf@ == old(buf)@ + zero_seq(p as nat),
        decreases n - p,
    {
        buf.push(0u8);
        assert(buf@ =~= old(buf)@ + zero_seq((p + 1) as nat));
        p = p + 1;
    }
}

/// Appends every byte of `data`.
fn append_bytes(buf: &mut Vec<u8>, data: &Vec<u8>)
    ensures
        final(buf)@ == old(buf)@ + data@,
{
    let mut i: usize = 0;
    while i < data.len()
        invariant
            i <= data@.len(),
            buf@ == old(buf)@ + data@.take(i as int),
        decreases data@.len() - i,
    {
        buf.push(data[i]);
        assert(buf@ =~= old(buf)@ + data@.take(i + 1));
        i = i + 1;
    }
    assert(buf@ =~= old(buf)@ + data@);
}

} // verus!
