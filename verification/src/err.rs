//! Transport error values surfaced by the stream multiplexer and the
//! datagram channel.

use vstd::prelude::*;

verus! {

/// The frame kind that an error is attributed to, mirroring the QUIC frame
/// type space that this crate handles.
#[derive(Clone, Copy, Debug, PartialEq, Eq, Structural)]
pub enum FrameType {
    Padding,
    Stream,
    ResetStream,
    StopSending,
    MaxData,
    MaxStreamData,
    MaxStreams,
    DataBlocked,
    StreamDataBlocked,
    StreamsBlocked,
    Datagram,
}

/// The kinds of error this crate raises, mapping onto QUIC transport error
/// codes, plus the application-facing kinds used once a connection is dead
/// or an argument is rejected locally.
#[derive(Clone, Copy, Debug, PartialEq, Eq, Structural)]
pub enum ErrorKind {
    /// Peer opened a stream ID beyond the advertised `max_streams`.
    StreamLimit,
    /// A frame arrived for a stream whose state or role/direction forbids it.
    StreamState,
    /// Stream or connection flow window exceeded by received data.
    FlowControl,
    /// Data beyond, or inconsistent with, a previously fixed final size.
    FinalSize,
    /// Malformed combination, e.g. the datagram size limit was reduced.
    ProtocolViolation,
    /// The connection is already closing or closed.
    BrokenPipe,
    /// An argument was rejected locally, e.g. a datagram over the size limit.
    InvalidInput,
}

/// An error snapshot: its kind, the frame it is attributed to, and a fixed
/// human-readable reason.
#[derive(Clone, Copy, Debug)]
pub struct Error {
    pub kind: ErrorKind,
    pub frame_type: FrameType,
    pub reason: &'static str,
}

impl Error {
    pub fn new(kind: ErrorKind, frame_type: FrameType, reason: &'static str) -> (e: Error)
        ensures
            e == (Error { kind, frame_type, reason }),
    {
        Error { kind, frame_type, reason }
    }

    pub fn kind(&self) -> (k: ErrorKind)
        ensures
            k == self.kind,
    {
        self.kind
    }

    /// The fixed reason text, for display by the embedding application.
    pub fn message(&self) -> (m: &'static str)
        ensures
            m == self.reason,
    {
        self.reason
    }
}

} // verus!
