//! The transport parameters this crate consumes: flow and stream limits a
//! side publishes during the handshake. Values are varint-bounded.

use vstd::prelude::*;
use crate::sid::MAX_STREAMS_LIMIT;
use crate::varint::VARINT_MAX;

verus! {

/// The negotiated limits one endpoint advertises.
#[derive(Clone, Copy, Debug)]
pub struct TransportParameters {
    pub initial_max_data: u64,
    pub initial_max_stream_data_bidi_local: u64,
    pub initial_max_stream_data_bidi_remote: u64,
    pub initial_max_stream_data_uni: u64,
    pub initial_max_streams_bidi: u64,
    pub initial_max_streams_uni: u64,
    pub max_datagram_frame_size: u64,
}

impl TransportParameters {
    pub open spec fn wf(self) -> bool {
        &&& self.initial_max_data <= VARINT_MAX
        &&& self.initial_max_stream_data_bidi_local <= VARINT_MAX
        &&& self.initial_max_stream_data_bidi_remote <= VARINT_MAX
        &&& self.initial_max_stream_data_uni <= VARINT_MAX
        &&& self.initial_max_streams_bidi <= MAX_STREAMS_LIMIT
        &&& self.initial_max_streams_uni <= MAX_STREAMS_LIMIT
        &&& self.max_datagram_frame_size <= VARINT_MAX
    }

    /// All limits at zero: nothing may flow until real values are set.
    pub fn new() -> (r: TransportParameters)
        ensures
            r.wf(),
            r.initial_max_data == 0,
            r.initial_max_stream_data_bidi_local == 0,
            r.initial_max_stream_data_bidi_remote == 0,
            r.initial_max_stream_data_uni == 0,
            r.initial_max_streams_bidi == 0,
            r.initial_max_streams_uni == 0,
            r.max_datagram_frame_size == 0,
    {
        TransportParameters {
            initial_max_data: 0,
            initial_max_stream_data_bidi_local: 0,
            initial_max_stream_data_bidi_remote: 0,
            initial_max_stream_data_uni: 0,
            initial_max_streams_bidi: 0,
            initial_max_streams_uni: 0,
            max_datagram_frame_size: 0,
        }
    }

    pub fn initial_max_data(&self) -> (r: u64)
        ensures
            r == self.initial_max_data,
    {
        self.initial_max_data
    }

    pub fn initial_max_stream_data_bidi_local(&self) -> (r: u64)
        ensures
            r == self.initial_max_stream_data_bidi_local,
    {
        self.initial_max_stream_data_bidi_local
    }

    pub fn initial_max_stream_data_bidi_remote(&self) -> (r: u64)
        ensures
            r == self.initial_max_stream_data_bidi_remote,
    {
        self.initial_max_stream_data_bidi_remote
    }

    pub fn initial_max_stream_data_uni(&self) -> (r: u64)
        ensures
            r == self.initial_max_stream_data_uni,
    {
        self.initial_max_stream_data_uni
    }

    pub fn initial_max_streams_bidi(&self) -> (r: u64)
        ensures
            r == self.initial_max_streams_bidi,
    {
        self.initial_max_streams_bidi
    }

    pub fn initial_max_streams_uni(&self) -> (r: u64)
        ensures
            r == self.initial_max_streams_uni,
    {
        self.initial_max_streams_uni
    }

    pub fn max_datagram_frame_size(&self) -> (r: u64)
        ensures
            r == self.max_datagram_frame_size,
    {
        self.max_datagram_frame_size
    }
}

} // verus!
