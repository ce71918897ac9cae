//! Core of a QUIC transport endpoint: the per-connection stream multiplexer
//! (send/receive state machines, stream-ID accounting, fair frame scheduling,
//! flow control) and the unreliable datagram channel.
//!
//! Wire parsing, cryptography, congestion control and sockets are external
//! collaborators; this crate owns the state machines and the frame packing
//! logic, and proves their contracts.

use vstd::prelude::*;

pub mod err;
pub mod varint;
pub mod sid;
pub mod frames;
pub mod sendbuf;
pub mod sender;
pub mod recv;
pub mod datagram;
pub mod params;
pub mod congestion;
pub mod streams;

verus! {

} // verus!
