//! The congestion-control collaborator interface.
//!
//! Congestion control itself is out of this crate's scope: the packetizer
//! owns an implementation and consults it around every packet. Times are
//! carried as milliseconds on a caller-chosen monotonic clock.

use vstd::prelude::*;
use crate::frames::AckFrame;

verus! {

/// A packet-number space.
#[derive(Clone, Copy, Debug, PartialEq, Eq, Structural)]
pub enum Epoch {
    Initial,
    Handshake,
    Data,
}

/// What a congestion controller offers the packetizer. Implementations live
/// outside this crate; nothing here constrains them beyond the signatures.
pub trait CongestionControl {
    /// Advances the algorithm's clock.
    fn do_tick(&mut self);

    /// How many bytes may be sent now, across all spaces; `None` while no
    /// credit is available.
    fn poll_send(&mut self) -> Option<usize>;

    /// Whether a packet of `space` must carry an ACK, and if so the largest
    /// received packet number and its receive time.
    fn need_ack(&self, space: Epoch) -> Option<(u64, u64)>;

    /// Records one sent packet and the ACK it may carry.
    fn on_pkt_sent(
        &mut self,
        epoch: Epoch,
        pn: u64,
        is_ack_eliciting: bool,
        sent_bytes: usize,
        in_flight: bool,
        ack: Option<u64>,
    );

    /// Feeds an ACK frame of `space` into the algorithm.
    fn on_ack(&mut self, space: Epoch, ack_frame: &AckFrame);

    /// Records one received packet, to decide future ACKs.
    fn on_recv_pkt(&mut self, space: Epoch, pn: u64, is_ack_eliciting: bool);

    /// The probe timeout of `epoch`, in milliseconds.
    fn pto_time(&self, epoch: Epoch) -> u64;

    /// The handshake keys became available.
    fn on_get_handshake_keys(&mut self);

    /// The handshake completed.
    fn on_handshake_done(&mut self);
}

} // verus!
