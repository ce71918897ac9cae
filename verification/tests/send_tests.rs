use qmux::err::ErrorKind;
use qmux::sender::{Outgoing, SendState};
use qmux::sid::StreamId;
use qmux::err::{Error, FrameType};

fn sid0() -> StreamId {
    StreamId { id: 0 }
}

#[test]
fn written_offset_monotonic_across_reads() {
    let mut og = Outgoing::new(4096);
    assert_eq!(og.written_offset(), 0);
    assert_eq!(og.write(b"hello").unwrap(), 5);
    assert_eq!(og.written_offset(), 5);

    let mut buf: Vec<u8> = Vec::new();
    // an emission never moves the written offset
    let before = og.written_offset();
    og.try_read(sid0(), &mut buf, 1200, 4096, 100000).unwrap();
    assert_eq!(og.written_offset(), before);
    assert_eq!(og.write(b" world").unwrap(), 6);
    assert!(og.written_offset() >= before);
}

#[test]
fn write_is_bounded_by_the_flow_window() {
    let mut og = Outgoing::new(4);
    // only four bytes of credit: the rest is refused for now
    assert_eq!(og.write(b"hello").unwrap(), 4);
    assert_eq!(og.write(b"o").unwrap(), 0);
    og.update_window(10);
    assert_eq!(og.write(b"o").unwrap(), 1);
}

#[test]
fn write_after_close_fails() {
    let mut og = Outgoing::new(4096);
    og.write(b"hi").unwrap();
    og.shutdown().unwrap();
    let e = og.write(b"more").unwrap_err();
    assert_eq!(e.kind(), ErrorKind::InvalidInput);
}

#[test]
fn ack_idempotent_and_commutative() {
    // the general law is proved in the crate; this pins one concrete run
    let mk = || {
        let mut og = Outgoing::new(4096);
        og.write(&[7u8; 10]).unwrap();
        let mut buf: Vec<u8> = Vec::new();
        og.try_read(sid0(), &mut buf, 100, 4096, 100000).unwrap();
        og.shutdown().unwrap();
        let mut buf: Vec<u8> = Vec::new();
        og.try_read(sid0(), &mut buf, 100, 4096, 100000).unwrap();
        og
    };

    let mut a = mk();
    a.on_data_acked(&(0..6), false);
    a.on_data_acked(&(4..10), true);
    a.on_data_acked(&(4..10), true);

    let mut b = mk();
    b.on_data_acked(&(4..10), true);
    b.on_data_acked(&(0..6), false);

    assert_eq!(a.current_state(), Some(SendState::DataRcvd));
    assert_eq!(b.current_state(), Some(SendState::DataRcvd));
}

#[test]
fn loss_and_ack_commute_over_disjoint_ranges() {
    let mk = || {
        let mut og = Outgoing::new(8192);
        og.write(&[1u8; 1000]).unwrap();
        let mut buf: Vec<u8> = Vec::new();
        og.try_read(sid0(), &mut buf, 2000, 4096, 100000).unwrap();
        og
    };

    let mut a = mk();
    a.may_loss_data(&(0..100));
    a.on_data_acked(&(500..600), false);

    let mut b = mk();
    b.on_data_acked(&(500..600), false);
    b.may_loss_data(&(0..100));

    // both orders retransmit the same range next
    let mut buf_a: Vec<u8> = Vec::new();
    let (fa, la, fra, _) = a.try_read(sid0(), &mut buf_a, 2000, 4096, 100000).unwrap();
    let mut buf_b: Vec<u8> = Vec::new();
    let (fb, lb, frb, _) = b.try_read(sid0(), &mut buf_b, 2000, 4096, 100000).unwrap();
    assert_eq!(fa, fb);
    assert_eq!((la, fra), (lb, frb));
    assert_eq!(fa.offset, 0);
    assert_eq!(fa.length, 100);
    assert!(!fra);
    assert_eq!(buf_a, buf_b);
}

#[test]
fn fragmented_retransmit() {
    let mut og = Outgoing::new(4096);
    og.write(&[9u8; 3000]).unwrap();

    // first packet: the frame fills the 1200-byte buffer exactly, so the
    // length field is omitted; header = type + stream id
    let mut buf: Vec<u8> = Vec::new();
    let (f1, l1, fresh1, w1) = og.try_read(sid0(), &mut buf, 1200, 4096, 100000).unwrap();
    assert_eq!(f1.offset, 0);
    assert_eq!(l1, 1198);
    assert!(fresh1);
    assert!(!f1.carries_length);
    assert_eq!(w1, 1200);
    assert_eq!(buf.len(), 1200);

    og.may_loss_data(&(0..500));

    // the loss-marked range goes first
    let mut buf: Vec<u8> = Vec::new();
    let (f2, l2, fresh2, _) = og.try_read(sid0(), &mut buf, 1200, 4096, 100000).unwrap();
    assert_eq!(f2.offset, 0);
    assert_eq!(l2, 500);
    assert!(!fresh2);

    // then fresh bytes continue at the flushed offset
    let mut buf: Vec<u8> = Vec::new();
    let (f3, _l3, fresh3, _) = og.try_read(sid0(), &mut buf, 1200, 4096, 100000).unwrap();
    assert_eq!(f3.offset, 1198);
    assert!(fresh3);
}

#[test]
fn stream_level_flow_limit_caps_fresh_bytes() {
    let mut og = Outgoing::new(4096);
    og.write(&[1u8; 100]).unwrap();
    let mut buf: Vec<u8> = Vec::new();
    let (_f, len, fresh, _w) = og.try_read(sid0(), &mut buf, 1200, 4096, 10).unwrap();
    assert!(fresh);
    assert_eq!(len, 10);
}

#[test]
fn empty_fin_frame_after_late_close() {
    let mut og = Outgoing::new(4096);
    og.write(b"abc").unwrap();
    let mut buf: Vec<u8> = Vec::new();
    let (f1, _, _, _) = og.try_read(sid0(), &mut buf, 100, 4096, 100000).unwrap();
    assert!(!f1.fin);
    // everything is flushed; closing now owes the peer an empty FIN frame
    og.shutdown().unwrap();
    let mut buf: Vec<u8> = Vec::new();
    let (f2, l2, _, _) = og.try_read(sid0(), &mut buf, 100, 4096, 100000).unwrap();
    assert!(f2.fin);
    assert_eq!(l2, 0);
    assert_eq!(f2.offset, 3);
    assert_eq!(og.current_state(), Some(SendState::DataSent));
}

#[test]
fn fin_bit_is_restored_on_retransmit() {
    let mut og = Outgoing::new(4096);
    og.write(b"hello").unwrap();
    og.shutdown().unwrap();
    let mut buf: Vec<u8> = Vec::new();
    let (f1, _, _, _) = og.try_read(sid0(), &mut buf, 100, 4096, 100000).unwrap();
    assert!(f1.fin);
    assert_eq!(og.current_state(), Some(SendState::DataSent));

    og.may_loss_data(&(0..5));
    let mut buf: Vec<u8> = Vec::new();
    let (f2, l2, fresh2, _) = og.try_read(sid0(), &mut buf, 100, 4096, 100000).unwrap();
    assert_eq!(f2.offset, 0);
    assert_eq!(l2, 5);
    assert!(f2.fin);
    assert!(!fresh2);

    og.on_data_acked(&(0..5), true);
    assert_eq!(og.current_state(), Some(SendState::DataRcvd));
}

#[test]
fn stop_freezes_the_final_size() {
    let mut og = Outgoing::new(4096);
    og.write(b"hello").unwrap();
    let mut buf: Vec<u8> = Vec::new();
    og.try_read(sid0(), &mut buf, 100, 4096, 100000).unwrap();
    assert!(og.stop());
    assert_eq!(og.current_state(), Some(SendState::ResetSent));
    assert_eq!(og.reset_final_size(), Some(5));
    // a second stop is a no-op
    assert!(!og.stop());
    og.on_reset_acked();
    assert_eq!(og.current_state(), Some(SendState::ResetRcvd));
}

#[test]
fn cancel_reports_size_and_code_once() {
    let mut og = Outgoing::new(4096);
    og.write(b"abcd").unwrap();
    let r = og.is_cancelled_by_app(7);
    assert_eq!(r.0, Some((4, 7)));
    let r2 = og.is_cancelled_by_app(9);
    assert!(r2.0.is_none());
}

#[test]
fn conn_error_makes_the_stream_terminal() {
    let mut og = Outgoing::new(4096);
    og.write(b"abc").unwrap();
    og.on_conn_error(&Error::new(ErrorKind::ProtocolViolation, FrameType::Stream, "gone"));
    assert_eq!(og.current_state(), None);
    let e = og.write(b"more").unwrap_err();
    assert_eq!(e.kind(), ErrorKind::BrokenPipe);
    let mut buf: Vec<u8> = Vec::new();
    assert!(og.try_read(sid0(), &mut buf, 100, 4096, 100000).is_none());
}
