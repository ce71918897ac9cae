use qmux::err::ErrorKind;
use qmux::frames::{ResetStreamFrame, StreamFrame};
use qmux::recv::{Incoming, RecvState};
use qmux::sid::StreamId;
use qmux::err::{Error, FrameType};

fn frame(offset: u64, length: u64, fin: bool) -> StreamFrame {
    StreamFrame {
        id: StreamId { id: 3 },
        offset,
        length,
        fin,
        carries_length: true,
    }
}

#[test]
fn out_of_order_reassembly() {
    let mut inc = Incoming::new(1000);
    assert_eq!(inc.recv_data(&frame(3, 3, false), &b"def".to_vec()).unwrap(), 3);
    // nothing contiguous yet
    assert_eq!(inc.read(100), Vec::<u8>::new());
    assert_eq!(inc.recv_data(&frame(0, 3, false), &b"abc".to_vec()).unwrap(), 3);
    assert_eq!(inc.read(100), b"abcdef".to_vec());
}

#[test]
fn duplicate_data_counts_nothing_new() {
    let mut inc = Incoming::new(1000);
    assert_eq!(inc.recv_data(&frame(0, 4, false), &b"abcd".to_vec()).unwrap(), 4);
    assert_eq!(inc.recv_data(&frame(2, 4, false), &b"cdef".to_vec()).unwrap(), 2);
    assert_eq!(inc.read(100), b"abcdef".to_vec());
}

#[test]
fn consumed_offset_is_monotonic() {
    let mut inc = Incoming::new(1000);
    inc.recv_data(&frame(0, 6, false), &b"abcdef".to_vec()).unwrap();
    assert_eq!(inc.read(2), b"ab".to_vec());
    let after_first = inc.consumed;
    assert_eq!(inc.read(2), b"cd".to_vec());
    assert!(inc.consumed >= after_first);
    assert_eq!(inc.read(100), b"ef".to_vec());
    assert_eq!(inc.read(100), Vec::<u8>::new());
    assert_eq!(inc.consumed, 6);
}

#[test]
fn final_size_is_immutable() {
    let mut inc = Incoming::new(1000);
    inc.recv_data(&frame(0, 5, true), &b"hello".to_vec()).unwrap();
    // a FIN at a different size contradicts it
    let e = inc.recv_data(&frame(0, 4, true), &b"hell".to_vec()).unwrap_err();
    assert_eq!(e.kind(), ErrorKind::FinalSize);
    // data beyond the final size is refused
    let e = inc.recv_data(&frame(5, 2, false), &b"xx".to_vec()).unwrap_err();
    assert_eq!(e.kind(), ErrorKind::FinalSize);
}

#[test]
fn fin_below_received_data_fails() {
    let mut inc = Incoming::new(1000);
    inc.recv_data(&frame(0, 6, false), &b"abcdef".to_vec()).unwrap();
    let e = inc.recv_data(&frame(0, 3, true), &b"abc".to_vec()).unwrap_err();
    assert_eq!(e.kind(), ErrorKind::FinalSize);
}

#[test]
fn data_beyond_the_window_fails() {
    let mut inc = Incoming::new(4);
    let e = inc.recv_data(&frame(0, 5, false), &b"hello".to_vec()).unwrap_err();
    assert_eq!(e.kind(), ErrorKind::FlowControl);
    // the stream survives a refused frame
    assert_eq!(inc.recv_data(&frame(0, 4, false), &b"hell".to_vec()).unwrap(), 4);
}

#[test]
fn state_progression() {
    let mut inc = Incoming::new(1000);
    assert_eq!(inc.current_state(), Some(RecvState::Recv));
    inc.recv_data(&frame(2, 3, true), &b"cde".to_vec()).unwrap();
    assert_eq!(inc.current_state(), Some(RecvState::SizeKnown));
    inc.recv_data(&frame(0, 2, false), &b"ab".to_vec()).unwrap();
    assert_eq!(inc.current_state(), Some(RecvState::DataRcvd));
    assert_eq!(inc.read(100), b"abcde".to_vec());
    assert_eq!(inc.current_state(), Some(RecvState::DataRead));
}

#[test]
fn reset_must_agree_with_the_data() {
    let mut inc = Incoming::new(1000);
    inc.recv_data(&frame(0, 5, false), &b"hello".to_vec()).unwrap();

    let sid = StreamId { id: 3 };
    let bad = ResetStreamFrame { stream_id: sid, app_error_code: 1, final_size: 3 };
    assert_eq!(inc.recv_reset(&bad).unwrap_err().kind(), ErrorKind::FinalSize);

    let beyond = ResetStreamFrame { stream_id: sid, app_error_code: 1, final_size: 2000 };
    assert_eq!(inc.recv_reset(&beyond).unwrap_err().kind(), ErrorKind::FlowControl);

    let good = ResetStreamFrame { stream_id: sid, app_error_code: 1, final_size: 5 };
    inc.recv_reset(&good).unwrap();
    assert_eq!(inc.current_state(), Some(RecvState::ResetRcvd));

    // data after a reset is silently dropped
    assert_eq!(inc.recv_data(&frame(0, 5, false), &b"hello".to_vec()).unwrap(), 0);
}

#[test]
fn window_advances_as_the_application_reads() {
    let mut inc = Incoming::new(100);
    inc.recv_data(&frame(0, 80, false), &vec![1u8; 80]).unwrap();
    assert!(inc.need_update_window().is_none());
    assert_eq!(inc.read(80).len(), 80);
    // consumed 80 with a 100-byte buffer: advertise 180
    assert_eq!(inc.need_update_window(), Some(180));
    assert!(inc.need_update_window().is_none());
}

#[test]
fn no_window_growth_once_the_size_is_known() {
    let mut inc = Incoming::new(100);
    inc.recv_data(&frame(0, 80, true), &vec![1u8; 80]).unwrap();
    assert_eq!(inc.read(80).len(), 80);
    assert!(inc.need_update_window().is_none());
}

#[test]
fn stop_event_fires_once() {
    let mut inc = Incoming::new(100);
    assert_eq!(inc.is_stopped_by_app(9), Some(9));
    assert_eq!(inc.is_stopped_by_app(9), None);
}

#[test]
fn conn_error_surfaces_on_every_operation() {
    let mut inc = Incoming::new(100);
    inc.on_conn_error(&Error::new(ErrorKind::ProtocolViolation, FrameType::Stream, "gone"));
    assert_eq!(inc.current_state(), None);
    let e = inc.recv_data(&frame(0, 1, false), &b"x".to_vec()).unwrap_err();
    assert_eq!(e.kind(), ErrorKind::BrokenPipe);
}
