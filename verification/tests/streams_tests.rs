use qmux::err::ErrorKind;
use qmux::frames::{
    ControlFrameQueue, ResetStreamFrame, SendFrame, StopSendingFrame, StreamCtlFrame, StreamFrame,
};
use qmux::params::TransportParameters;
use qmux::recv::RecvState;
use qmux::sender::SendState;
use qmux::sid::{Dir, Role, StreamId};
use qmux::streams::{fill_packet, RawDataStreams, DEFAULT_TOKENS};
use qmux::frames::{MaxStreamsFrame, MaxStreamDataFrame};
use qmux::datagram::DatagramOutgoing;
use qmux::err::{Error, FrameType};

fn client(max_bidi: u64, max_uni: u64) -> RawDataStreams<ControlFrameQueue> {
    let params = TransportParameters {
        initial_max_data: 1_000_000,
        initial_max_stream_data_bidi_local: 100_000,
        initial_max_stream_data_bidi_remote: 100_000,
        initial_max_stream_data_uni: 100_000,
        initial_max_streams_bidi: max_bidi,
        initial_max_streams_uni: max_uni,
        max_datagram_frame_size: 1024,
    };
    RawDataStreams::new(Role::Client, &params, ControlFrameQueue::new())
}

#[test]
fn open_send_ack_close() {
    let mut streams = client(4, 4);
    // the peer permits one bidirectional stream
    streams.premit_max_sid(Dir::Bi, 1);
    let sid = streams.poll_open_bi_stream(1000).unwrap().unwrap();
    assert_eq!(sid.id, 0);
    // no more until the peer raises the ceiling
    assert!(streams.poll_open_bi_stream(1000).unwrap().is_none());

    assert_eq!(streams.write_to(sid, b"hello").unwrap(), 5);
    streams.shutdown_stream(sid).unwrap();

    let mut buf: Vec<u8> = Vec::new();
    let (frame, written, fresh) = streams.try_read_data(&mut buf, 1200, 100_000).unwrap();
    assert_eq!(frame.offset, 0);
    assert_eq!(frame.length, 5);
    assert!(frame.fin);
    assert_eq!(fresh, 5);
    assert_eq!(written, 8);
    // type (OFF=0, LEN=1, FIN=1), stream id, length, then the data
    assert_eq!(buf, vec![0x0b, 0x00, 0x05, b'h', b'e', b'l', b'l', b'o']);
    assert_eq!(streams.send_state_of(sid), Some(SendState::DataSent));

    streams.on_data_acked(frame);
    // fully acknowledged: the entry leaves the table
    assert!(!streams.has_send_stream(sid));
}

#[test]
fn stop_sending_triggers_reset() {
    let mut streams = client(4, 4);
    streams.premit_max_sid(Dir::Uni, 1);
    let sid = streams.poll_open_uni_stream(1000).unwrap().unwrap();
    assert_eq!(sid.id, 2);

    assert_eq!(streams.write_to(sid, b"data").unwrap(), 4);
    let mut buf: Vec<u8> = Vec::new();
    streams.try_read_data(&mut buf, 1200, 100_000).unwrap();

    streams
        .recv_stream_control(&StreamCtlFrame::StopSending(StopSendingFrame {
            stream_id: sid,
            app_err_code: 7,
        }))
        .unwrap();

    assert_eq!(streams.send_state_of(sid), Some(SendState::ResetSent));
    assert_eq!(
        streams.ctrl_frames.frames,
        vec![StreamCtlFrame::ResetStream(ResetStreamFrame {
            stream_id: sid,
            app_error_code: 0,
            final_size: 4,
        })]
    );
}

#[test]
fn stream_limit_violation() {
    // we advertised three bidirectional streams; the peer names the fifth
    let mut streams = client(3, 0);
    let fifth = StreamId::new(Role::Server, Dir::Bi, 4);
    assert_eq!(fifth.id, 17);

    let frame = StreamFrame {
        id: fifth,
        offset: 0,
        length: 5,
        fin: false,
        carries_length: true,
    };
    let e = streams.recv_data(&frame, &b"hello".to_vec()).unwrap_err();
    assert_eq!(e.kind(), ErrorKind::StreamLimit);

    // and no streams were opened
    for idx in 0..5u64 {
        let sid = StreamId::new(Role::Server, Dir::Bi, idx);
        assert!(!streams.has_recv_stream(sid));
        assert!(!streams.has_send_stream(sid));
    }
    assert!(streams.accept_bi(1000).unwrap().is_none());
}

#[test]
fn accepting_an_id_opens_every_lower_one() {
    let mut streams = client(8, 8);
    let third = StreamId::new(Role::Server, Dir::Bi, 2);
    let frame = StreamFrame {
        id: third,
        offset: 0,
        length: 2,
        fin: false,
        carries_length: true,
    };
    assert_eq!(streams.recv_data(&frame, &b"ab".to_vec()).unwrap(), 2);

    // exactly indexes 0, 1, 2 of the quadrant are open now
    for idx in 0..3u64 {
        let sid = StreamId::new(Role::Server, Dir::Bi, idx);
        assert!(streams.has_recv_stream(sid));
        assert!(streams.has_send_stream(sid));
    }
    assert!(!streams.has_recv_stream(StreamId::new(Role::Server, Dir::Bi, 3)));

    // the accept queue hands them out lowest first
    assert_eq!(streams.accept_bi(1000).unwrap().unwrap().index(), 0);
    assert_eq!(streams.accept_bi(1000).unwrap().unwrap().index(), 1);
    assert_eq!(streams.accept_bi(1000).unwrap().unwrap().index(), 2);
    assert!(streams.accept_bi(1000).unwrap().is_none());

    // re-observation is idempotent
    assert_eq!(streams.recv_data(&frame, &b"ab".to_vec()).unwrap(), 0);
    assert!(streams.accept_bi(1000).unwrap().is_none());
}

#[test]
fn local_uni_stream_cannot_receive() {
    let mut streams = client(4, 4);
    streams.premit_max_sid(Dir::Uni, 1);
    let sid = streams.poll_open_uni_stream(1000).unwrap().unwrap();
    let frame = StreamFrame {
        id: sid,
        offset: 0,
        length: 1,
        fin: false,
        carries_length: true,
    };
    let e = streams.recv_data(&frame, &b"x".to_vec()).unwrap_err();
    assert_eq!(e.kind(), ErrorKind::StreamState);
}

#[test]
fn peer_cannot_stop_its_own_uni_stream() {
    let mut streams = client(4, 4);
    let remote_uni = StreamId::new(Role::Server, Dir::Uni, 0);
    let e = streams
        .recv_stream_control(&StreamCtlFrame::StopSending(StopSendingFrame {
            stream_id: remote_uni,
            app_err_code: 1,
        }))
        .unwrap_err();
    assert_eq!(e.kind(), ErrorKind::StreamState);
}

#[test]
fn scheduler_flow_limit_caps_fresh_bytes() {
    let mut streams = client(4, 4);
    streams.premit_max_sid(Dir::Uni, 1);
    let sid = streams.poll_open_uni_stream(100_000).unwrap().unwrap();
    streams.write_to(sid, &[3u8; 100]).unwrap();

    let mut buf: Vec<u8> = Vec::new();
    let (_f, _w, fresh) = streams.try_read_data(&mut buf, 1500, 10).unwrap();
    assert!(fresh <= 10);
    assert_eq!(fresh, 10);
}

#[test]
fn scheduler_is_fair_across_ready_streams() {
    let mut streams = client(4, 4);
    streams.premit_max_sid(Dir::Uni, 3);
    let mut sids: Vec<StreamId> = Vec::new();
    for _ in 0..3 {
        let sid = streams.poll_open_uni_stream(100_000).unwrap().unwrap();
        streams.write_to(sid, &vec![5u8; 3 * DEFAULT_TOKENS]).unwrap();
        sids.push(sid);
    }

    let mut emitted = [0usize; 3];
    for _ in 0..24 {
        let mut buf: Vec<u8> = Vec::new();
        if let Some((frame, _w, fresh)) = streams.try_read_data(&mut buf, 1500, 1_000_000) {
            let k = sids.iter().position(|s| *s == frame.id).unwrap();
            emitted[k] += fresh;
        }
    }
    let max = *emitted.iter().max().unwrap();
    let min = *emitted.iter().min().unwrap();
    assert!(max - min <= DEFAULT_TOKENS);
    assert!(min > 0);
}

#[test]
fn empty_stream_cannot_starve_the_others() {
    let mut streams = client(4, 4);
    streams.premit_max_sid(Dir::Uni, 2);
    let quiet = streams.poll_open_uni_stream(100_000).unwrap().unwrap();
    let busy = streams.poll_open_uni_stream(100_000).unwrap().unwrap();
    streams.write_to(busy, b"payload").unwrap();

    // the first call visits the quiet stream and emits nothing...
    let mut buf: Vec<u8> = Vec::new();
    assert!(streams.try_read_data(&mut buf, 1500, 100_000).is_none());
    // ...but yields the cursor, so the busy stream goes out next
    let mut buf: Vec<u8> = Vec::new();
    let (frame, _w, fresh) = streams.try_read_data(&mut buf, 1500, 100_000).unwrap();
    assert_eq!(frame.id, busy);
    assert_ne!(frame.id, quiet);
    assert_eq!(fresh, 7);
}

#[test]
fn max_streams_frame_raises_the_open_ceiling() {
    let mut streams = client(4, 4);
    assert!(streams.poll_open_bi_stream(1000).unwrap().is_none());
    streams
        .recv_stream_control(&StreamCtlFrame::MaxStreams(MaxStreamsFrame::Bi(2)))
        .unwrap();
    assert!(streams.poll_open_bi_stream(1000).unwrap().is_some());
    assert!(streams.poll_open_bi_stream(1000).unwrap().is_some());
    assert!(streams.poll_open_bi_stream(1000).unwrap().is_none());
}

#[test]
fn max_stream_data_widens_the_send_window() {
    let mut streams = client(4, 4);
    streams.premit_max_sid(Dir::Bi, 1);
    let sid = streams.poll_open_bi_stream(4).unwrap().unwrap();
    assert_eq!(streams.write_to(sid, b"hello").unwrap(), 4);
    streams
        .recv_stream_control(&StreamCtlFrame::MaxStreamData(MaxStreamDataFrame {
            stream_id: sid,
            max_stream_data: 100,
        }))
        .unwrap();
    assert_eq!(streams.write_to(sid, b"o").unwrap(), 1);
}

#[test]
fn reset_stream_retires_the_receive_half() {
    let mut streams = client(8, 8);
    let sid = StreamId::new(Role::Server, Dir::Uni, 0);
    let frame = StreamFrame {
        id: sid,
        offset: 0,
        length: 3,
        fin: false,
        carries_length: true,
    };
    streams.recv_data(&frame, &b"abc".to_vec()).unwrap();
    assert!(streams.has_recv_stream(sid));

    streams
        .recv_stream_control(&StreamCtlFrame::ResetStream(ResetStreamFrame {
            stream_id: sid,
            app_error_code: 9,
            final_size: 3,
        }))
        .unwrap();
    assert!(!streams.has_recv_stream(sid));
}

#[test]
fn reset_stream_with_contradicting_size_fails() {
    let mut streams = client(8, 8);
    let sid = StreamId::new(Role::Server, Dir::Uni, 0);
    let frame = StreamFrame {
        id: sid,
        offset: 0,
        length: 5,
        fin: false,
        carries_length: true,
    };
    streams.recv_data(&frame, &b"hello".to_vec()).unwrap();

    let e = streams
        .recv_stream_control(&StreamCtlFrame::ResetStream(ResetStreamFrame {
            stream_id: sid,
            app_error_code: 9,
            final_size: 2,
        }))
        .unwrap_err();
    assert_eq!(e.kind(), ErrorKind::FinalSize);
}

#[test]
fn cancellation_watcher_queues_the_reset() {
    let mut streams = client(4, 4);
    streams.premit_max_sid(Dir::Uni, 1);
    let sid = streams.poll_open_uni_stream(1000).unwrap().unwrap();
    streams.write_to(sid, b"abcd").unwrap();

    assert_eq!(streams.on_stream_cancelled(sid, 7), Some((4, 7)));
    assert_eq!(
        streams.ctrl_frames.frames,
        vec![StreamCtlFrame::ResetStream(ResetStreamFrame {
            stream_id: sid,
            app_error_code: 7,
            final_size: 4,
        })]
    );
    // the cancellation resolves only once
    assert_eq!(streams.on_stream_cancelled(sid, 8), None);
}

#[test]
fn stop_watcher_queues_stop_sending_once() {
    let mut streams = client(8, 8);
    let sid = StreamId::new(Role::Server, Dir::Uni, 0);
    let frame = StreamFrame {
        id: sid,
        offset: 0,
        length: 3,
        fin: false,
        carries_length: true,
    };
    streams.recv_data(&frame, &b"abc".to_vec()).unwrap();

    assert_eq!(streams.on_stopped_by_app(sid, 5), Some(5));
    assert_eq!(
        streams.ctrl_frames.frames,
        vec![StreamCtlFrame::StopSending(StopSendingFrame {
            stream_id: sid,
            app_err_code: 5,
        })]
    );
    assert_eq!(streams.on_stopped_by_app(sid, 5), None);
}

#[test]
fn window_watcher_advertises_more_credit() {
    let mut streams = client(8, 8);
    let sid = StreamId::new(Role::Server, Dir::Uni, 0);
    // the configured receive buffer for peer uni streams is 100 000 bytes
    let body = vec![1u8; 60_000];
    let frame = StreamFrame {
        id: sid,
        offset: 0,
        length: 60_000,
        fin: false,
        carries_length: true,
    };
    streams.recv_data(&frame, &body).unwrap();
    assert!(streams.on_need_update_window(sid).is_none());

    let consumed = streams.read_from(sid, 60_000).unwrap();
    assert_eq!(consumed.len(), 60_000);
    // the consumed prefix crossed half the window: new credit goes out
    assert_eq!(streams.on_need_update_window(sid), Some(160_000));
    assert_eq!(
        streams.ctrl_frames.frames,
        vec![StreamCtlFrame::MaxStreamData(MaxStreamDataFrame {
            stream_id: sid,
            max_stream_data: 160_000,
        })]
    );
}

#[test]
fn recv_state_progression_through_the_table() {
    let mut streams = client(8, 8);
    let sid = StreamId::new(Role::Server, Dir::Uni, 0);
    let f1 = StreamFrame {
        id: sid,
        offset: 0,
        length: 3,
        fin: false,
        carries_length: true,
    };
    streams.recv_data(&f1, &b"abc".to_vec()).unwrap();
    assert_eq!(streams.recv_state_of(sid), Some(RecvState::Recv));

    let f2 = StreamFrame {
        id: sid,
        offset: 3,
        length: 2,
        fin: true,
        carries_length: true,
    };
    streams.recv_data(&f2, &b"de".to_vec()).unwrap();
    assert_eq!(streams.recv_state_of(sid), Some(RecvState::DataRcvd));

    let all = streams.read_from(sid, 100).unwrap();
    assert_eq!(all, b"abcde".to_vec());
    assert_eq!(streams.recv_state_of(sid), Some(RecvState::DataRead));
}

#[test]
fn packet_fill_priority_order() {
    let mut streams = client(4, 4);
    streams.premit_max_sid(Dir::Uni, 1);
    let sid = streams.poll_open_uni_stream(1000).unwrap().unwrap();
    streams.write_to(sid, b"abc").unwrap();
    // one pending control frame
    streams.ctrl_frames.send_frame(vec![StreamCtlFrame::StopSending(StopSendingFrame {
        stream_id: sid,
        app_err_code: 1,
    })]);

    let mut datagrams = DatagramOutgoing::new(Some(1024));
    datagrams.send_bytes(b"dg".to_vec()).unwrap();

    let mut buf: Vec<u8> = Vec::new();
    let fresh = fill_packet(&mut streams, &mut datagrams, &mut buf, 1200, 100_000);
    assert_eq!(fresh, 3);
    // control frame first, then the STREAM frame, then the DATAGRAM
    let expected: Vec<u8> = vec![
        0x05, 0x02, 0x01, // STOP_SENDING sid=2 code=1
        0x0a, 0x02, 0x03, b'a', b'b', b'c', // STREAM sid=2 len=3
        0x31, 0x02, b'd', b'g', // DATAGRAM with length
    ];
    assert_eq!(buf, expected);
}

#[test]
fn packet_fill_drains_control_frames_in_order_while_they_fit() {
    let mut streams = client(4, 4);
    let sid = StreamId { id: 2 };
    let first = StreamCtlFrame::MaxStreamData(MaxStreamDataFrame {
        stream_id: sid,
        max_stream_data: 100,
    });
    let second = StreamCtlFrame::MaxStreamData(MaxStreamDataFrame {
        stream_id: sid,
        max_stream_data: 200,
    });
    streams.ctrl_frames.send_frame(vec![first, second]);

    let mut datagrams = DatagramOutgoing::new(Some(1024));
    let mut buf: Vec<u8> = Vec::new();
    // seven bytes of capacity: the first four-byte frame fits, the second
    // must wait for the next packet
    let fresh = fill_packet(&mut streams, &mut datagrams, &mut buf, 7, 100_000);
    assert_eq!(fresh, 0);
    assert_eq!(buf, vec![0x11, 0x02, 0x40, 0x64]);
    assert_eq!(streams.ctrl_frames.frames, vec![second]);
}

#[test]
fn conn_error_tears_everything_down() {
    let mut streams = client(4, 4);
    streams.premit_max_sid(Dir::Bi, 1);
    let sid = streams.poll_open_bi_stream(1000).unwrap().unwrap();
    streams.on_conn_error(&Error::new(
        ErrorKind::ProtocolViolation,
        FrameType::Stream,
        "fatal",
    ));
    assert!(streams.poll_open_bi_stream(1000).unwrap_err().kind() == ErrorKind::ProtocolViolation);
    assert!(streams.write_to(sid, b"x").is_err());
    let mut buf: Vec<u8> = Vec::new();
    assert!(streams.try_read_data(&mut buf, 1200, 1000).is_none());
}
