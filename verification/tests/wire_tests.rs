use qmux::frames::{
    ControlFrameQueue, MaxStreamDataFrame, MaxStreamsFrame, ResetStreamFrame, SendFrame,
    StopSendingFrame, StreamCtlFrame, StreamFrame,
};
use qmux::sid::StreamId;
use qmux::varint::{encode_varint, varint_length, VARINT_MAX};
use qmux::sid::{Dir, Role};

#[test]
fn varint_widths() {
    assert_eq!(varint_length(0), 1);
    assert_eq!(varint_length(63), 1);
    assert_eq!(varint_length(64), 2);
    assert_eq!(varint_length(16383), 2);
    assert_eq!(varint_length(16384), 4);
    assert_eq!(varint_length(1073741823), 4);
    assert_eq!(varint_length(1073741824), 8);
    assert_eq!(varint_length(VARINT_MAX), 8);
}

#[test]
fn varint_exact_bytes() {
    let mut buf: Vec<u8> = Vec::new();
    encode_varint(&mut buf, 37);
    assert_eq!(buf, vec![0x25]);

    let mut buf: Vec<u8> = Vec::new();
    encode_varint(&mut buf, 15293);
    assert_eq!(buf, vec![0x7b, 0xbd]);

    let mut buf: Vec<u8> = Vec::new();
    encode_varint(&mut buf, 494878333);
    assert_eq!(buf, vec![0x9d, 0x7f, 0x3e, 0x7d]);

    let mut buf: Vec<u8> = Vec::new();
    encode_varint(&mut buf, 151288809941952652);
    assert_eq!(buf, vec![0xc2, 0x19, 0x7c, 0x5e, 0xff, 0x14, 0xe8, 0x8c]);
}

#[test]
fn control_frame_encodings() {
    let sid = StreamId { id: 2 };
    let mut q = ControlFrameQueue::new();
    q.send_frame(vec![
        StreamCtlFrame::ResetStream(ResetStreamFrame {
            stream_id: sid,
            app_error_code: 0,
            final_size: 5,
        }),
        StreamCtlFrame::StopSending(StopSendingFrame {
            stream_id: sid,
            app_err_code: 7,
        }),
        StreamCtlFrame::MaxStreamData(MaxStreamDataFrame {
            stream_id: sid,
            max_stream_data: 100,
        }),
        StreamCtlFrame::MaxStreams(MaxStreamsFrame::Bi(3)),
    ]);

    // frames leave in enqueue order, each with its exact wire form
    let mut buf: Vec<u8> = Vec::new();
    assert!(q.try_read_ctl_frame(&mut buf, 1024).is_some());
    assert_eq!(buf, vec![0x04, 0x02, 0x00, 0x05]);

    let mut buf: Vec<u8> = Vec::new();
    assert!(q.try_read_ctl_frame(&mut buf, 1024).is_some());
    assert_eq!(buf, vec![0x05, 0x02, 0x07]);

    let mut buf: Vec<u8> = Vec::new();
    assert!(q.try_read_ctl_frame(&mut buf, 1024).is_some());
    assert_eq!(buf, vec![0x11, 0x02, 0x40, 0x64]);

    let mut buf: Vec<u8> = Vec::new();
    assert!(q.try_read_ctl_frame(&mut buf, 1024).is_some());
    assert_eq!(buf, vec![0x12, 0x03]);

    let mut buf: Vec<u8> = Vec::new();
    assert!(q.try_read_ctl_frame(&mut buf, 1024).is_none());
}

#[test]
fn control_frame_waits_for_room() {
    let mut q = ControlFrameQueue::new();
    q.send_frame(vec![StreamCtlFrame::ResetStream(ResetStreamFrame {
        stream_id: StreamId { id: 2 },
        app_error_code: 0,
        final_size: 5,
    })]);
    let mut buf: Vec<u8> = Vec::new();
    // four bytes needed, three offered: the frame stays queued
    assert!(q.try_read_ctl_frame(&mut buf, 3).is_none());
    assert!(buf.is_empty());
    assert!(q.try_read_ctl_frame(&mut buf, 4).is_some());
    assert_eq!(buf.len(), 4);
}

#[test]
fn stream_id_quadrants() {
    let client_bidi = StreamId::new(Role::Client, Dir::Bi, 0);
    let server_bidi = StreamId::new(Role::Server, Dir::Bi, 0);
    let client_uni = StreamId::new(Role::Client, Dir::Uni, 0);
    let server_uni = StreamId::new(Role::Server, Dir::Uni, 0);
    assert_eq!(client_bidi.id, 0);
    assert_eq!(server_bidi.id, 1);
    assert_eq!(client_uni.id, 2);
    assert_eq!(server_uni.id, 3);
    assert_eq!(StreamId::new(Role::Server, Dir::Bi, 4).id, 17);
    assert_eq!(client_uni.role(), Role::Client);
    assert_eq!(client_uni.dir(), Dir::Uni);
    assert_eq!(StreamId { id: 17 }.index(), 4);
}

#[test]
fn stream_frame_equality_carries_flags() {
    let f = StreamFrame {
        id: StreamId { id: 0 },
        offset: 0,
        length: 5,
        fin: true,
        carries_length: true,
    };
    assert_eq!(f.range(), 0..5);
    assert!(f.is_fin());
}
