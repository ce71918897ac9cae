use qmux::datagram::DatagramOutgoing;
use qmux::err::{Error, ErrorKind, FrameType};
use qmux::frames::DatagramFrame;

#[test]
fn test_datagram_writer_with_length() {
    let mut outgoing = DatagramOutgoing::new(Some(1024));
    let data = b"hello world".to_vec();
    outgoing.send_bytes(data.clone()).unwrap();

    let mut buffer: Vec<u8> = Vec::new();
    let expected_frame = DatagramFrame::WithLen(data.len() as u64);
    assert_eq!(
        outgoing.try_read_datagram(&mut buffer, 1024),
        Some((expected_frame, 1 + 1 + data.len()))
    );

    let mut expected_buffer: Vec<u8> = vec![0x31, data.len() as u8];
    expected_buffer.extend_from_slice(&data);
    assert_eq!(buffer, expected_buffer);
}

#[test]
fn test_datagram_writer_without_length() {
    let mut outgoing = DatagramOutgoing::new(Some(1024));
    let data = b"hello world".to_vec();
    outgoing.send_bytes(data.clone()).unwrap();

    let mut buffer: Vec<u8> = Vec::new();
    assert_eq!(
        outgoing.try_read_datagram(&mut buffer, 12),
        Some((DatagramFrame::NoLen, 12))
    );

    let mut expected_buffer: Vec<u8> = vec![0x30];
    expected_buffer.extend_from_slice(&data);
    assert_eq!(buffer, expected_buffer);
}

#[test]
fn test_datagram_writer_unwritten() {
    let mut outgoing = DatagramOutgoing::new(Some(1024));
    let data = b"hello world".to_vec();
    outgoing.send_bytes(data.clone()).unwrap();

    let mut buffer: Vec<u8> = Vec::new();
    assert!(outgoing.try_read_datagram(&mut buffer, 1).is_none());
    assert!(buffer.is_empty());

    // the datagram is still queued and goes out once there is room
    assert!(outgoing.try_read_datagram(&mut buffer, 1024).is_some());
}

#[test]
fn test_datagram_writer_padding_first() {
    let mut outgoing = DatagramOutgoing::new(Some(1024));
    // a 64-byte payload needs a two-byte length varint
    let data = vec![b'a'; 64];
    outgoing.send_bytes(data.clone()).unwrap();

    let mut buffer: Vec<u8> = Vec::new();
    assert_eq!(
        outgoing.try_read_datagram(&mut buffer, data.len() + 2),
        Some((DatagramFrame::NoLen, data.len() + 2))
    );

    // one PADDING byte, then the length-less frame ending the buffer exactly
    let mut expected_buffer: Vec<u8> = vec![0x00, 0x30];
    expected_buffer.extend_from_slice(&data);
    assert_eq!(buffer, expected_buffer);
}

#[test]
fn test_datagram_writer_exceeds_limit() {
    // the smallest encoding is one header byte plus the payload
    let mut outgoing = DatagramOutgoing::new(Some(11));
    let data = b"hello world".to_vec();
    let result = outgoing.send_bytes(data);
    assert!(result.is_err());
    assert_eq!(result.unwrap_err().kind(), ErrorKind::InvalidInput);
}

#[test]
fn test_datagram_writer_unknown_limit() {
    let mut outgoing = DatagramOutgoing::new(None);
    let result = outgoing.send_bytes(b"hello world".to_vec());
    assert!(result.is_err());
    assert_eq!(result.unwrap_err().kind(), ErrorKind::InvalidInput);
}

#[test]
fn test_datagram_writer_update_remote_max_datagram_frame_size() {
    let mut outgoing = DatagramOutgoing::new(None);
    outgoing.update_remote_max_datagram_frame_size(2048).unwrap();
    assert_eq!(outgoing.max_datagram_frame_size().unwrap(), Some(2048));
}

#[test]
fn test_datagram_writer_reduce_remote_max_datagram_frame_size() {
    let mut outgoing = DatagramOutgoing::new(Some(1024));
    let result = outgoing.update_remote_max_datagram_frame_size(512);
    assert!(result.is_err());
    assert_eq!(result.unwrap_err().kind(), ErrorKind::ProtocolViolation);
}

#[test]
fn test_datagram_writer_on_conn_error() {
    let mut outgoing = DatagramOutgoing::new(Some(1024));
    outgoing.send_bytes(b"hello world".to_vec()).unwrap();
    outgoing.on_conn_error(&Error::new(
        ErrorKind::ProtocolViolation,
        FrameType::Datagram,
        "test",
    ));
    assert!(outgoing.max_datagram_frame_size().is_err());
    let e = outgoing.send_bytes(b"x".to_vec()).unwrap_err();
    assert_eq!(e.kind(), ErrorKind::BrokenPipe);
    // the queue was dropped with the connection
    let mut buffer: Vec<u8> = Vec::new();
    assert!(outgoing.try_read_datagram(&mut buffer, 1024).is_none());
}
