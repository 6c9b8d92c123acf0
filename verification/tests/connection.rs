use lud::connection::Connection;
use lud::packet::Packet;
use lud::wire::{encode_frame, FramingError};

#[test]
fn what_one_end_writes_the_other_reads() {
    let mut sender = Connection::new();
    let mut receiver = Connection::new();
    let packets = vec![
        Packet::Ping,
        Packet::UploadStart("a".to_string(), 3, 0o644, false),
        Packet::UploadChunk(vec![1, 2, 3]),
        Packet::UploadEnd,
    ];
    for packet in &packets {
        assert_eq!(sender.write_packet(packet), Ok(()));
    }
    let bytes = sender.transmit();
    assert!(sender.transmit().is_empty());
    receiver.receive(&bytes);
    for packet in packets {
        assert_eq!(receiver.read_packet(), Ok(packet));
    }
    assert_eq!(receiver.read_packet(), Err(FramingError::ShortRead));
}

#[test]
fn written_bytes_are_frames() {
    let mut conn = Connection::new();
    let packet = Packet::Error("bad".to_string());
    conn.write_packet(&packet).unwrap();
    conn.write_packet(&Packet::Ack).unwrap();
    let mut expected = encode_frame(&packet).unwrap();
    expected.extend_from_slice(&[0, 0, 0, 4, 0, 0, 0, 0]);
    assert_eq!(conn.transmit(), expected);
}

#[test]
fn a_frame_that_arrives_in_pieces_is_read_once_whole() {
    let framed = encode_frame(&Packet::DownloadChunk(vec![5; 100])).unwrap();
    let mut conn = Connection::new();
    for byte in &framed[..framed.len() - 1] {
        conn.receive(&[*byte]);
        assert_eq!(conn.read_packet(), Err(FramingError::ShortRead));
    }
    conn.receive(&framed[framed.len() - 1..]);
    assert_eq!(conn.read_packet(), Ok(Packet::DownloadChunk(vec![5; 100])));
    assert_eq!(conn.read_packet(), Err(FramingError::ShortRead));
}

#[test]
fn malformed_frame_is_reported_and_stays() {
    let mut conn = Connection::new();
    conn.receive(&[0, 0, 0, 4, 99, 0, 0, 0]);
    assert_eq!(conn.read_packet(), Err(FramingError::Malformed));
    assert_eq!(conn.read_packet(), Err(FramingError::Malformed));
}

#[test]
fn nothing_passes_after_shutdown() {
    let mut conn = Connection::new();
    assert!(conn.is_open());
    conn.write_packet(&Packet::Ping).unwrap();
    conn.receive(&encode_frame(&Packet::Ack).unwrap());
    conn.shutdown();
    assert!(!conn.is_open());
    assert_eq!(conn.read_packet(), Err(FramingError::Closed));
    assert_eq!(conn.write_packet(&Packet::Ack), Err(FramingError::Closed));
    assert_eq!(conn.transmit(), encode_frame(&Packet::Ping).unwrap());
}
