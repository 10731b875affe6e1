//! Frame encoding and parsing, across the length boundaries.

use rusty_live_server::bytesutil::{be16_of, be64_of, dec_of};
use rusty_live_server::websocket::{encode_websocket_message, parse_websocket_message, Opcode};

fn round_trip(len: usize) {
    let payload: Vec<u8> = (0..len).map(|i| (i % 251) as u8).collect();
    let frame = encode_websocket_message(&payload);
    let (msg, used) = parse_websocket_message(&frame).expect("frame must parse");
    assert!(matches!(msg.opcode, Opcode::Text));
    assert_eq!(msg.payload, payload);
    assert_eq!(used, frame.len());
}

#[test]
fn round_trip_empty() {
    round_trip(0);
}

#[test]
fn round_trip_small() {
    round_trip(1);
    round_trip(100);
}

#[test]
fn round_trip_at_125() {
    round_trip(125);
}

#[test]
fn round_trip_at_126() {
    round_trip(126);
}

#[test]
fn round_trip_at_65535() {
    round_trip(65535);
}

#[test]
fn round_trip_at_65536() {
    round_trip(65536);
}

#[test]
fn short_frame_header_shape() {
    let frame = encode_websocket_message(&b"hi".to_vec());
    assert_eq!(frame[0], 0x81);
    assert_eq!(frame[1], 2);
    assert_eq!(&frame[2..], b"hi");
}

#[test]
fn extended_16_header_shape() {
    let payload = vec![7u8; 300];
    let frame = encode_websocket_message(&payload);
    assert_eq!(frame[0], 0x81);
    assert_eq!(frame[1], 126);
    assert_eq!(frame[2], 1);
    assert_eq!(frame[3], 44);
    assert_eq!(frame.len(), 4 + 300);
}

#[test]
fn masked_client_frame_unmasks() {
    let key = [0x10u8, 0x20, 0x30, 0x40];
    let payload = b"hello";
    let mut frame = vec![0x81u8, 0x80 | 5];
    frame.extend_from_slice(&key);
    for (i, b) in payload.iter().enumerate() {
        frame.push(b ^ key[i % 4]);
    }
    let (msg, used) = parse_websocket_message(&frame).expect("masked frame must parse");
    assert!(matches!(msg.opcode, Opcode::Text));
    assert_eq!(msg.payload, payload.to_vec());
    assert_eq!(used, frame.len());
}

#[test]
fn close_frame_opcode() {
    let frame = vec![0x88u8, 0];
    let (msg, _) = parse_websocket_message(&frame).expect("close frame must parse");
    assert!(matches!(msg.opcode, Opcode::Close));
}

#[test]
fn truncated_frames_are_errors() {
    assert!(parse_websocket_message(&[]).is_err());
    assert!(parse_websocket_message(&[0x81]).is_err());
    assert!(parse_websocket_message(&[0x81, 5, b'h', b'i']).is_err());
    assert!(parse_websocket_message(&[0x81, 126, 1]).is_err());
    assert!(parse_websocket_message(&[0x81, 127, 0, 0, 0, 0]).is_err());
    // a masked frame whose key is cut off
    assert!(parse_websocket_message(&[0x81, 0x80 | 1, 0x10, 0x20]).is_err());
}

#[test]
fn trailing_bytes_are_left_for_the_next_frame() {
    let mut frame = encode_websocket_message(&b"one".to_vec());
    let first_len = frame.len();
    frame.extend_from_slice(&encode_websocket_message(&b"two".to_vec()));
    let (msg, used) = parse_websocket_message(&frame).expect("first frame must parse");
    assert_eq!(msg.payload, b"one".to_vec());
    assert_eq!(used, first_len);
}

#[test]
fn opcode_codes() {
    assert!(matches!(Opcode::from_byte(0x0), Opcode::Continuation));
    assert!(matches!(Opcode::from_byte(0x1), Opcode::Text));
    assert!(matches!(Opcode::from_byte(0x2), Opcode::Binary));
    assert!(matches!(Opcode::from_byte(0x8), Opcode::Close));
    assert!(matches!(Opcode::from_byte(0x9), Opcode::Ping));
    assert!(matches!(Opcode::from_byte(0xA), Opcode::Pong));
    assert!(matches!(Opcode::from_byte(0x3), Opcode::Other(0x3)));
}

#[test]
fn decimal_rendering() {
    assert_eq!(dec_of(0), b"0".to_vec());
    assert_eq!(dec_of(7), b"7".to_vec());
    assert_eq!(dec_of(1234), b"1234".to_vec());
    assert_eq!(dec_of(u64::MAX), b"18446744073709551615".to_vec());
}

#[test]
fn big_endian_encodings() {
    assert_eq!(be16_of(0x0102), vec![1, 2]);
    assert_eq!(be64_of(0x0102030405060708), vec![1, 2, 3, 4, 5, 6, 7, 8]);
}

#[test]
fn non_minimal_64_bit_length_is_accepted() {
    let mut frame = vec![0x81u8, 127, 0, 0, 0, 0, 0, 0, 0, 5];
    frame.extend_from_slice(b"hello");
    let (msg, used) = parse_websocket_message(&frame).expect("frame must parse");
    assert_eq!(msg.payload, b"hello".to_vec());
    assert_eq!(used, frame.len());
}
