//! The handshake accept key, against the protocol's fixed vector.

use rusty_live_server::websocket::{generate_websocket_accept_key, handshake_response};

#[test]
fn accept_key_fixed_vector() {
    let key = b"dGhlIHNhbXBsZSBub25jZQ==".to_vec();
    let accept = generate_websocket_accept_key(&key);
    assert_eq!(accept, b"s3pPLMBiTxaQ9kYGzzhZRbK+xOo=".to_vec());
}

#[test]
fn handshake_response_carries_accept_value() {
    let key = b"dGhlIHNhbXBsZSBub25jZQ==".to_vec();
    let response = handshake_response(&key);
    let expected = b"HTTP/1.1 101 Switching Protocols\r\nUpgrade: websocket\r\nConnection: Upgrade\r\nSec-WebSocket-Accept: s3pPLMBiTxaQ9kYGzzhZRbK+xOo=\r\n\r\n".to_vec();
    assert_eq!(response, expected);
}

#[test]
fn accept_key_depends_on_the_key() {
    let a = generate_websocket_accept_key(&b"aaaa".to_vec());
    let b = generate_websocket_accept_key(&b"bbbb".to_vec());
    assert_ne!(a, b);
}
