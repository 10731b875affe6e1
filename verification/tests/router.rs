//! The router over the in-memory filesystem: dispatch, listing,
//! index.html, HTML augmentation, the probe, the favicon and the
//! upgrade.

use rusty_live_server::fs::MemFs;
use rusty_live_server::response::script_tag_bytes;
use rusty_live_server::routing::{handle_request, ClientAction};

fn root() -> Vec<u8> {
    b"/srv".to_vec()
}

fn respond(action: ClientAction) -> (Vec<u8>, Vec<u8>) {
    match action {
        ClientAction::Respond(r) => (r.header, r.body),
        _ => panic!("expected a response"),
    }
}

fn text(v: &[u8]) -> String {
    String::from_utf8(v.to_vec()).expect("ascii response")
}

#[test]
fn ping_returns_pong() {
    let fs = MemFs::new();
    let action = handle_request(&fs, &root(), b"POST /ping HTTP/1.1\r\n\r\n", &Vec::new());
    let (header, body) = respond(action);
    assert!(text(&header).starts_with("HTTP/1.1 200 OK"));
    assert_eq!(body, b"pong".to_vec());
}

#[test]
fn listing_has_anchors_for_exactly_the_entries() {
    let mut fs = MemFs::new();
    fs.add_dir(b"/srv".to_vec(), vec![b"a.txt".to_vec(), b"b.txt".to_vec()]);
    fs.add_file(b"/srv/a.txt".to_vec(), b"aa".to_vec());
    fs.add_file(b"/srv/b.txt".to_vec(), b"bb".to_vec());
    let action = handle_request(&fs, &root(), b"GET / HTTP/1.1\r\n\r\n", &Vec::new());
    let (header, body) = respond(action);
    assert!(text(&header).starts_with("HTTP/1.1 200 OK"));
    assert!(text(&header).contains("Content-Type: text/html"));
    let expected = "<html><body><ul>\
        <li><a href=\"a.txt\">a.txt</a></li>\
        <li><a href=\"b.txt\">b.txt</a></li>\
        </ul></body></html>";
    assert_eq!(text(&body), expected);
}

#[test]
fn listing_with_index_serves_the_index_file_instead() {
    let mut fs = MemFs::new();
    fs.add_dir(
        b"/srv".to_vec(),
        vec![b"a.txt".to_vec(), b"index.html".to_vec(), b"b.txt".to_vec()],
    );
    fs.add_file(b"/srv/index.html".to_vec(), b"<h1>home</h1>".to_vec());
    let action = handle_request(&fs, &root(), b"GET / HTTP/1.1\r\n\r\n", &Vec::new());
    let (header, body) = respond(action);
    assert!(text(&header).starts_with("HTTP/1.1 200 OK"));
    let mut expected = b"<h1>home</h1>".to_vec();
    expected.extend_from_slice(&script_tag_bytes());
    assert_eq!(body, expected);
    assert!(!text(&body).contains("<ul>"));
}

#[test]
fn html_file_gets_exactly_one_script_tag() {
    let mut fs = MemFs::new();
    fs.add_file(b"/srv/page.html".to_vec(), b"<p>x</p>".to_vec());
    let action = handle_request(&fs, &root(), b"GET /page.html HTTP/1.1\r\n\r\n", &Vec::new());
    let (header, body) = respond(action);
    let tag = script_tag_bytes();
    let mut expected = b"<p>x</p>".to_vec();
    expected.extend_from_slice(&tag);
    assert_eq!(body, expected);
    let wanted = format!("Content-Length: {}", 8 + tag.len());
    assert!(text(&header).contains(&wanted));
    assert!(text(&header).contains("Content-Type: text/html"));
    // exactly one tag: the body has one occurrence of its opening
    assert_eq!(text(&body).matches("<script defer>").count(), 1);
}

#[test]
fn plain_file_is_served_unchanged() {
    let mut fs = MemFs::new();
    fs.add_file(b"/srv/notes.txt".to_vec(), b"plain".to_vec());
    let action = handle_request(&fs, &root(), b"GET /notes.txt HTTP/1.1\r\n\r\n", &Vec::new());
    let (header, body) = respond(action);
    assert_eq!(body, b"plain".to_vec());
    assert!(text(&header).contains("Content-Length: 5"));
    assert!(text(&header).contains("Content-Type: text/plain"));
}

#[test]
fn head_suppresses_the_body_with_identical_headers() {
    let mut fs = MemFs::new();
    fs.add_file(b"/srv/notes.txt".to_vec(), b"plain".to_vec());
    let get = handle_request(&fs, &root(), b"GET /notes.txt HTTP/1.1\r\n\r\n", &Vec::new());
    let head = handle_request(&fs, &root(), b"HEAD /notes.txt HTTP/1.1\r\n\r\n", &Vec::new());
    let (gh, gb) = respond(get);
    let (hh, hb) = respond(head);
    assert_eq!(gh, hh);
    assert_eq!(gb, b"plain".to_vec());
    assert!(hb.is_empty());
}

#[test]
fn head_on_a_directory_keeps_the_listing_header() {
    let mut fs = MemFs::new();
    fs.add_dir(b"/srv".to_vec(), vec![b"a.txt".to_vec()]);
    let get = handle_request(&fs, &root(), b"GET / HTTP/1.1\r\n\r\n", &Vec::new());
    let head = handle_request(&fs, &root(), b"HEAD / HTTP/1.1\r\n\r\n", &Vec::new());
    let (gh, _) = respond(get);
    let (hh, hb) = respond(head);
    assert_eq!(gh, hh);
    assert!(hb.is_empty());
}

#[test]
fn nested_paths_resolve_under_the_root() {
    let mut fs = MemFs::new();
    fs.add_file(b"/srv/sub/deep.txt".to_vec(), b"deep".to_vec());
    let action = handle_request(&fs, &root(), b"GET /sub/deep.txt HTTP/1.1\r\n\r\n", &Vec::new());
    let (_, body) = respond(action);
    assert_eq!(body, b"deep".to_vec());
}

#[test]
fn missing_path_is_404() {
    let fs = MemFs::new();
    let action = handle_request(&fs, &root(), b"GET /nothing HTTP/1.1\r\n\r\n", &Vec::new());
    let (header, body) = respond(action);
    assert_eq!(text(&header), "HTTP/1.1 404 NOT FOUND\r\n\r\n");
    assert!(body.is_empty());
}

#[test]
fn malformed_request_is_dropped() {
    let fs = MemFs::new();
    let action = handle_request(&fs, &root(), b"GET /only-two-tokens", &Vec::new());
    assert!(matches!(action, ClientAction::Ignore));
    let action = handle_request(&fs, &root(), b"PUT /x HTTP/1.1\r\n\r\n", &Vec::new());
    assert!(matches!(action, ClientAction::Ignore));
}

#[test]
fn query_is_stripped_before_resolution() {
    let mut fs = MemFs::new();
    fs.add_file(b"/srv/notes.txt".to_vec(), b"plain".to_vec());
    let action = handle_request(&fs, &root(), b"GET /notes.txt?v=2 HTTP/1.1\r\n\r\n", &Vec::new());
    let (_, body) = respond(action);
    assert_eq!(body, b"plain".to_vec());
}

#[test]
fn favicon_from_filesystem_or_default() {
    let mut fs = MemFs::new();
    fs.add_file(b"/srv/favicon.ico".to_vec(), b"real-icon".to_vec());
    let action = handle_request(&fs, &root(), b"GET /favicon.ico HTTP/1.1\r\n\r\n", &b"fallback".to_vec());
    let (header, body) = respond(action);
    assert!(text(&header).contains("Content-Type: image/x-icon"));
    assert_eq!(body, b"real-icon".to_vec());

    let empty = MemFs::new();
    let action = handle_request(&empty, &root(), b"GET /favicon.ico HTTP/1.1\r\n\r\n", &b"fallback".to_vec());
    let (header, body) = respond(action);
    assert!(text(&header).contains("Content-Length: 8"));
    assert_eq!(body, b"fallback".to_vec());
}

#[test]
fn upgrade_opens_a_session_with_the_handshake() {
    let fs = MemFs::new();
    let req = b"GET /ws HTTP/1.1\r\nHost: x\r\nSec-WebSocket-Key: dGhlIHNhbXBsZSBub25jZQ==\r\n\r\n";
    let action = handle_request(&fs, &root(), req, &Vec::new());
    match action {
        ClientAction::OpenSession(handshake) => {
            let t = text(&handshake);
            assert!(t.starts_with("HTTP/1.1 101 Switching Protocols"));
            assert!(t.contains("Sec-WebSocket-Accept: s3pPLMBiTxaQ9kYGzzhZRbK+xOo="));
        },
        _ => panic!("expected an upgrade"),
    }
}

#[test]
fn ws_path_without_key_is_served_as_a_path() {
    let fs = MemFs::new();
    let action = handle_request(&fs, &root(), b"GET /ws HTTP/1.1\r\n\r\n", &Vec::new());
    let (header, _) = respond(action);
    assert_eq!(text(&header), "HTTP/1.1 404 NOT FOUND\r\n\r\n");
}
