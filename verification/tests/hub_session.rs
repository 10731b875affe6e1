//! The signal hub's forward-only fan-out and the session state
//! machine.

use rusty_live_server::session::{
    message_for_path, SessionControl, WriterAction, WriterEvent,
};
use rusty_live_server::signal::{Signal, CAPACITY};
use rusty_live_server::websocket::{parse_websocket_message, WebSocketMessage, Opcode};

#[test]
fn subscriber_sees_only_later_events() {
    let mut hub = Signal::new();
    hub.send_signal(b"before".to_vec());
    let mut c = hub.subscribe();
    assert_eq!(hub.poll(&mut c), None);
    hub.send_signal(b"after".to_vec());
    assert_eq!(hub.poll(&mut c), Some(b"after".to_vec()));
    assert_eq!(hub.poll(&mut c), None);
}

#[test]
fn one_subscriber_sees_events_in_publish_order() {
    let mut hub = Signal::new();
    let mut c = hub.subscribe();
    hub.send_signal(b"one".to_vec());
    hub.send_signal(b"two".to_vec());
    hub.send_signal(b"three".to_vec());
    assert_eq!(hub.poll(&mut c), Some(b"one".to_vec()));
    assert_eq!(hub.poll(&mut c), Some(b"two".to_vec()));
    assert_eq!(hub.poll(&mut c), Some(b"three".to_vec()));
    assert_eq!(hub.poll(&mut c), None);
}

#[test]
fn two_subscribers_advance_independently() {
    let mut hub = Signal::new();
    let mut a = hub.subscribe();
    hub.send_signal(b"x".to_vec());
    let mut b = hub.subscribe();
    hub.send_signal(b"y".to_vec());
    assert_eq!(hub.poll(&mut a), Some(b"x".to_vec()));
    assert_eq!(hub.poll(&mut b), Some(b"y".to_vec()));
    assert_eq!(hub.poll(&mut a), Some(b"y".to_vec()));
}

#[test]
fn lagging_subscriber_loses_only_the_oldest() {
    let mut hub = Signal::new();
    let mut c = hub.subscribe();
    for i in 0..(CAPACITY + 20) {
        hub.send_signal(format!("e{}", i).into_bytes());
    }
    // the first 20 were dropped; delivery resumes at the oldest kept
    assert_eq!(hub.poll(&mut c), Some(b"e20".to_vec()));
    assert_eq!(hub.poll(&mut c), Some(b"e21".to_vec()));
}

#[test]
fn css_paths_hot_swap_and_others_reload() {
    assert_eq!(
        message_for_path(&b"styles/site.css".to_vec()),
        b"update-css:///styles/site.css".to_vec()
    );
    assert_eq!(message_for_path(&b"index.html".to_vec()), b"reload".to_vec());
    assert_eq!(message_for_path(&b"css".to_vec()), b"reload".to_vec());
}

#[test]
fn close_frame_stops_reader_and_cancels_writer() {
    let mut ctl = SessionControl::new();
    let close = parse_websocket_message(&[0x88u8, 0]).map(|(m, _)| m);
    let stop = ctl.reader_observes(&close);
    assert!(stop);
    assert!(ctl.writer_cancelled);
    // no frame goes out afterward, whatever arrives
    let a = ctl.writer_next(WriterEvent::Delivered(b"style.css".to_vec()));
    assert!(matches!(a, WriterAction::Exit));
    let a = ctl.writer_next(WriterEvent::Cancelled);
    assert!(matches!(a, WriterAction::Exit));
}

#[test]
fn read_error_also_cancels_writer() {
    let mut ctl = SessionControl::new();
    let err = parse_websocket_message(&[0x81u8]).map(|(m, _)| m);
    assert!(err.is_err());
    let stop = ctl.reader_observes(&err);
    assert!(stop);
    assert!(ctl.writer_cancelled);
}

#[test]
fn ordinary_frames_keep_the_session_open() {
    let mut ctl = SessionControl::new();
    let text: Result<WebSocketMessage, _> =
        parse_websocket_message(&[0x81u8, 2, b'h', b'i']).map(|(m, _)| m);
    assert!(matches!(text.as_ref().map(|m| &m.opcode), Ok(Opcode::Text)));
    let stop = ctl.reader_observes(&text);
    assert!(!stop);
    assert!(!ctl.writer_cancelled);
    let a = ctl.writer_next(WriterEvent::Delivered(b"a.css".to_vec()));
    match a {
        WriterAction::Send(m) => assert_eq!(m, b"update-css:///a.css".to_vec()),
        WriterAction::Exit => panic!("writer must send while the session is open"),
    }
}

#[test]
fn send_failure_cancels_reader_and_ends_writer() {
    let mut ctl = SessionControl::new();
    let stop = ctl.writer_send_result(false);
    assert!(stop);
    assert!(ctl.reader_cancelled);
    let mut ctl2 = SessionControl::new();
    let stop = ctl2.writer_send_result(true);
    assert!(!stop);
    assert!(!ctl2.reader_cancelled);
}
