//! The per-connection session: one reader and one writer direction,
//! coordinated only through explicit cancellation flags. The decisions
//! of both loops live here; the surrounding process performs the reads,
//! the sends and the waiting, and observes the cancellation signal
//! directly — never by sleeping and re-checking.

use vstd::prelude::*;
use vstd::string::StringSliceAdditionalSpecFns;

use crate::bytesutil::{ends_with, push_bytes};
use crate::websocket::{FrameError, Opcode, WebSocketMessage};

verus! {

/// Whether a path names a stylesheet: it ends in `.css`.
pub open spec fn spec_is_css(path: Seq<u8>) -> bool {
    let suf = ".css".spec_bytes();
    path.len() >= suf.len() && path.skip(path.len() - suf.len() as int) == suf
}

/// The text a writer sends for a changed path: a stylesheet is
/// hot-swapped, anything else reloads the page.
pub open spec fn spec_message_for(path: Seq<u8>) -> Seq<u8> {
    if spec_is_css(path) {
        "update-css:///".spec_bytes() + path
    } else {
        "reload".spec_bytes()
    }
}

/// Builds the message the writer owes for a changed path.
pub fn message_for_path(path: &Vec<u8>) -> (r: Vec<u8>)
    ensures
        r@ == spec_message_for(path@),
{
    let mut m: Vec<u8> = Vec::new();
    if ends_with(path.as_slice(), ".css".as_bytes()) {
        push_bytes(&mut m, "update-css:///".as_bytes());
        push_bytes(&mut m, path.as_slice());
        assert(m@ =~= "update-css:///".spec_bytes() + path@);
    } else {
        push_bytes(&mut m, "reload".as_bytes());
        assert(m@ =~= "reload".spec_bytes());
    }
    m
}

/// What the writer's loop reacts to: its cancellation signal firing,
/// or the hub delivering a changed path.
pub enum WriterEvent {
    Cancelled,
    Delivered(Vec<u8>),
}

/// What the writer does next: leave its loop, or send one text
/// message and keep waiting.
pub enum WriterAction {
    Exit,
    Send(Vec<u8>),
}

/// Whether the reader's loop ends on this read: on a Close frame or
/// on any read or parse error, and on nothing else.
pub open spec fn spec_reader_stops(msg: Result<WebSocketMessage, FrameError>) -> bool {
    match msg {
        Ok(m) => m.opcode is Close,
        Err(_) => true,
    }
}

/// The mathematical counterpart of [`WriterAction`].
pub enum SpecWriterAction {
    Exit,
    Send(Seq<u8>),
}

/// The action a [`WriterAction`] denotes.
pub open spec fn action_view(a: WriterAction) -> SpecWriterAction {
    match a {
        WriterAction::Exit => SpecWriterAction::Exit,
        WriterAction::Send(m) => SpecWriterAction::Send(m@),
    }
}

/// What the writer does on an event, given whether its cancellation
/// signal was raised: exit when cancelled either way, otherwise send
/// the message owed for the delivered path.
pub open spec fn spec_writer_next(cancelled: bool, ev: WriterEvent) -> SpecWriterAction {
    match ev {
        WriterEvent::Cancelled => SpecWriterAction::Exit,
        WriterEvent::Delivered(p) => if cancelled {
            SpecWriterAction::Exit
        } else {
            SpecWriterAction::Send(spec_message_for(p@))
        },
    }
}

/// The shared state of one session: the two cancellation flags, each
/// raised by the opposite direction when it terminates.
pub struct SessionControl {
    pub writer_cancelled: bool,
    pub reader_cancelled: bool,
}

impl SessionControl {
    /// A fresh session: nothing cancelled.
    pub fn new() -> (r: Self)
        ensures
            !r.writer_cancelled,
            !r.reader_cancelled,
    {
        SessionControl { writer_cancelled: false, reader_cancelled: false }
    }

    /// The reader's decision on one read: stop on a Close frame or on
    /// any error, and in the same step raise the writer's
    /// cancellation signal; otherwise keep reading, touching nothing.
    pub fn reader_observes(&mut self, msg: &Result<WebSocketMessage, FrameError>) -> (stop: bool)
        ensures
            stop == spec_reader_stops(*msg),
            final(self).writer_cancelled == (old(self).writer_cancelled || stop),
            final(self).reader_cancelled == old(self).reader_cancelled,
    {
        let stop = match msg {
            Ok(m) => matches!(m.opcode, Opcode::Close),
            Err(_) => true,
        };
        if stop {
            self.writer_cancelled = true;
        }
        stop
    }

    /// The writer's decision on one event: exit once its cancellation
    /// signal is raised or fires, otherwise send the message owed for
    /// the delivered path. A successful send never ends the loop: the
    /// writer keeps waiting for later changes.
    pub fn writer_next(&self, ev: WriterEvent) -> (a: WriterAction)
        ensures
            action_view(a) == spec_writer_next(self.writer_cancelled, ev),
    {
        if self.writer_cancelled {
            return WriterAction::Exit;
        }
        match ev {
            WriterEvent::Cancelled => WriterAction::Exit,
            WriterEvent::Delivered(p) => WriterAction::Send(message_for_path(&p)),
        }
    }

    /// The writer's decision after a send: a failure ends its loop
    /// and raises the reader's cancellation signal in the same step;
    /// a success changes nothing.
    pub fn writer_send_result(&mut self, ok: bool) -> (stop: bool)
        ensures
            stop == !ok,
            final(self).reader_cancelled == (old(self).reader_cancelled || !ok),
            final(self).writer_cancelled == old(self).writer_cancelled,
    {
        if !ok {
            self.reader_cancelled = true;
        }
        !ok
    }
}

/// A client Close frame cancels the writer within one step and no
/// frame is sent afterward: the reader raises the writer's
/// cancellation flag in the very step that observes the Close, and
/// from then on the writer's next action is Exit for every event —
/// the cancellation is observed directly, with no polling interval in
/// between, so the latency is bounded by one writer step.
pub proof fn lemma_close_cancels_writer(msg: Result<WebSocketMessage, FrameError>)
    requires
        msg matches Ok(m) && m.opcode is Close,
    ensures
        spec_reader_stops(msg),
        forall|ev: WriterEvent| #[trigger] spec_writer_next(true, ev) is Exit,
{
    assert forall|ev: WriterEvent| #[trigger] spec_writer_next(true, ev) is Exit by {
        match ev {
            WriterEvent::Cancelled => {},
            WriterEvent::Delivered(_) => {},
        }
    }
}

} // verus!
