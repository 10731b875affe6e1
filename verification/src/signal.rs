//! The signal hub: a bounded fan-out broadcaster. Publishing appends
//! to a log; a subscriber holds a cursor into that log, created at the
//! current tail, so events published before it subscribed are
//! invisible to it. The hub keeps at most [`CAPACITY`] pending events:
//! at capacity the oldest buffered event is dropped, and only a
//! lagging subscriber can lose events.
//!
//! The hub here is the sequential model of that behaviour; the
//! surrounding process drives it from its event loop and parks waiting
//! subscribers until the next publish.

use vstd::prelude::*;
use vstd::slice::slice_to_vec;

verus! {

/// How many pending events the hub buffers before dropping the oldest.
pub const CAPACITY: usize = 100;

/// A subscriber's position in the hub's log: the index of the next
/// event it will observe.
pub struct Cursor {
    pub pos: u64,
}

/// The hub. The full history of published events is kept as a ghost
/// log; the buffer holds its last at-most-[`CAPACITY`] entries.
pub struct Signal {
    sent: u64,
    buffer: Vec<Vec<u8>>,
    history: Ghost<Seq<Seq<u8>>>,
}

/// Where a delivery lands: nothing when the cursor is at the tail of
/// a log of `log_len` events, the cursor's own position when it still
/// lies in the buffered suffix that begins at `start`, and the oldest
/// buffered event when the cursor has lagged behind it.
pub open spec fn spec_delivery(log_len: int, start: int, pos: int) -> Option<int> {
    if pos >= log_len {
        None
    } else if pos >= start {
        Some(pos)
    } else {
        Some(start)
    }
}

impl Signal {
    /// Every event published so far, oldest first.
    pub closed spec fn log(&self) -> Seq<Seq<u8>> {
        self.history@
    }

    /// The log index of the oldest event still buffered.
    pub closed spec fn backlog_start(&self) -> int {
        self.history@.len() - self.buffer@.len()
    }

    /// The hub's well-formedness: the buffer is the tail of the log,
    /// holding exactly the last `min(log length, CAPACITY)` events.
    pub closed spec fn inv(&self) -> bool {
        &&& self.sent == self.history@.len()
        &&& self.buffer@.len() == (if self.history@.len() < CAPACITY {
            self.history@.len() as int
        } else {
            CAPACITY as int
        })
        &&& forall|i: int|
            0 <= i < self.buffer@.len() ==> self.buffer@[i]@ == self.history@[self.backlog_start()
                + i]
    }

    /// The backlog lies within the log and holds at most
    /// [`CAPACITY`] events.
    pub proof fn lemma_inv_bounds(&self)
        requires
            self.inv(),
        ensures
            0 <= self.backlog_start() <= self.log().len(),
            self.log().len() - self.backlog_start() <= CAPACITY,
    {
    }

    /// A hub with nothing published.
    pub fn new() -> (r: Self)
        ensures
            r.inv(),
            r.log() == Seq::<Seq<u8>>::empty(),
    {
        Signal { sent: 0, buffer: Vec::new(), history: Ghost(Seq::empty()) }
    }

    /// Publishes one event: the log grows by it, and at capacity the
    /// oldest buffered event is dropped. Never blocks the publisher.
    pub fn send_signal(&mut self, path: Vec<u8>)
        requires
            old(self).inv(),
            old(self).log().len() < u64::MAX,
        ensures
            final(self).inv(),
            final(self).log() == old(self).log().push(path@),
            final(self).backlog_start() >= old(self).backlog_start(),
    {
        if self.buffer.len() >= CAPACITY {
            self.buffer.remove(0);
        }
        self.buffer.push(path);
        self.sent = self.sent + 1;
        proof {
            self.history@ = self.history@.push(path@);
        }
    }

    /// Creates a cursor at the current tail: events already published
    /// are never replayed to it.
    pub fn subscribe(&self) -> (c: Cursor)
        requires
            self.inv(),
        ensures
            c.pos == self.log().len(),
    {
        Cursor { pos: self.sent }
    }

    /// Observes the next event at or after the cursor, advancing the
    /// cursor past it; nothing when the cursor is at the tail (a
    /// waiting subscriber parks until the next publish).
    pub fn poll(&self, c: &mut Cursor) -> (r: Option<Vec<u8>>)
        requires
            self.inv(),
        ensures
            match spec_delivery(self.log().len() as int, self.backlog_start(), old(c).pos as int) {
                None => r is None && c == old(c),
                Some(i) => r matches Some(e) && e@ == self.log()[i] && final(c).pos == i + 1,
            },
    {
        if c.pos >= self.sent {
            return None;
        }
        let start: u64 = self.sent - self.buffer.len() as u64;
        let idx: u64 = if c.pos > start {
            c.pos
        } else {
            start
        };
        assert(self.buffer@.len() > 0);
        assert(start < self.sent);
        assert(idx < self.sent);
        let buf_i: usize = (idx - start) as usize;
        assert(buf_i < self.buffer@.len());
        let event = slice_to_vec(self.buffer[buf_i].as_slice());
        c.pos = idx + 1;
        Some(event)
    }
}

/// Forward-only visibility: a cursor standing at or past the end of
/// the log — where `subscribe` creates one — observes nothing until
/// something newer is published; no past event is replayed.
pub proof fn lemma_no_replay(log_len: int, start: int, pos: int)
    requires
        pos >= log_len,
    ensures
        spec_delivery(log_len, start, pos) is None,
{
}

/// In-order delivery: every event observed through a cursor lies at or
/// after the cursor's position, and the cursor moves past it, so one
/// subscriber observes events at strictly increasing log positions —
/// the order they were published — whatever is published in between.
pub proof fn lemma_ordered_delivery(
    log_len1: int,
    start1: int,
    pos: int,
    log_len2: int,
    start2: int,
)
    requires
        spec_delivery(log_len1, start1, pos) is Some,
        spec_delivery(
            log_len2,
            start2,
            spec_delivery(log_len1, start1, pos).unwrap() + 1,
        ) is Some,
        start1 >= 0,
        start2 >= 0,
    ensures
        spec_delivery(log_len1, start1, pos).unwrap() >= pos,
        spec_delivery(log_len2, start2, spec_delivery(log_len1, start1, pos).unwrap() + 1).unwrap()
            > spec_delivery(log_len1, start1, pos).unwrap(),
{
}

} // verus!
