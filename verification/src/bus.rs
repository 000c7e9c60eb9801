//! Per-channel bounded broadcast bus.
//!
//! A bus keeps the last [`BUFFER_SIZE`] published events together with the
//! ghost log of everything ever published. Subscribers are plain cursors
//! into that log: receiving either yields the event at the cursor, reports
//! that nothing is pending, or — when the cursor has fallen behind the
//! retained window — reports exactly how many events were lost and jumps to
//! the oldest retained one.

use vstd::prelude::*;
use vstd::pervasive::VecAdditionalExecFns;
use crate::event::{Event, EventView};

verus! {

/// How many pending events a channel retains for a slow subscriber.
pub const BUFFER_SIZE: usize = 4;

/// The outcome of one receive attempt.
pub enum RecvOutcome {
    /// The next event, in publish order.
    Received(Event),
    /// Nothing is pending; the caller should suspend, not spin.
    Empty,
    /// The subscriber fell behind and this many events were dropped.
    Lagged(u64),
}

/// The publish index of the oldest event still retained.
pub open spec fn oldest_retained(log_len: nat, cap: nat) -> nat {
    if log_len > cap {
        (log_len - cap) as nat
    } else {
        0
    }
}

/// The cursor after one receive step at `cursor`.
pub open spec fn recv_cursor(log_len: nat, cap: nat, cursor: nat) -> nat {
    if cursor >= log_len {
        cursor
    } else if cursor < oldest_retained(log_len, cap) {
        oldest_retained(log_len, cap)
    } else {
        (cursor + 1) as nat
    }
}

/// The events a subscriber at `cursor` still receives if it drains the bus
/// without further publishes, lag jumps applied.
pub open spec fn drained(log: Seq<EventView>, cap: nat, cursor: nat) -> Seq<EventView>
    decreases log.len() - cursor,
    when cursor <= log.len()
{
    if cursor >= log.len() {
        Seq::empty()
    } else if cursor < oldest_retained(log.len(), cap) {
        drained(log, cap, oldest_retained(log.len(), cap))
    } else {
        seq![log[cursor as int]] + drained(log, cap, (cursor + 1) as nat)
    }
}

/// One channel's bus: the retained window plus the ghost log.
pub struct Bus {
    buf: Vec<Event>,
    start: u64,
    history: Ghost<Seq<EventView>>,
}

impl Bus {
    /// Everything ever published, oldest first.
    pub closed spec fn log(&self) -> Seq<EventView> {
        self.history@
    }

    /// The bus's internal bookkeeping is consistent.
    pub closed spec fn wf(&self) -> bool {
        &&& self.buf.len() <= BUFFER_SIZE
        &&& self.history@.len() == self.start + self.buf.len()
        &&& self.history@.len() <= u64::MAX
        &&& (self.buf.len() == BUFFER_SIZE || self.start == 0)
        &&& forall|i: int| 0 <= i < self.buf.len() ==> #[trigger] self.buf[i]@ == self.history@[self.start + i]
    }

    /// A fresh bus with an empty log.
    pub fn new() -> (r: Bus)
        ensures
            r.wf(),
            r.log().len() == 0,
    {
        Bus { buf: Vec::new(), start: 0, history: Ghost(Seq::empty()) }
    }

    /// How many events were ever published.
    pub fn log_len(&self) -> (r: u64)
        requires
            self.wf(),
        ensures
            r == self.log().len(),
    {
        self.start + self.buf.len() as u64
    }

    /// Appends `e` to the log, evicting the oldest retained event when the
    /// window is full. Every current subscriber will observe `e` — in
    /// publish order — unless it falls more than [`BUFFER_SIZE`] behind.
    pub fn publish(&mut self, e: Event)
        requires
            old(self).wf(),
            old(self).log().len() < u64::MAX,
        ensures
            final(self).wf(),
            final(self).log() == old(self).log().push(e@),
    {
        if self.buf.len() == BUFFER_SIZE {
            self.buf.remove(0);
            self.start = self.start + 1;
        }
        self.buf.push(e);
        proof {
            self.history@ = self.history@.push(e@);
        }
    }

    /// One receive attempt for a subscriber at `*cursor`.
    pub fn recv(&self, cursor: &mut u64) -> (r: RecvOutcome)
        requires
            self.wf(),
            *old(cursor) <= self.log().len(),
        ensures
            *final(cursor) == recv_cursor(self.log().len(), BUFFER_SIZE as nat, *old(cursor) as nat),
            *old(cursor) == self.log().len() ==> r is Empty,
            *old(cursor) < oldest_retained(self.log().len(), BUFFER_SIZE as nat)
                ==> (r matches RecvOutcome::Lagged(n)
                    && n == oldest_retained(self.log().len(), BUFFER_SIZE as nat) - *old(cursor)),
            oldest_retained(self.log().len(), BUFFER_SIZE as nat) <= *old(cursor) < self.log().len()
                ==> (r matches RecvOutcome::Received(e) && e@ == self.log()[*old(cursor) as int]),
    {
        if *cursor == self.start + self.buf.len() as u64 {
            RecvOutcome::Empty
        } else if *cursor < self.start {
            let n = self.start - *cursor;
            *cursor = self.start;
            RecvOutcome::Lagged(n)
        } else {
            let e = self.buf[(*cursor - self.start) as usize].clone();
            *cursor = *cursor + 1;
            RecvOutcome::Received(e)
        }
    }
}

/// One receive step never moves a subscriber's cursor backwards, so a
/// subscriber never observes the same publish index twice.
pub proof fn lemma_cursor_monotone(log_len: nat, cap: nat, cursor: nat)
    ensures
        recv_cursor(log_len, cap, cursor) >= cursor,
{
}

/// In-order delivery: a subscriber that is within the retained window and
/// drains the bus receives exactly the published events from its cursor on,
/// each once, in publish order.
pub proof fn lemma_drain_in_order(log: Seq<EventView>, cap: nat, cursor: nat)
    requires
        cursor <= log.len(),
        cursor >= oldest_retained(log.len(), cap),
    ensures
        drained(log, cap, cursor) == log.subrange(cursor as int, log.len() as int),
    decreases log.len() - cursor,
{
    if cursor >= log.len() {
        assert(drained(log, cap, cursor) =~= log.subrange(cursor as int, log.len() as int));
    } else {
        lemma_drain_in_order(log, cap, (cursor + 1) as nat);
        assert(drained(log, cap, cursor) =~= log.subrange(cursor as int, log.len() as int));
    }
}

/// Lag accounting: a subscriber that fell behind the retained window is told
/// exactly how many events it missed — the distance from its cursor to the
/// oldest retained event — and then receives everything still retained, in
/// publish order, with nothing skipped beyond the reported loss.
pub proof fn lemma_lag_count(log: Seq<EventView>, cap: nat, cursor: nat)
    requires
        cursor <= log.len(),
        cursor < oldest_retained(log.len(), cap),
    ensures
        log.len() - cursor > cap,
        oldest_retained(log.len(), cap) - cursor == log.len() - cap - cursor,
        drained(log, cap, cursor) == log.subrange(
            oldest_retained(log.len(), cap) as int,
            log.len() as int,
        ),
{
    lemma_drain_in_order(log, cap, oldest_retained(log.len(), cap));
}

/// No duplicate delivery across a channel switch: a subscription taken when
/// the log has length `len0` only ever delivers events with publish index at
/// least `len0`, while everything rendered before the switch had an index
/// below `len0` — so no event is rendered twice because of the switch.
pub proof fn lemma_switch_no_duplicate(log: Seq<EventView>, cap: nat, len0: nat, k: int)
    requires
        len0 <= log.len(),
        0 <= k < drained(log, cap, len0).len(),
    ensures
        drained(log, cap, len0)[k] == log[len0 + k]
            || drained(log, cap, len0)[k] == log[oldest_retained(log.len(), cap) + k],
        exists|i: int| len0 <= i < log.len() && drained(log, cap, len0)[k] == log[i],
    decreases log.len() - len0,
{
    if len0 < oldest_retained(log.len(), cap) {
        lemma_drain_in_order(log, cap, oldest_retained(log.len(), cap));
        let o = oldest_retained(log.len(), cap) as int;
        assert(drained(log, cap, len0)[k] == log[o + k]);
        assert(len0 <= o + k < log.len());
    } else {
        lemma_drain_in_order(log, cap, len0);
        assert(drained(log, cap, len0)[k] == log[len0 + k]);
    }
}

} // verus!
