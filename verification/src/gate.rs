//! The action dispatch barrier's state, and the startup drain of the S3
//! macro queue, as steps: the caller holds the lock, waits and polls, and
//! hands each outcome back.

use vstd::prelude::*;
use crate::text::{push_all, push_decimal, decimal};

verus! {

broadcast use vstd::string::group_string_axioms;

/// The most queued macro events a listener discards at startup before it
/// gives up on a queue that keeps refilling.
pub const MAX_STARTUP_MACRO_DRAIN: usize = 64;

/// Whether actions may start, how many run, and the listener epoch events
/// must carry.
#[derive(Debug, Clone, Copy, PartialEq, Eq, Structural)]
pub struct DispatchState {
    pub accepting: bool,
    pub in_flight: u64,
    pub epoch: u64,
}

/// The epoch after a replacement begins: one more, wrapping past the
/// largest value to 1, never 0.
pub open spec fn next_epoch(e: u64) -> u64 {
    if e == u64::MAX {
        1
    } else {
        (e + 1) as u64
    }
}

/// Whether a dispatch may start: the barrier is open, and an event from a
/// listener carries the current epoch.
pub open spec fn entry_allowed(s: DispatchState, event_epoch: Option<u64>) -> bool {
    s.accepting && match event_epoch {
        Some(e) => e == s.epoch,
        None => true,
    }
}

/// The state once a replacement has closed the barrier.
pub open spec fn closed(old: DispatchState, new: DispatchState) -> bool {
    new == DispatchState { accepting: false, in_flight: old.in_flight, epoch: next_epoch(old.epoch) }
}

/// The state once a replacement has reopened the barrier.
pub open spec fn reopened(old: DispatchState, new: DispatchState) -> bool {
    new == DispatchState { accepting: true, ..old }
}

/// The state after a try to start a dispatch.
pub open spec fn entered(old: DispatchState, event_epoch: Option<u64>, new: DispatchState, ok: bool) -> bool {
    &&& ok == entry_allowed(old, event_epoch)
    &&& ok ==> new == DispatchState { in_flight: (old.in_flight + 1) as u64, ..old }
    &&& !ok ==> new == old
}

/// The state after a running dispatch ends.
pub open spec fn released(old: DispatchState, new: DispatchState) -> bool {
    new == DispatchState {
        in_flight: if old.in_flight > 0 {
            (old.in_flight - 1) as u64
        } else {
            0
        },
        ..old
    }
}

impl DispatchState {
    /// An open barrier with nothing running, at epoch 1.
    pub fn new() -> (s: Self)
        ensures
            s == (DispatchState { accepting: true, in_flight: 0, epoch: 1 }),
    {
        DispatchState { accepting: true, in_flight: 0, epoch: 1 }
    }

    /// Starts a dispatch if the barrier allows it. An event from a listener
    /// carries the epoch its transport began in; an older one never runs,
    /// even once the barrier has reopened. A refused dispatch is dropped, not
    /// queued.
    pub fn try_enter_epoch(&mut self, event_epoch: Option<u64>) -> (ok: bool)
        requires
            old(self).in_flight < u64::MAX,
        ensures
            entered(*old(self), event_epoch, *final(self), ok),
    {
        if !self.accepting {
            return false;
        }
        match event_epoch {
            Some(e) => {
                if e != self.epoch {
                    return false;
                }
            },
            None => {},
        }
        self.in_flight = self.in_flight + 1;
        true
    }

    /// Starts a dispatch from the UI, which carries no epoch.
    pub fn try_enter(&mut self) -> (ok: bool)
        requires
            old(self).in_flight < u64::MAX,
        ensures
            entered(*old(self), None, *final(self), ok),
    {
        self.try_enter_epoch(None)
    }

    /// A replacement begins: the barrier closes and the epoch moves on, so
    /// events read before it can never run.
    pub fn close_for_replacement(&mut self)
        ensures
            closed(*old(self), *final(self)),
    {
        self.accepting = false;
        self.epoch = self.epoch.wrapping_add(1);
        if self.epoch < 1 {
            self.epoch = 1;
        }
    }

    /// Whether no dispatch is running, so a replacement may go on.
    pub fn is_idle(&self) -> (b: bool)
        ensures
            b == (self.in_flight == 0),
    {
        self.in_flight == 0
    }

    /// A running dispatch ends; true when none is left running.
    pub fn release(&mut self) -> (idle: bool)
        ensures
            released(*old(self), *final(self)),
            idle == (final(self).in_flight == 0),
    {
        self.in_flight = self.in_flight.saturating_sub(1);
        self.in_flight == 0
    }

    /// The replacement is over: the barrier opens again.
    pub fn reopen(&mut self)
        ensures
            reopened(*old(self), *final(self)),
    {
        self.accepting = true;
    }

    /// Whether dispatches may start.
    pub fn is_accepting(&self) -> (b: bool)
        ensures
            b == self.accepting,
    {
        self.accepting
    }

    /// The epoch listener events must carry.
    pub fn current_epoch(&self) -> (e: u64)
        ensures
            e == self.epoch,
    {
        self.epoch
    }
}

impl Default for DispatchState {
    fn default() -> (s: Self)
        ensures
            s == (DispatchState { accepting: true, in_flight: 0, epoch: 1 }),
    {
        DispatchState::new()
    }
}

/// A closed barrier starts nothing, whatever epoch an event carries.
pub proof fn law_closed_gate_drops(s: DispatchState, event_epoch: Option<u64>)
    requires
        !s.accepting,
    ensures
        !entry_allowed(s, event_epoch),
{
}

/// An event read before a replacement stays stale after the barrier reopens,
/// while events of the new epoch run.
pub proof fn law_stale_epoch_stays_stale(s0: DispatchState, s1: DispatchState, s2: DispatchState)
    requires
        closed(s0, s1),
        reopened(s1, s2),
    ensures
        s2.epoch != s0.epoch,
        s2.epoch >= 1,
        !entry_allowed(s2, Some(s0.epoch)),
        entry_allowed(s2, Some(s2.epoch)),
{
}

/// Whatever the count of running dispatches: while a replacement holds the
/// barrier every attempt is refused and changes nothing; once it has
/// reopened, an event of the epoch before the replacement is refused and
/// changes nothing, while an event of the new epoch starts.
pub proof fn law_replacement_refuses_stale_events(
    s0: DispatchState,
    s1: DispatchState,
    s2: DispatchState,
    during: Option<u64>,
    d: DispatchState,
    d_ok: bool,
    stale: DispatchState,
    stale_ok: bool,
    fresh: DispatchState,
    fresh_ok: bool,
)
    requires
        closed(s0, s1),
        reopened(s1, s2),
        entered(s1, during, d, d_ok),
        entered(s2, Some(s0.epoch), stale, stale_ok),
        entered(s2, Some(s2.epoch), fresh, fresh_ok),
    ensures
        !d_ok,
        d == s1,
        !stale_ok,
        stale == s2,
        fresh_ok,
        fresh.in_flight == (s2.in_flight + 1) as u64,
{
}

/// Starting a dispatch and ending it leaves the barrier as it was.
pub proof fn law_enter_release_roundtrip(s0: DispatchState, e: Option<u64>, s1: DispatchState, s2: DispatchState)
    requires
        s0.in_flight < u64::MAX,
        entered(s0, e, s1, true),
        released(s1, s2),
    ensures
        s2 == s0,
{
}

/// What the drain does after one poll.
#[derive(Debug, Clone, PartialEq, Eq)]
pub enum DrainStep {
    /// An event was discarded; poll again with this many drained.
    Continue(usize),
    /// The queue is empty after this many events.
    Drained(usize),
    /// The poll failed, or the queue would not empty.
    Failed(String),
}

/// The message when the queue does not empty.
pub open spec fn drain_overflow_message() -> Seq<char> {
    "S3 macro queue did not drain after "@ + decimal(MAX_STARTUP_MACRO_DRAIN as nat)
        + " events; listener stopped"@
}

/// One step of emptying the S3 firmware's macro queue before a listener
/// epoch may dispatch: `drained` events are gone, and the latest poll said
/// whether another was queued.
pub fn drain_step(drained: usize, polled: Result<bool, String>) -> (r: DrainStep)
    requires
        drained < MAX_STARTUP_MACRO_DRAIN,
    ensures
        polled matches Err(e) ==> r == DrainStep::Failed(e),
        polled == Ok::<bool, String>(false) ==> r == DrainStep::Drained(drained),
        polled == Ok::<bool, String>(true) && drained + 1 < MAX_STARTUP_MACRO_DRAIN ==> r == DrainStep::Continue(
            (drained + 1) as usize,
        ),
        polled == Ok::<bool, String>(true) && drained + 1 == MAX_STARTUP_MACRO_DRAIN ==> (r matches DrainStep::Failed(e)
            && e@ == drain_overflow_message()),
{
    match polled {
        Err(e) => DrainStep::Failed(e),
        Ok(false) => DrainStep::Drained(drained),
        Ok(true) => {
            if drained + 1 < MAX_STARTUP_MACRO_DRAIN {
                DrainStep::Continue(drained + 1)
            } else {
                let mut m = "S3 macro queue did not drain after ".to_string();
                push_decimal(&mut m, MAX_STARTUP_MACRO_DRAIN as u64);
                push_all(&mut m, " events; listener stopped");
                DrainStep::Failed(m)
            }
        },
    }
}

} // verus!
