//! Decisions of the telemetry channel's receive loop, and the coalescing
//! wake signal the receiving worker uses to ask the consumer to redraw.

use vstd::prelude::*;
use crate::frame::{Frame, spec_parse_frame, parse_frame};

verus! {

/// What the receive loop does after one bounded-wait read.
pub enum PollAction {
    /// A well-formed frame arrived: hand it to the split engine, in order.
    Deliver(Frame),
    /// A datagram arrived but is not a frame: drop it without interpreting it.
    DropMalformed,
    /// The wait timed out: the payload is not responding, so run one
    /// locator sweep and injection attempt, then resume reading.
    StartInjection,
}

/// Decides the receive loop's next action. A timeout yields exactly one
/// injection attempt; a datagram never does.
pub fn on_poll(datagram: Option<Vec<u8>>) -> (r: PollAction)
    ensures
        match datagram {
            None => r is StartInjection,
            Some(b) => match spec_parse_frame(b@) {
                Some(f) => r matches PollAction::Deliver(fr) && fr@ == f && fr.wf(),
                None => r is DropMalformed,
            },
        },
{
    match datagram {
        None => PollAction::StartInjection,
        Some(b) => match parse_frame(&b) {
            Some(f) => PollAction::Deliver(f),
            None => PollAction::DropMalformed,
        },
    }
}

/// A coalescing wake signal: the worker requests a redraw after enqueueing
/// frames, and repeated requests collapse into one until the consumer
/// acknowledges the wake.
pub struct RepaintScheduler {
    /// Whether a wake has been requested and not yet acknowledged.
    pub pending: bool,
}

impl RepaintScheduler {
    /// A scheduler with no wake outstanding.
    pub fn new() -> (r: RepaintScheduler)
        ensures
            !r.pending,
    {
        RepaintScheduler { pending: false }
    }

    /// Requests a redraw. Returns true exactly when a new wake signal must
    /// be sent; a request while one is outstanding is coalesced.
    pub fn request_repaint(&mut self) -> (signal: bool)
        ensures
            final(self).pending,
            signal == !old(self).pending,
    {
        let signal = !self.pending;
        self.pending = true;
        signal
    }

    /// The consumer acknowledges the wake; the next request signals again.
    pub fn acknowledge(&mut self)
        ensures
            !final(self).pending,
    {
        self.pending = false;
    }
}

} // verus!
