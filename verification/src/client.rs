//! The client side of the frame protocol: how connecting to the game's pipe
//! is retried, and when a frame's acknowledgement is owed.
use vstd::prelude::*;

verus! {

/// How many times a connection refused with "not found" is retried before
/// falling back to starting the helper process.
pub const MAX_CONNECT_RETRIES: u32 = 3;

/// Pause before each retry, in milliseconds.
pub const RETRY_PAUSE_MILLIS: u64 = 100;

/// What to do after a failed connection attempt.
#[derive(Clone, Copy, Debug, PartialEq, Eq, Structural)]
pub enum ConnectStep {
    /// Sleep this many milliseconds, then try to connect again.
    RetryAfter(u64),
    /// Give up on connecting directly; start the helper process instead.
    Fallback,
}

/// Counts the retries spent on connecting to the pipe.
#[derive(Clone, Copy, Debug, PartialEq, Eq, Structural)]
pub struct ConnectRetry {
    /// Retries granted so far.
    pub retries: u32,
}

/// The next policy state and step after a failure; `not_found` tells whether
/// the pipe did not exist yet (it is created asynchronously by the game side).
pub open spec fn after_failure_spec(p: ConnectRetry, not_found: bool) -> (ConnectRetry, ConnectStep) {
    if not_found && p.retries < MAX_CONNECT_RETRIES {
        (ConnectRetry { retries: (p.retries + 1) as u32 }, ConnectStep::RetryAfter(RETRY_PAUSE_MILLIS))
    } else {
        (p, ConnectStep::Fallback)
    }
}

/// Runs the policy from `p` over a series of failures; returns the final
/// state and how many retries were granted. A fallback ends the series.
pub open spec fn run_failures(p: ConnectRetry, failures: Seq<bool>) -> (ConnectRetry, nat)
    decreases failures.len(),
{
    if failures.len() == 0 {
        (p, 0)
    } else {
        let (q, step) = after_failure_spec(p, failures[0]);
        match step {
            ConnectStep::RetryAfter(_) => {
                let (r, n) = run_failures(q, failures.drop_first());
                (r, n + 1)
            },
            ConnectStep::Fallback => (q, 0),
        }
    }
}

impl ConnectRetry {
    /// A policy that has granted no retry yet.
    pub fn new() -> (p: ConnectRetry)
        ensures
            p.retries == 0,
    {
        ConnectRetry { retries: 0 }
    }

    /// Decides what follows a failed attempt: retry after a pause while the
    /// pipe is merely not there yet and retries remain, else fall back.
    pub fn after_failure(&mut self, not_found: bool) -> (step: ConnectStep)
        ensures
            (*final(self), step) == after_failure_spec(*old(self), not_found),
    {
        if not_found && self.retries < MAX_CONNECT_RETRIES {
            self.retries = self.retries + 1;
            ConnectStep::RetryAfter(RETRY_PAUSE_MILLIS)
        } else {
            ConnectStep::Fallback
        }
    }
}

/// Starting from a fresh policy, no series of failures is granted more than
/// `MAX_CONNECT_RETRIES` retries, so at most that many plus one direct
/// attempts precede the fallback.
pub proof fn lemma_retry_budget(failures: Seq<bool>)
    ensures
        run_failures(ConnectRetry { retries: 0 }, failures).1 <= MAX_CONNECT_RETRIES,
{
    lemma_retries_counted(ConnectRetry { retries: 0 }, failures);
}

/// Retries granted from `p` never push the count past the budget.
pub proof fn lemma_retries_counted(p: ConnectRetry, failures: Seq<bool>)
    requires
        p.retries <= MAX_CONNECT_RETRIES,
    ensures
        p.retries + run_failures(p, failures).1 <= MAX_CONNECT_RETRIES,
        run_failures(p, failures).0.retries == p.retries + run_failures(p, failures).1,
    decreases failures.len(),
{
    if failures.len() > 0 {
        let (q, step) = after_failure_spec(p, failures[0]);
        if step is RetryAfter {
            lemma_retries_counted(q, failures.drop_first());
        }
    }
}

/// A failure other than "not found" always leads straight to the fallback.
pub proof fn lemma_other_errors_fall_back(p: ConnectRetry)
    ensures
        after_failure_spec(p, false).1 == ConnectStep::Fallback,
        after_failure_spec(p, false).0 == p,
{
}

/// Whether a frame's acknowledgement is still owed to the game.
#[derive(Clone, Copy, Debug, PartialEq, Eq, Structural)]
pub struct FrameGate {
    /// No frame has been waited for yet.
    pub first_frame: bool,
}

/// The acknowledgement decision and next gate when a frame is awaited.
pub open spec fn begin_frame_spec(g: FrameGate) -> (bool, FrameGate) {
    (!g.first_frame, FrameGate { first_frame: false })
}

impl FrameGate {
    /// A gate before the first frame.
    pub fn new() -> (g: FrameGate)
        ensures
            g.first_frame,
    {
        FrameGate { first_frame: true }
    }

    /// Called before waiting for a frame: `true` when the previous frame must
    /// first be acknowledged to the game (every time but the first).
    pub fn begin_frame(&mut self) -> (acknowledge: bool)
        ensures
            (acknowledge, *final(self)) == begin_frame_spec(*old(self)),
    {
        let acknowledge = !self.first_frame;
        self.first_frame = false;
        acknowledge
    }
}

/// The first frame awaited is not acknowledged; every later one acknowledges
/// the frame before it.
pub proof fn lemma_acknowledge_all_but_first(g: FrameGate)
    ensures
        g.first_frame ==> !begin_frame_spec(g).0,
        begin_frame_spec(begin_frame_spec(g).1).0,
        begin_frame_spec(begin_frame_spec(g).1).1 == begin_frame_spec(g).1,
{
}

} // verus!
