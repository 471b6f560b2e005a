//! Decisions of the in-game side that are not the exception handler: when the
//! DLL starts its work, and how a client's relay thread goes on after a frame.
use vstd::prelude::*;

verus! {

/// `fdwReason` value with which Windows calls `DllMain` when the DLL is
/// loaded into a process (`DLL_PROCESS_ATTACH`).
pub const DLL_PROCESS_ATTACH_REASON: u32 = 1;

/// Whether `DllMain`, called with `reason`, starts the synchronizer.
pub fn starts_on(reason: u32) -> (start: bool)
    ensures
        start == (reason == DLL_PROCESS_ATTACH_REASON),
{
    reason == DLL_PROCESS_ATTACH_REASON
}

/// How a relay thread goes on after passing one frame to its client.
#[derive(Clone, Copy, Debug, PartialEq, Eq, Structural)]
pub enum RelayStep {
    /// Report the frame as handled and wait for the next one.
    SignalAndContinue,
    /// Stop listening for frames, report the frame as handled, and end the thread.
    CloseAndSignal,
}

/// After notifying the client of a frame and reading its acknowledgement,
/// `exchanged` tells whether both went through. Either way the frame is
/// reported handled, so the game never waits on a client that is gone; a
/// failed exchange ends the relay.
pub fn relay_after_exchange(exchanged: bool) -> (step: RelayStep)
    ensures
        step == (if exchanged { RelayStep::SignalAndContinue } else { RelayStep::CloseAndSignal }),
{
    if exchanged {
        RelayStep::SignalAndContinue
    } else {
        RelayStep::CloseAndSignal
    }
}

} // verus!
