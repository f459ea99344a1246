//! Lifecycle of the TURN listener as a state machine.
//!
//! The listener itself (socket binding, the serving task, the shutdown
//! channel) runs outside the crate; that loop feeds every observed event
//! into [`supervisor_step`] and performs the action the step prescribes.
//! The machine moves `Constructed → Bound → Serving → Stopping → Stopped`;
//! the only external transitions are a start request and a stop request,
//! a stop after `Stopped` is a no-op, and a bind failure or a listener
//! error is fatal.

use vstd::prelude::*;

verus! {

/// Where the listener stands.
#[derive(Clone, Copy, PartialEq, Eq, Structural, Debug)]
pub enum SupervisorState {
    Constructed,
    Bound,
    Serving,
    Stopping,
    Stopped,
}

/// What the outside loop observed.
#[derive(Clone, Copy, PartialEq, Eq, Structural, Debug)]
pub enum SupervisorEvent {
    StartRequested,
    BindSucceeded,
    BindFailed,
    ListenerError,
    StopRequested,
    Halted,
}

/// What the outside loop must do next.
#[derive(Clone, Copy, PartialEq, Eq, Structural, Debug)]
pub enum SupervisorAction {
    /// Bind the listening socket.
    Bind,
    /// Run the TURN engine on the bound socket.
    Serve,
    /// Cancel the serving task and sever in-flight allocations.
    CancelListener,
    /// Report a fatal error to the supervising process.
    FailFatal,
    /// Nothing to do.
    Idle,
}

/// The transition table of § the lifecycle above.
pub open spec fn spec_supervisor_step(s: SupervisorState, e: SupervisorEvent) -> (
    SupervisorState,
    SupervisorAction,
) {
    match (s, e) {
        (SupervisorState::Constructed, SupervisorEvent::StartRequested) => (
            SupervisorState::Bound,
            SupervisorAction::Bind,
        ),
        (SupervisorState::Bound, SupervisorEvent::BindSucceeded) => (
            SupervisorState::Serving,
            SupervisorAction::Serve,
        ),
        (SupervisorState::Bound, SupervisorEvent::BindFailed) => (
            SupervisorState::Stopped,
            SupervisorAction::FailFatal,
        ),
        (SupervisorState::Serving, SupervisorEvent::ListenerError) => (
            SupervisorState::Stopped,
            SupervisorAction::FailFatal,
        ),
        (SupervisorState::Stopped, SupervisorEvent::StopRequested) => (
            SupervisorState::Stopped,
            SupervisorAction::Idle,
        ),
        (_, SupervisorEvent::StopRequested) => (
            SupervisorState::Stopping,
            SupervisorAction::CancelListener,
        ),
        (SupervisorState::Stopping, SupervisorEvent::Halted) => (
            SupervisorState::Stopped,
            SupervisorAction::Idle,
        ),
        _ => (s, SupervisorAction::Idle),
    }
}

/// One step of the lifecycle.
pub fn supervisor_step(s: SupervisorState, e: SupervisorEvent) -> (r: (
    SupervisorState,
    SupervisorAction,
))
    ensures
        r == spec_supervisor_step(s, e),
{
    match (s, e) {
        (SupervisorState::Constructed, SupervisorEvent::StartRequested) => (
            SupervisorState::Bound,
            SupervisorAction::Bind,
        ),
        (SupervisorState::Bound, SupervisorEvent::BindSucceeded) => (
            SupervisorState::Serving,
            SupervisorAction::Serve,
        ),
        (SupervisorState::Bound, SupervisorEvent::BindFailed) => (
            SupervisorState::Stopped,
            SupervisorAction::FailFatal,
        ),
        (SupervisorState::Serving, SupervisorEvent::ListenerError) => (
            SupervisorState::Stopped,
            SupervisorAction::FailFatal,
        ),
        (SupervisorState::Stopped, SupervisorEvent::StopRequested) => (
            SupervisorState::Stopped,
            SupervisorAction::Idle,
        ),
        (_, SupervisorEvent::StopRequested) => (
            SupervisorState::Stopping,
            SupervisorAction::CancelListener,
        ),
        (SupervisorState::Stopping, SupervisorEvent::Halted) => (
            SupervisorState::Stopped,
            SupervisorAction::Idle,
        ),
        _ => (s, SupervisorAction::Idle),
    }
}

/// A stop after `Stopped` is a no-op, and a second stop request never
/// undoes a stop: from `Stopping` or `Stopped`, a stop request leaves the
/// machine stopping or stopped and never restarts anything.
pub proof fn lemma_stop_idempotent(s: SupervisorState)
    ensures
        spec_supervisor_step(SupervisorState::Stopped, SupervisorEvent::StopRequested) == (
            SupervisorState::Stopped,
            SupervisorAction::Idle,
        ),
        (s is Stopping || s is Stopped) ==> {
            let (s2, a) = spec_supervisor_step(s, SupervisorEvent::StopRequested);
            (s2 is Stopping || s2 is Stopped) && a != SupervisorAction::Bind && a
                != SupervisorAction::Serve
        },
{
}

} // verus!
