//! Connection supervisor and read-loop decision logic.
//!
//! The supervisor owns at most one upstream session at a time. It opens a
//! session when aggregated interest becomes non-empty, re-establishes it
//! after failures with a fixed retry delay, and terminates only on an
//! explicit shutdown signal. The decisions are pure functions from state and
//! event to next state and action; the task that performs the waiting,
//! connecting and reading acts on the returned actions and feeds the
//! outcomes back in as events.

use vstd::prelude::*;

verus! {

/// Supervisor state. `Degraded` is a session lost or never established,
/// pending its retry delay; `Terminated` is final and reached only through
/// shutdown.
#[derive(Debug, Clone, Copy, PartialEq, Eq, Structural)]
pub enum SessionState {
    Idle,
    Connecting,
    Subscribed,
    Degraded,
    Terminated,
}

/// What the supervisor's task observed since the last step.
#[derive(Debug, Clone, Copy, PartialEq, Eq, Structural)]
pub enum SupervisorEvent {
    /// Aggregated interest was seen non-empty while waiting in `Idle`.
    InterestBecameNonEmpty,
    /// Aggregated interest was still empty at the poll.
    InterestStillEmpty,
    /// The session handshake completed and the subscribe frame was sent.
    ConnectSucceeded,
    /// The control request, stream handshake or subscribe send failed.
    ConnectFailed,
    /// The read loop ended: clean close, read error, end of stream, or a
    /// failed keepalive send. Carries whether interest is still non-empty.
    SessionEnded { interest_nonempty: bool },
    /// The fixed reconnect delay elapsed.
    RetryDelayElapsed,
    /// The shutdown signal was observed.
    ShutdownRequested,
}

/// What the supervisor's task must do next.
#[derive(Debug, Clone, Copy, PartialEq, Eq, Structural)]
pub enum SupervisorAction {
    /// Poll the aggregated interest set again after a short pause.
    WaitForInterest,
    /// Perform the session handshake with the current interest snapshot.
    StartConnect,
    /// Consume the session's frames until it ends or shutdown fires.
    RunSession,
    /// Sleep for the fixed retry delay, watching for shutdown.
    WaitRetryDelay,
    /// Leave the task; resources are released and no session remains.
    Exit,
    /// Nothing: the event does not apply to the state.
    NoAction,
}

/// The supervisor's transition relation, exactly as the lifecycle demands:
/// interest opens a session, failures retry after a fixed delay while
/// interest remains, and shutdown terminates from every state, finally.
pub open spec fn spec_supervisor_step(s: SessionState, e: SupervisorEvent) -> (
    SessionState,
    SupervisorAction,
) {
    match (s, e) {
        (SessionState::Terminated, _) => (SessionState::Terminated, SupervisorAction::Exit),
        (_, SupervisorEvent::ShutdownRequested) => (
            SessionState::Terminated,
            SupervisorAction::Exit,
        ),
        (SessionState::Idle, SupervisorEvent::InterestBecameNonEmpty) => (
            SessionState::Connecting,
            SupervisorAction::StartConnect,
        ),
        (SessionState::Idle, SupervisorEvent::InterestStillEmpty) => (
            SessionState::Idle,
            SupervisorAction::WaitForInterest,
        ),
        (SessionState::Connecting, SupervisorEvent::ConnectSucceeded) => (
            SessionState::Subscribed,
            SupervisorAction::RunSession,
        ),
        (SessionState::Connecting, SupervisorEvent::ConnectFailed) => (
            SessionState::Degraded,
            SupervisorAction::WaitRetryDelay,
        ),
        (SessionState::Subscribed, SupervisorEvent::SessionEnded { interest_nonempty }) => if interest_nonempty {
            (SessionState::Connecting, SupervisorAction::StartConnect)
        } else {
            (SessionState::Idle, SupervisorAction::WaitForInterest)
        },
        (SessionState::Degraded, SupervisorEvent::RetryDelayElapsed) => (
            SessionState::Idle,
            SupervisorAction::WaitForInterest,
        ),
        (_, _) => (s, SupervisorAction::NoAction),
    }
}

/// Advance the supervisor by one observed event.
pub fn supervisor_step(s: SessionState, e: SupervisorEvent) -> (r: (
    SessionState,
    SupervisorAction,
))
    ensures
        r == spec_supervisor_step(s, e),
{
    match (s, e) {
        (SessionState::Terminated, _) => (SessionState::Terminated, SupervisorAction::Exit),
        (_, SupervisorEvent::ShutdownRequested) => (
            SessionState::Terminated,
            SupervisorAction::Exit,
        ),
        (SessionState::Idle, SupervisorEvent::InterestBecameNonEmpty) => (
            SessionState::Connecting,
            SupervisorAction::StartConnect,
        ),
        (SessionState::Idle, SupervisorEvent::InterestStillEmpty) => (
            SessionState::Idle,
            SupervisorAction::WaitForInterest,
        ),
        (SessionState::Connecting, SupervisorEvent::ConnectSucceeded) => (
            SessionState::Subscribed,
            SupervisorAction::RunSession,
        ),
        (SessionState::Connecting, SupervisorEvent::ConnectFailed) => (
            SessionState::Degraded,
            SupervisorAction::WaitRetryDelay,
        ),
        (SessionState::Subscribed, SupervisorEvent::SessionEnded { interest_nonempty }) => if interest_nonempty {
            (SessionState::Connecting, SupervisorAction::StartConnect)
        } else {
            (SessionState::Idle, SupervisorAction::WaitForInterest)
        },
        (SessionState::Degraded, SupervisorEvent::RetryDelayElapsed) => (
            SessionState::Idle,
            SupervisorAction::WaitForInterest,
        ),
        (_, _) => (s, SupervisorAction::NoAction),
    }
}

/// Law: a shutdown request terminates the supervisor from every state, and
/// asks nothing of the task but to exit.
pub proof fn lemma_shutdown_terminates(s: SessionState)
    ensures
        spec_supervisor_step(s, SupervisorEvent::ShutdownRequested).0 is Terminated,
        spec_supervisor_step(s, SupervisorEvent::ShutdownRequested).1 is Exit,
{
}

/// Law: the terminated state is final. Whatever is observed afterwards, the
/// supervisor stays terminated and never asks for a session again — so no
/// frame is routed after shutdown completes.
pub proof fn lemma_terminated_is_final(e: SupervisorEvent)
    ensures
        spec_supervisor_step(SessionState::Terminated, e).0 is Terminated,
        spec_supervisor_step(SessionState::Terminated, e).1 is Exit,
        !(spec_supervisor_step(SessionState::Terminated, e).1 is RunSession),
{
}

/// One inbound observation of the read loop: a frame, a loss, a timer, or
/// the shutdown signal.
#[derive(Debug)]
pub enum FrameEvent {
    /// A text frame with its payload.
    TextFrame(String),
    /// A keepalive probe from the peer, with its payload.
    PingFrame(Vec<u8>),
    /// The peer answered a probe.
    PongFrame,
    /// A binary or other frame kind the protocol does not route.
    BinaryFrame,
    /// The peer closed the stream in an orderly way.
    CloseFrame,
    /// The stream ended without a close frame.
    StreamEnded,
    /// Reading failed.
    ReadFailed,
    /// A keepalive reply or probe could not be sent.
    SendFailed,
    /// No frame arrived within the idle window.
    IdleTimeout,
    /// The shutdown signal was observed.
    Cancelled,
}

/// What the read loop must do with one observation.
#[derive(Debug)]
pub enum SessionAction {
    /// Hand the payload to the router.
    RouteText(String),
    /// Answer the peer's probe with this payload, immediately.
    ReplyPong(Vec<u8>),
    /// Send a probe to the peer to test a silent connection.
    SendProbe,
    /// Leave the read loop; the supervisor will reconnect if interest
    /// remains.
    Reconnect,
    /// Leave the read loop without reconnecting: shutdown is in progress.
    StopSession,
    /// Nothing: the frame kind is ignored.
    Ignore,
}

/// The read loop's decision for each observation: data is routed, a peer
/// probe is answered at once, idleness provokes a probe, every way of
/// losing the connection reconnects, and cancellation stops the session
/// without a reconnect.
pub open spec fn spec_session_step(e: FrameEvent) -> SessionAction {
    match e {
        FrameEvent::TextFrame(payload) => SessionAction::RouteText(payload),
        FrameEvent::PingFrame(payload) => SessionAction::ReplyPong(payload),
        FrameEvent::PongFrame => SessionAction::Ignore,
        FrameEvent::BinaryFrame => SessionAction::Ignore,
        FrameEvent::CloseFrame => SessionAction::Reconnect,
        FrameEvent::StreamEnded => SessionAction::Reconnect,
        FrameEvent::ReadFailed => SessionAction::Reconnect,
        FrameEvent::SendFailed => SessionAction::Reconnect,
        FrameEvent::IdleTimeout => SessionAction::SendProbe,
        FrameEvent::Cancelled => SessionAction::StopSession,
    }
}

/// Decide what the read loop does with one observation.
pub fn session_step(e: FrameEvent) -> (r: SessionAction)
    ensures
        r == spec_session_step(e),
{
    match e {
        FrameEvent::TextFrame(payload) => SessionAction::RouteText(payload),
        FrameEvent::PingFrame(payload) => SessionAction::ReplyPong(payload),
        FrameEvent::PongFrame => SessionAction::Ignore,
        FrameEvent::BinaryFrame => SessionAction::Ignore,
        FrameEvent::CloseFrame => SessionAction::Reconnect,
        FrameEvent::StreamEnded => SessionAction::Reconnect,
        FrameEvent::ReadFailed => SessionAction::Reconnect,
        FrameEvent::SendFailed => SessionAction::Reconnect,
        FrameEvent::IdleTimeout => SessionAction::SendProbe,
        FrameEvent::Cancelled => SessionAction::StopSession,
    }
}

} // verus!
