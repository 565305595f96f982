use rust_tradier::{
    session_step, supervisor_step, FrameEvent, SessionAction, SessionState, SupervisorAction,
    SupervisorEvent,
};

#[test]
fn test_supervisor_lifecycle() {
    // Idle waits while interest is empty, connects once interest appears.
    assert_eq!(
        supervisor_step(SessionState::Idle, SupervisorEvent::InterestStillEmpty),
        (SessionState::Idle, SupervisorAction::WaitForInterest)
    );
    assert_eq!(
        supervisor_step(SessionState::Idle, SupervisorEvent::InterestBecameNonEmpty),
        (SessionState::Connecting, SupervisorAction::StartConnect)
    );
    // A successful handshake runs the session; a failure degrades and waits.
    assert_eq!(
        supervisor_step(SessionState::Connecting, SupervisorEvent::ConnectSucceeded),
        (SessionState::Subscribed, SupervisorAction::RunSession)
    );
    assert_eq!(
        supervisor_step(SessionState::Connecting, SupervisorEvent::ConnectFailed),
        (SessionState::Degraded, SupervisorAction::WaitRetryDelay)
    );
    // A lost session reconnects while interest remains, else goes idle.
    assert_eq!(
        supervisor_step(
            SessionState::Subscribed,
            SupervisorEvent::SessionEnded {
                interest_nonempty: true
            }
        ),
        (SessionState::Connecting, SupervisorAction::StartConnect)
    );
    assert_eq!(
        supervisor_step(
            SessionState::Subscribed,
            SupervisorEvent::SessionEnded {
                interest_nonempty: false
            }
        ),
        (SessionState::Idle, SupervisorAction::WaitForInterest)
    );
    // The retry delay returns to idle, where interest is polled again.
    assert_eq!(
        supervisor_step(SessionState::Degraded, SupervisorEvent::RetryDelayElapsed),
        (SessionState::Idle, SupervisorAction::WaitForInterest)
    );
}

#[test]
fn test_shutdown_terminates_from_every_state() {
    for s in [
        SessionState::Idle,
        SessionState::Connecting,
        SessionState::Subscribed,
        SessionState::Degraded,
        SessionState::Terminated,
    ] {
        assert_eq!(
            supervisor_step(s, SupervisorEvent::ShutdownRequested),
            (SessionState::Terminated, SupervisorAction::Exit)
        );
    }
}

#[test]
fn test_terminated_is_final() {
    // Once terminated, no event revives the supervisor and no session is
    // ever asked for again: nothing can be delivered after shutdown.
    let events = [
        SupervisorEvent::InterestBecameNonEmpty,
        SupervisorEvent::InterestStillEmpty,
        SupervisorEvent::ConnectSucceeded,
        SupervisorEvent::ConnectFailed,
        SupervisorEvent::SessionEnded {
            interest_nonempty: true,
        },
        SupervisorEvent::RetryDelayElapsed,
        SupervisorEvent::ShutdownRequested,
    ];
    for e in events {
        let (next, action) = supervisor_step(SessionState::Terminated, e);
        assert_eq!(next, SessionState::Terminated);
        assert_eq!(action, SupervisorAction::Exit);
        assert_ne!(action, SupervisorAction::RunSession);
    }
}

#[test]
fn test_session_step_decisions() {
    assert!(matches!(
        session_step(FrameEvent::TextFrame("{\"symbol\":\"SPY\"}".to_string())),
        SessionAction::RouteText(p) if p == "{\"symbol\":\"SPY\"}"
    ));
    assert!(matches!(
        session_step(FrameEvent::PingFrame(vec![1, 2, 3])),
        SessionAction::ReplyPong(p) if p == vec![1, 2, 3]
    ));
    assert!(matches!(
        session_step(FrameEvent::PongFrame),
        SessionAction::Ignore
    ));
    assert!(matches!(
        session_step(FrameEvent::BinaryFrame),
        SessionAction::Ignore
    ));
    assert!(matches!(
        session_step(FrameEvent::CloseFrame),
        SessionAction::Reconnect
    ));
    assert!(matches!(
        session_step(FrameEvent::StreamEnded),
        SessionAction::Reconnect
    ));
    assert!(matches!(
        session_step(FrameEvent::ReadFailed),
        SessionAction::Reconnect
    ));
    assert!(matches!(
        session_step(FrameEvent::SendFailed),
        SessionAction::Reconnect
    ));
    assert!(matches!(
        session_step(FrameEvent::IdleTimeout),
        SessionAction::SendProbe
    ));
    assert!(matches!(
        session_step(FrameEvent::Cancelled),
        SessionAction::StopSession
    ));
}
