use commander::bus::RecvOutcome;
use commander::session::{handle_inbound, session_step, InboundAction, InboundFrame, SessionAction};

#[test]
fn message_is_forwarded_verbatim() {
    let action = session_step(RecvOutcome::Received("{\"a\":1}".to_string()));
    match action {
        SessionAction::Forward(m) => assert_eq!(m, "{\"a\":1}"),
        _ => panic!("expected a forward"),
    }
}

#[test]
fn lag_is_noted_and_survived() {
    let action = session_step(RecvOutcome::Lagged(7));
    match action {
        SessionAction::NoteLag(n) => assert_eq!(n, 7),
        _ => panic!("expected a lag note"),
    }
}

#[test]
fn pending_means_wait() {
    assert!(matches!(session_step(RecvOutcome::Pending), SessionAction::Wait));
}

#[test]
fn closed_bus_ends_session() {
    assert!(matches!(session_step(RecvOutcome::Closed), SessionAction::End));
}

#[test]
fn ping_is_answered_with_same_payload() {
    let action = handle_inbound(InboundFrame::Ping(vec![1, 2, 3]));
    match action {
        InboundAction::Pong(p) => assert_eq!(p, vec![1, 2, 3]),
        _ => panic!("expected a pong"),
    }
}

#[test]
fn client_text_is_not_forwarded_to_device() {
    let action = handle_inbound(InboundFrame::Text("hello".to_string()));
    assert!(matches!(action, InboundAction::Ignore));
}

#[test]
fn close_frame_closes_channel() {
    assert!(matches!(handle_inbound(InboundFrame::Close), InboundAction::CloseChannel));
}

#[test]
fn other_frames_are_ignored() {
    assert!(matches!(handle_inbound(InboundFrame::Other), InboundAction::Ignore));
}
