//! The per-connection session loop: registration handshake, liveness, and
//! every termination path.

use canvas_collab::canvas::socket_handler::{
    SessionAction, SessionInput, SessionLoop, CLIENT_TIMEOUT_MS,
};

fn s(x: &str) -> String {
    x.to_string()
}

#[test]
fn ping_answered_and_resets_clock() {
    let mut loop_state = SessionLoop::new(100);
    let actions = loop_state.session_step(SessionInput::Ping, 7000);
    assert_eq!(actions, vec![SessionAction::SendPong]);
    assert_eq!(loop_state.last_heartbeat, 7000);

    let actions = loop_state.session_step(SessionInput::Pong, 9000);
    assert!(actions.is_empty());
    assert_eq!(loop_state.last_heartbeat, 9000);
}

#[test]
fn registration_handshake() {
    let mut loop_state = SessionLoop::new(0);
    let actions = loop_state.session_step(
        SessionInput::Text { text: s("{\"session\":\"s1\"}"), registration: Some(s("s1")) },
        10,
    );
    assert_eq!(actions, vec![SessionAction::Connect { session_id: s("s1") }]);
    assert_eq!(loop_state.session_id, Some(s("s1")));

    // After registration, frames are forwarded verbatim.
    let actions = loop_state.session_step(
        SessionInput::Text { text: s("payload"), registration: None },
        20,
    );
    assert_eq!(actions, vec![SessionAction::Submit { text: s("payload") }]);
}

#[test]
fn first_frame_must_register() {
    let mut loop_state = SessionLoop::new(0);
    let actions = loop_state.session_step(
        SessionInput::Text { text: s("not a handshake"), registration: None },
        10,
    );
    // A protocol violation closes without a Disconnect: nothing registered.
    assert_eq!(actions, vec![SessionAction::CloseConnection]);
    assert!(loop_state.closed);
}

#[test]
fn outbound_messages_go_to_client() {
    let mut loop_state = SessionLoop::new(0);
    let actions = loop_state.session_step(SessionInput::Outbound { message: s("evt") }, 5);
    assert_eq!(actions, vec![SessionAction::SendText { message: s("evt") }]);
}

#[test]
fn close_frame_disconnects_registered_session() {
    let mut loop_state = SessionLoop::new(0);
    loop_state.session_step(
        SessionInput::Text { text: s("{\"session\":\"s1\"}"), registration: Some(s("s1")) },
        1,
    );
    let actions = loop_state.session_step(SessionInput::Close, 2);
    assert_eq!(
        actions,
        vec![
            SessionAction::Disconnect { session_id: s("s1") },
            SessionAction::CloseConnection,
        ]
    );
    assert!(loop_state.closed);
}

#[test]
fn live_tick_pings() {
    let mut loop_state = SessionLoop::new(1000);
    let actions = loop_state.session_step(SessionInput::Tick, 1000 + CLIENT_TIMEOUT_MS);
    assert_eq!(actions, vec![SessionAction::SendPing]);
    assert!(!loop_state.closed);
}

#[test]
fn timeout_disconnects_like_close() {
    // A session that sends no ping or pong for longer than the timeout is
    // force-disconnected with the same actions as an explicit close.
    let mut timed_out = SessionLoop::new(1000);
    timed_out.session_step(
        SessionInput::Text { text: s("{\"session\":\"s1\"}"), registration: Some(s("s1")) },
        1000,
    );
    let mut closed = SessionLoop::new(1000);
    closed.session_step(
        SessionInput::Text { text: s("{\"session\":\"s1\"}"), registration: Some(s("s1")) },
        1000,
    );

    let via_timeout = timed_out.session_step(SessionInput::Tick, 1000 + CLIENT_TIMEOUT_MS + 1);
    let via_close = closed.session_step(SessionInput::Close, 1000 + CLIENT_TIMEOUT_MS + 1);
    assert_eq!(via_timeout, via_close);
    assert_eq!(
        via_timeout,
        vec![
            SessionAction::Disconnect { session_id: s("s1") },
            SessionAction::CloseConnection,
        ]
    );
    assert!(timed_out.closed);
}

#[test]
fn unregistered_timeout_closes_without_disconnect() {
    let mut loop_state = SessionLoop::new(0);
    let actions = loop_state.session_step(SessionInput::Tick, CLIENT_TIMEOUT_MS + 1);
    assert_eq!(actions, vec![SessionAction::CloseConnection]);
}

#[test]
fn stream_end_and_error_terminate() {
    let mut ended = SessionLoop::new(0);
    ended.session_step(
        SessionInput::Text { text: s("{\"session\":\"a\"}"), registration: Some(s("a")) },
        1,
    );
    let actions = ended.session_step(SessionInput::StreamEnd, 2);
    assert_eq!(
        actions,
        vec![SessionAction::Disconnect { session_id: s("a") }, SessionAction::CloseConnection]
    );

    let mut errored = SessionLoop::new(0);
    let actions = errored.session_step(SessionInput::StreamError, 2);
    assert_eq!(actions, vec![SessionAction::CloseConnection]);
}

#[test]
fn binary_frames_are_ignored() {
    let mut loop_state = SessionLoop::new(0);
    let actions = loop_state.session_step(SessionInput::Binary, 5);
    assert!(actions.is_empty());
    assert!(!loop_state.closed);
}
