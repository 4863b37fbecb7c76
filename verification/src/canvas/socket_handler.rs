//! The per-connection session loop, as a state machine.
//!
//! One loop owns one network connection.  It multiplexes inbound client
//! frames, messages pushed by the coordinator, and a heartbeat timer.  The
//! decisions live here, verified: [`SessionLoop::session_step`] maps the
//! loop's state and one input to the next state and the actions to carry
//! out (answer a pong, forward a frame to the coordinator, close the
//! connection).  The surrounding process performs the I/O and hands the
//! inputs back, and on every termination path issues the `Disconnect` the
//! final `Close` action pairs with.

use vstd::prelude::*;

use crate::canvas::server::{Msg, WSSessionId};

verus! {

/// How often heartbeat pings are sent, in milliseconds.
pub const HEARTBEAT_INTERVAL_MS: u64 = 5000;

/// How long without a liveness signal, after which the connection is
/// force-closed, in milliseconds.
pub const CLIENT_TIMEOUT_MS: u64 = 10000;

/// One thing the session loop woke up for.
pub enum SessionInput {
    /// A ping control frame from the client.
    Ping,
    /// A pong control frame from the client.
    Pong,
    /// A text frame from the client.  `registration` carries the
    /// client-chosen session id where the frame decodes as the
    /// session-registration handshake; it is only read while the session
    /// is not yet registered.
    Text { text: String, registration: Option<WSSessionId> },
    /// A binary frame from the client: unexpected, ignored.
    Binary,
    /// A close frame from the client.
    Close,
    /// The client stream reported an error.
    StreamError,
    /// The client stream ended.
    StreamEnd,
    /// A message from the coordinator on this session's outbound queue.
    Outbound { message: Msg },
    /// The heartbeat timer ticked.
    Tick,
}

/// One thing the surrounding process must do, in order.
#[derive(Debug, PartialEq)]
pub enum SessionAction {
    /// Answer the client's ping with a pong.
    SendPong,
    /// Register with the coordinator under this session id (a `Connect`
    /// command).
    Connect { session_id: WSSessionId },
    /// Forward the frame verbatim to the coordinator (a `HandleMessage`
    /// command).
    Submit { text: String },
    /// Send this text frame to the client.
    SendText { message: Msg },
    /// Send a heartbeat ping to the client.
    SendPing,
    /// Issue a `Disconnect` command for the registered session.
    Disconnect { session_id: WSSessionId },
    /// Close the connection and end the loop.
    CloseConnection,
}

/// The mathematical value of a [`SessionAction`].
pub enum SessionActionView {
    SendPong,
    Connect { session_id: Seq<char> },
    Submit { text: Seq<char> },
    SendText { message: Seq<char> },
    SendPing,
    Disconnect { session_id: Seq<char> },
    CloseConnection,
}

impl View for SessionAction {
    type V = SessionActionView;

    open spec fn view(&self) -> SessionActionView {
        match self {
            SessionAction::SendPong => SessionActionView::SendPong,
            SessionAction::Connect { session_id } => SessionActionView::Connect {
                session_id: session_id@,
            },
            SessionAction::Submit { text } => SessionActionView::Submit { text: text@ },
            SessionAction::SendText { message } => SessionActionView::SendText {
                message: message@,
            },
            SessionAction::SendPing => SessionActionView::SendPing,
            SessionAction::Disconnect { session_id } => SessionActionView::Disconnect {
                session_id: session_id@,
            },
            SessionAction::CloseConnection => SessionActionView::CloseConnection,
        }
    }
}

/// The mathematical value of a list of actions.
pub open spec fn actions_view(actions: Seq<SessionAction>) -> Seq<SessionActionView> {
    actions.map_values(|a: SessionAction| a@)
}

/// The state of one session loop: whether the registration handshake has
/// happened (and under which session id), when the last liveness signal
/// arrived, and whether the loop has ended.
pub struct SessionLoop {
    pub session_id: Option<WSSessionId>,
    pub last_heartbeat: u64,
    pub closed: bool,
}

/// The mathematical value of a [`SessionLoop`].
pub struct SessionLoopView {
    pub session_id: Option<Seq<char>>,
    pub last_heartbeat: u64,
    pub closed: bool,
}

impl View for SessionLoop {
    type V = SessionLoopView;

    open spec fn view(&self) -> SessionLoopView {
        SessionLoopView {
            session_id: match self.session_id {
                Some(ref s) => Some(s@),
                None => None,
            },
            last_heartbeat: self.last_heartbeat,
            closed: self.closed,
        }
    }
}

/// Whether the liveness clock has run out at time `now`: more than the
/// client timeout has passed since the last ping or pong.  A clock read
/// below the last signal counts as live.
pub open spec fn spec_timed_out(s: SessionLoopView, now: u64) -> bool {
    now >= s.last_heartbeat && now - s.last_heartbeat > CLIENT_TIMEOUT_MS
}

/// The actions of every termination path: exactly one `Disconnect` — and
/// only where the registration handshake had completed — followed by the
/// close of the connection.
pub open spec fn termination_actions(s: SessionLoopView) -> Seq<SessionActionView> {
    match s.session_id {
        Some(sid) => seq![
            SessionActionView::Disconnect { session_id: sid },
            SessionActionView::CloseConnection,
        ],
        None => seq![SessionActionView::CloseConnection],
    }
}

/// The closed state a terminating step leaves behind.
pub open spec fn closed_state(s: SessionLoopView) -> SessionLoopView {
    SessionLoopView { closed: true, ..s }
}

/// The session loop's transition: the next state and the actions for one
/// input at clock value `now` (milliseconds).
///
/// A ping is answered and resets the liveness clock; a pong only resets
/// it.  Before registration, the only acceptable text frame is the
/// registration handshake: it registers the session with the coordinator,
/// and any other text frame is a protocol violation that closes the
/// connection (never having registered, it owes no `Disconnect`).  After
/// registration every text frame is forwarded verbatim.  Coordinator
/// messages go out to the client as text.  A close frame, a stream error
/// or the end of the stream terminates the loop; so does a heartbeat tick
/// that finds the liveness clock run out, which otherwise sends a ping.
pub open spec fn spec_session_step(s: SessionLoopView, input: SessionInput, now: u64) -> (
    SessionLoopView,
    Seq<SessionActionView>,
) {
    match input {
        SessionInput::Ping => (
            SessionLoopView { last_heartbeat: now, ..s },
            seq![SessionActionView::SendPong],
        ),
        SessionInput::Pong => (
            SessionLoopView { last_heartbeat: now, ..s },
            Seq::<SessionActionView>::empty(),
        ),
        SessionInput::Text { text, registration } => match s.session_id {
            Some(_) => (s, seq![SessionActionView::Submit { text: text@ }]),
            None => match registration {
                Some(sid) => (
                    SessionLoopView { session_id: Some(sid@), ..s },
                    seq![SessionActionView::Connect { session_id: sid@ }],
                ),
                None => (closed_state(s), seq![SessionActionView::CloseConnection]),
            },
        },
        SessionInput::Binary => (s, Seq::<SessionActionView>::empty()),
        SessionInput::Close => (closed_state(s), termination_actions(s)),
        SessionInput::StreamError => (closed_state(s), termination_actions(s)),
        SessionInput::StreamEnd => (closed_state(s), termination_actions(s)),
        SessionInput::Outbound { message } => (
            s,
            seq![SessionActionView::SendText { message: message@ }],
        ),
        SessionInput::Tick => if spec_timed_out(s, now) {
            (closed_state(s), termination_actions(s))
        } else {
            (s, seq![SessionActionView::SendPing])
        },
    }
}

impl SessionLoop {
    /// A fresh loop for a new connection: unregistered, live as of `now`.
    pub fn new(now: u64) -> (s: Self)
        ensures
            s@ == (SessionLoopView { session_id: None, last_heartbeat: now, closed: false }),
    {
        SessionLoop { session_id: None, last_heartbeat: now, closed: false }
    }

    /// Handles one input at clock value `now`: updates the state and
    /// returns the actions to carry out, in order, per
    /// [`spec_session_step`].
    pub fn session_step(&mut self, input: SessionInput, now: u64) -> (actions: Vec<SessionAction>)
        requires
            !old(self).closed,
        ensures
            final(self)@ == spec_session_step(old(self)@, input, now).0,
            actions_view(actions@) == spec_session_step(old(self)@, input, now).1,
    {
        let ghost s0 = self@;
        let ghost ginput = input;
        let mut actions: Vec<SessionAction> = Vec::new();
        match input {
            SessionInput::Ping => {
                self.last_heartbeat = now;
                actions.push(SessionAction::SendPong);
            },
            SessionInput::Pong => {
                self.last_heartbeat = now;
            },
            SessionInput::Text { text, registration } => {
                match &self.session_id {
                    Some(_) => {
                        actions.push(SessionAction::Submit { text });
                    },
                    None => match registration {
                        Some(sid) => {
                            self.session_id = Some(sid.clone());
                            actions.push(SessionAction::Connect { session_id: sid });
                        },
                        None => {
                            self.closed = true;
                            actions.push(SessionAction::CloseConnection);
                        },
                    },
                }
            },
            SessionInput::Binary => {},
            SessionInput::Close => {
                self.terminate(&mut actions);
            },
            SessionInput::StreamError => {
                self.terminate(&mut actions);
            },
            SessionInput::StreamEnd => {
                self.terminate(&mut actions);
            },
            SessionInput::Outbound { message } => {
                actions.push(SessionAction::SendText { message });
            },
            SessionInput::Tick => {
                if now >= self.last_heartbeat && now - self.last_heartbeat > CLIENT_TIMEOUT_MS {
                    self.terminate(&mut actions);
                } else {
                    actions.push(SessionAction::SendPing);
                }
            },
        }
        proof {
            assert(actions_view(actions@) =~= spec_session_step(s0, ginput, now).1);
        }
        actions
    }

    /// Ends the loop: one `Disconnect` where the session had registered,
    /// then the close of the connection.
    fn terminate(&mut self, actions: &mut Vec<SessionAction>)
        ensures
            final(self)@ == closed_state(old(self)@),
            actions_view(final(actions)@) == actions_view(old(actions)@) + termination_actions(
                old(self)@,
            ),
    {
        match &self.session_id {
            Some(sid) => {
                actions.push(SessionAction::Disconnect { session_id: sid.clone() });
            },
            None => {},
        }
        actions.push(SessionAction::CloseConnection);
        self.closed = true;
        proof {
            assert(actions_view(actions@) =~= actions_view(old(actions)@) + termination_actions(
                old(self)@,
            ));
        }
    }
}

/// The heartbeat law: a session whose liveness clock has run out is
/// force-closed with exactly the actions of an explicit close frame — the
/// same `Disconnect` (where it had registered) and the same close.
pub proof fn lemma_timeout_disconnects_like_close(s: SessionLoopView, now: u64)
    requires
        spec_timed_out(s, now),
    ensures
        spec_session_step(s, SessionInput::Tick, now) == spec_session_step(
            s,
            SessionInput::Close,
            now,
        ),
{
}

} // verus!
