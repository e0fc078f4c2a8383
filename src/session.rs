//! The per-connection state machine: verification, heartbeat, and the
//! forwarding of routed payloads. The caller runs the transport; each
//! event it sees is handed to [`Session::step`], which answers with the
//! actions to perform, in order.
use vstd::prelude::*;

use crate::error::VerifyError;
use crate::frame::{client_key, frame_key, FrameView, ServerFrame};
use crate::ConnId;

verus! {

/// Interval between heartbeat pings, in milliseconds.
pub const HEARTBEAT_INTERVAL_MS: u64 = 5000;

/// Silence after which a connection is dropped, and time allowed for
/// verification, in milliseconds.
pub const CLIENT_TIMEOUT_MS: u64 = 10000;

/// Interval between sweeps of the queued payloads, in milliseconds.
pub const SWEEP_INTERVAL_MS: u64 = 5000;

#[derive(Debug, Clone, Copy, PartialEq, Eq, Structural)]
pub enum SessionState {
    Unverified,
    Verified,
    Closed,
}

/// What the transport or the registry reports to a session.
#[derive(Debug)]
pub enum Event {
    /// A text frame from the client.
    Text(String),
    /// A binary frame from the client.
    Binary,
    /// A ping from the client.
    Ping,
    /// A pong from the client.
    Pong,
    /// The heartbeat interval has elapsed.
    Tick,
    /// A payload that the registry routed to this connection.
    Routed(String),
    /// The registry's answer to the verification that was asked for.
    Verdict(Result<String, VerifyError>),
    /// The registry could not answer the verification that was asked for
    /// (its credential store failed); the client may send its key again.
    NoVerdict,
    /// The client closed the connection.
    Close,
    /// The client's stream failed or ended.
    StreamEnd,
}

pub ghost enum EventView {
    Text(Seq<char>),
    Binary,
    Ping,
    Pong,
    Tick,
    Routed(Seq<char>),
    Verdict(Result<Seq<char>, VerifyError>),
    NoVerdict,
    Close,
    StreamEnd,
}

impl View for Event {
    type V = EventView;

    open spec fn view(&self) -> EventView {
        match self {
            Event::Text(t) => EventView::Text(t@),
            Event::Binary => EventView::Binary,
            Event::Ping => EventView::Ping,
            Event::Pong => EventView::Pong,
            Event::Tick => EventView::Tick,
            Event::Routed(p) => EventView::Routed(p@),
            Event::Verdict(Ok(n)) => EventView::Verdict(Ok(n@)),
            Event::Verdict(Err(e)) => EventView::Verdict(Err(*e)),
            Event::NoVerdict => EventView::NoVerdict,
            Event::Close => EventView::Close,
            Event::StreamEnd => EventView::StreamEnd,
        }
    }
}

/// What a session asks its caller to do.
#[derive(Debug, Clone, PartialEq, Eq)]
pub enum Action {
    /// Answer the client's ping.
    Pong,
    /// Send a heartbeat ping.
    Ping,
    /// Ask the registry to verify this key for the connection.
    Verify(String),
    /// Send this frame to the client.
    Send(ServerFrame),
    /// Deregister the connection from the registry, then close the transport.
    Disconnect,
}

pub ghost enum ActionView {
    Pong,
    Ping,
    Verify(Seq<char>),
    Send(FrameView),
    Disconnect,
}

impl View for Action {
    type V = ActionView;

    open spec fn view(&self) -> ActionView {
        match self {
            Action::Pong => ActionView::Pong,
            Action::Ping => ActionView::Ping,
            Action::Verify(k) => ActionView::Verify(k@),
            Action::Send(f) => ActionView::Send(f@),
            Action::Disconnect => ActionView::Disconnect,
        }
    }
}

/// Abstract state of a session.
pub ghost struct SessionView {
    pub state: SessionState,
    /// A verification has been asked for and not yet answered.
    pub verifying: bool,
    /// When the connection was accepted.
    pub connected_at: u64,
    /// When a ping or pong last came from the client.
    pub last_heartbeat: u64,
    /// The display name the session was verified under.
    pub server_name: Option<Seq<char>>,
}

/// More than `limit` milliseconds separate `since` from `now`.
pub open spec fn elapsed_over(now: u64, since: u64, limit: u64) -> bool {
    now > since && now - since > limit
}

/// The actions a session in state `s` takes on event `e` at time `now`.
pub open spec fn step_actions(s: SessionView, e: EventView, now: u64) -> Seq<ActionView> {
    if s.state is Closed {
        Seq::empty()
    } else {
        match e {
            EventView::Ping => seq![ActionView::Pong],
            EventView::Text(t) => {
                if s.state is Unverified && !s.verifying {
                    match frame_key(t) {
                        Some(k) => seq![ActionView::Verify(k)],
                        None => seq![ActionView::Send(FrameView::Invalid), ActionView::Disconnect],
                    }
                } else {
                    Seq::empty()
                }
            },
            EventView::Routed(p) => seq![ActionView::Send(FrameView::Notification(p))],
            EventView::Verdict(r) => {
                if s.state is Unverified && s.verifying {
                    match r {
                        Ok(n) => seq![ActionView::Send(FrameView::Verified(n))],
                        Err(VerifyError::UnknownKey) => seq![
                            ActionView::Send(FrameView::UnknownKey),
                            ActionView::Disconnect,
                        ],
                        Err(VerifyError::DuplicateKey) => seq![
                            ActionView::Send(FrameView::DuplicateKey),
                            ActionView::Disconnect,
                        ],
                        Err(VerifyError::NotConnected) => seq![ActionView::Disconnect],
                    }
                } else {
                    Seq::empty()
                }
            },
            EventView::Tick => {
                if elapsed_over(now, s.last_heartbeat, CLIENT_TIMEOUT_MS) || (s.state is Unverified
                    && elapsed_over(now, s.connected_at, CLIENT_TIMEOUT_MS)) {
                    seq![ActionView::Disconnect]
                } else {
                    seq![ActionView::Ping]
                }
            },
            EventView::Close | EventView::StreamEnd => seq![ActionView::Disconnect],
            EventView::Binary | EventView::Pong | EventView::NoVerdict => Seq::empty(),
        }
    }
}

/// The state of a session in state `s` after event `e` at time `now`.
pub open spec fn step_next(s: SessionView, e: EventView, now: u64) -> SessionView {
    if s.state is Closed {
        s
    } else {
        let acts = step_actions(s, e, now);
        let closed = acts.len() > 0 && acts.last() == ActionView::Disconnect;
        match e {
            EventView::Ping | EventView::Pong => SessionView { last_heartbeat: now, ..s },
            _ => if closed {
                SessionView { state: SessionState::Closed, verifying: false, ..s }
            } else {
                match e {
                    EventView::Text(t) => if s.state is Unverified && !s.verifying {
                        SessionView { verifying: true, ..s }
                    } else {
                        s
                    },
                    EventView::Verdict(r) => if s.state is Unverified && s.verifying {
                        SessionView {
                            state: SessionState::Verified,
                            verifying: false,
                            server_name: Some(r->Ok_0),
                            ..s
                        }
                    } else {
                        s
                    },
                    EventView::NoVerdict => if s.state is Unverified && s.verifying {
                        SessionView { verifying: false, ..s }
                    } else {
                        s
                    },
                    _ => s,
                }
            },
        }
    }
}

pub struct Session {
    conn: ConnId,
    state: SessionState,
    verifying: bool,
    connected_at: u64,
    last_heartbeat: u64,
    server_name: Option<String>,
}

impl View for Session {
    type V = SessionView;

    closed spec fn view(&self) -> SessionView {
        SessionView {
            state: self.state,
            verifying: self.verifying,
            connected_at: self.connected_at,
            last_heartbeat: self.last_heartbeat,
            server_name: match self.server_name {
                Some(n) => Some(n@),
                None => None,
            },
        }
    }
}

impl Session {
    pub closed spec fn spec_conn(&self) -> ConnId {
        self.conn
    }

    /// A verified session knows the display name it was verified under.
    pub closed spec fn wf(&self) -> bool {
        self.state is Verified ==> self.server_name is Some
    }

    /// A session for connection `conn`, accepted at time `now`.
    pub fn new(conn: ConnId, now: u64) -> (r: Session)
        ensures
            r@ == (SessionView {
                state: SessionState::Unverified,
                verifying: false,
                connected_at: now,
                last_heartbeat: now,
                server_name: None,
            }),
            r.spec_conn() == conn,
            r.wf(),
    {
        Session {
            conn,
            state: SessionState::Unverified,
            verifying: false,
            connected_at: now,
            last_heartbeat: now,
            server_name: None,
        }
    }

    pub fn conn(&self) -> (r: ConnId)
        ensures
            r == self.spec_conn(),
    {
        self.conn
    }

    pub fn state(&self) -> (r: SessionState)
        ensures
            r == self@.state,
    {
        self.state
    }

    /// Handles `event`, seen at time `now`, and returns the actions to
    /// perform, in order.
    pub fn step(&mut self, event: Event, now: u64) -> (r: Vec<Action>)
        requires
            old(self).wf(),
        ensures
            final(self).wf(),
            final(self)@ == step_next(old(self)@, event@, now),
            final(self).spec_conn() == old(self).spec_conn(),
            r@.map_values(|a: Action| a@) == step_actions(old(self)@, event@, now),
    {
        let mut out: Vec<Action> = Vec::new();
        if self.state == SessionState::Closed {
            proof {
                assert(out@.map_values(|a: Action| a@) =~= Seq::<ActionView>::empty());
            }
            return out;
        }
        let ghost s0 = self@;
        let ghost e0 = event@;
        match event {
            Event::Ping => {
                self.last_heartbeat = now;
                out.push(Action::Pong);
            },
            Event::Pong => {
                self.last_heartbeat = now;
            },
            Event::Text(t) => {
                if self.state == SessionState::Unverified && !self.verifying {
                    match client_key(t.as_str()) {
                        Some(k) => {
                            self.verifying = true;
                            out.push(Action::Verify(k));
                        },
                        None => {
                            self.state = SessionState::Closed;
                            out.push(Action::Send(ServerFrame::Invalid));
                            out.push(Action::Disconnect);
                        },
                    }
                }
            },
            Event::Binary => {},
            Event::NoVerdict => {
                if self.state == SessionState::Unverified && self.verifying {
                    self.verifying = false;
                }
            },
            Event::Routed(p) => {
                out.push(Action::Send(ServerFrame::Notification(p)));
            },
            Event::Verdict(r) => {
                if self.state == SessionState::Unverified && self.verifying {
                    self.verifying = false;
                    match r {
                        Ok(n) => {
                            self.state = SessionState::Verified;
                            self.server_name = Some(n.clone());
                            out.push(Action::Send(ServerFrame::Verified(n)));
                        },
                        Err(VerifyError::UnknownKey) => {
                            self.state = SessionState::Closed;
                            out.push(Action::Send(ServerFrame::UnknownKey));
                            out.push(Action::Disconnect);
                        },
                        Err(VerifyError::DuplicateKey) => {
                            self.state = SessionState::Closed;
                            out.push(Action::Send(ServerFrame::DuplicateKey));
                            out.push(Action::Disconnect);
                        },
                        Err(VerifyError::NotConnected) => {
                            self.state = SessionState::Closed;
                            out.push(Action::Disconnect);
                        },
                    }
                }
            },
            Event::Tick => {
                let silent = now > self.last_heartbeat && now - self.last_heartbeat
                    > CLIENT_TIMEOUT_MS;
                let unverified_too_long = self.state == SessionState::Unverified && now
                    > self.connected_at && now - self.connected_at > CLIENT_TIMEOUT_MS;
                if silent || unverified_too_long {
                    self.state = SessionState::Closed;
                    self.verifying = false;
                    out.push(Action::Disconnect);
                } else {
                    out.push(Action::Ping);
                }
            },
            Event::Close | Event::StreamEnd => {
                self.state = SessionState::Closed;
                self.verifying = false;
                out.push(Action::Disconnect);
            },
        }
        proof {
            assert(out@.map_values(|a: Action| a@) =~= step_actions(s0, e0, now));
        }
        out
    }

    /// The display name of the key's owner, once verified.
    pub fn server_name(&self) -> (r: Option<&String>)
        requires
            self.wf(),
        ensures
            self@.state is Verified ==> r is Some,
            match r {
                Some(n) => self@.server_name == Some(n@),
                None => self@.server_name is None,
            },
    {
        self.server_name.as_ref()
    }
}

} // verus!

verus! {

/// A session disconnects at most once: after an event whose actions end
/// in a disconnect the session is closed, and a closed session takes no
/// action on any later event.
pub proof fn lemma_disconnect_once(
    s: SessionView,
    e: EventView,
    now: u64,
    later: EventView,
    later_now: u64,
)
    requires
        step_actions(s, e, now).len() > 0,
        step_actions(s, e, now).last() == ActionView::Disconnect,
    ensures
        step_next(s, e, now).state is Closed,
        step_actions(step_next(s, e, now), later, later_now) == Seq::<ActionView>::empty(),
{
}

} // verus!
