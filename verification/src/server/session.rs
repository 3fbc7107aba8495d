//! The session: what stands for one connected client between its socket
//! and the coordinator.

use crate::author::ClientID;
use crate::document::model::LogPosition;
use crate::error::{Error, ProtocolError};
use crate::frame::client::{decode_frame, FrameView};
use crate::json::{Json, JsonView};
use crate::server::coordinator::{ServerMessage, ServerMessageView};
use vstd::prelude::*;

verus! {

/// Where a session is in its life.
#[derive(Debug, Clone, Copy, PartialEq, Eq, Structural)]
pub enum SessionState {
    /// Accepted, not yet registered with the coordinator.
    Connecting,
    /// Registered.
    Active,
    /// On its way out: the coordinator was told, and has not answered yet.
    Closing,
    /// Gone.
    Terminated,
}

impl SessionState {
    /// Whether the session still serves its client.
    pub open spec fn live(self) -> bool {
        self is Connecting || self is Active
    }
}

/// A message in the mailbox of a session.
///
/// `ClientFrame` is a call: whoever sends it waits for the reply. The
/// others are notifications.
#[derive(Debug, Clone, PartialEq)]
pub enum SessionMessage {
    /// A frame that the client sent.
    ClientFrame(crate::frame::client::Frame),
    /// The content changed: push it to the client.
    Update(String),
    /// The client is leaving.
    Close,
}

/// What a message to a session is.
pub ghost enum SessionMessageView {
    ClientFrame(FrameView),
    Update(Seq<char>),
    Close,
}

impl View for SessionMessage {
    type V = SessionMessageView;

    open spec fn view(&self) -> SessionMessageView {
        match self {
            SessionMessage::ClientFrame(frame) => SessionMessageView::ClientFrame(frame@),
            SessionMessage::Update(content) => SessionMessageView::Update(content@),
            SessionMessage::Close => SessionMessageView::Close,
        }
    }
}

/// What happens to a session.
#[derive(Debug, Clone, PartialEq)]
pub enum SessionEvent {
    /// The coordinator has registered the session.
    Registered,
    /// A message arrived in the mailbox.
    Message(SessionMessage),
    /// Writing to the client failed.
    SinkFailed,
    /// Nobody holds the other end of the mailbox any more.
    MailboxClosed,
    /// The coordinator has acknowledged that the session left.
    Unregistered,
}

/// What an event is.
pub ghost enum SessionEventView {
    Registered,
    Message(SessionMessageView),
    SinkFailed,
    MailboxClosed,
    Unregistered,
}

impl SessionEventView {
    /// Whether somebody waits for a reply to the event.
    pub open spec fn is_call(self) -> bool {
        self matches SessionEventView::Message(SessionMessageView::ClientFrame(_))
    }

    /// Whether the event ends the service of the session: the client
    /// leaves, or the socket or the mailbox fails.
    pub open spec fn ends(self) -> bool {
        self == SessionEventView::Message(SessionMessageView::Close) || self is SinkFailed
            || self is MailboxClosed
    }
}

impl View for SessionEvent {
    type V = SessionEventView;

    open spec fn view(&self) -> SessionEventView {
        match self {
            SessionEvent::Registered => SessionEventView::Registered,
            SessionEvent::Message(message) => SessionEventView::Message(message@),
            SessionEvent::SinkFailed => SessionEventView::SinkFailed,
            SessionEvent::MailboxClosed => SessionEventView::MailboxClosed,
            SessionEvent::Unregistered => SessionEventView::Unregistered,
        }
    }
}

/// The reply of a session to a frame of its client.
#[derive(Debug, Clone, Copy, PartialEq, Eq, Structural)]
pub enum SessionReply {
    /// Answer with what the coordinator replied to the command that was
    /// forwarded, once it has replied.
    Relayed,
    /// The frame was handled.
    Done,
    /// The frame was not handled.
    Refused(Error),
}

/// What is to be done about one event, in this order: hand the command to
/// the coordinator, write the frame to the client, answer the caller.
#[derive(Debug, Clone, PartialEq)]
pub struct SessionOutcome {
    pub forward: Option<ServerMessage>,
    pub send: Option<crate::frame::server::Frame>,
    pub reply: Option<SessionReply>,
}

/// What an outcome is.
pub ghost struct SessionOutcomeView {
    pub forward: Option<ServerMessageView>,
    pub send: Option<crate::frame::server::FrameView>,
    pub reply: Option<SessionReply>,
}

impl SessionOutcomeView {
    /// Nothing is to be done.
    pub open spec fn nothing() -> SessionOutcomeView {
        SessionOutcomeView { forward: None, send: None, reply: None }
    }
}

impl View for SessionOutcome {
    type V = SessionOutcomeView;

    open spec fn view(&self) -> SessionOutcomeView {
        SessionOutcomeView {
            forward: match self.forward {
                Some(m) => Some(m@),
                None => None,
            },
            send: match self.send {
                Some(f) => Some(f@),
                None => None,
            },
            reply: self.reply,
        }
    }
}

/// The state of a session after `event`.
///
/// A session becomes active when the coordinator has registered it. A
/// close frame, a failed socket or a closed mailbox put a live session on
/// its way out; the acknowledgement of the coordinator ends it.
pub open spec fn next_state(state: SessionState, event: SessionEventView) -> SessionState {
    match state {
        SessionState::Connecting => if event is Registered {
            SessionState::Active
        } else if event.ends() {
            SessionState::Closing
        } else {
            SessionState::Connecting
        },
        SessionState::Active => if event.ends() {
            SessionState::Closing
        } else {
            SessionState::Active
        },
        SessionState::Closing => if event is Unregistered {
            SessionState::Terminated
        } else {
            SessionState::Closing
        },
        SessionState::Terminated => SessionState::Terminated,
    }
}

/// The command by which the session `id` hands a frame of its client to
/// the coordinator.
pub open spec fn command_for(id: ClientID, frame: FrameView) -> ServerMessageView {
    match frame {
        FrameView::Insert { char, index } => ServerMessageView::Insert(id, LogPosition(index), char),
        FrameView::Open { url } => ServerMessageView::Open { url },
    }
}

/// What the session `id` in `state` is to do about `event`.
///
/// A live session hands a frame of its client to the coordinator, and
/// answers its caller with the reply of the coordinator to an insertion,
/// or at once where the command is a notification. It pushes an update to
/// the client. When its service ends it tells the coordinator that it is
/// gone. A session that is not live refuses a frame, and does nothing
/// about anything else.
pub open spec fn outcome_of(
    id: ClientID,
    state: SessionState,
    event: SessionEventView,
) -> SessionOutcomeView {
    if state.live() {
        match event {
            SessionEventView::Message(SessionMessageView::ClientFrame(frame)) => SessionOutcomeView {
                forward: Some(command_for(id, frame)),
                send: None,
                reply: Some(
                    if frame is Insert {
                        SessionReply::Relayed
                    } else {
                        SessionReply::Done
                    },
                ),
            },
            SessionEventView::Message(SessionMessageView::Update(content)) => SessionOutcomeView {
                forward: None,
                send: Some(crate::frame::server::FrameView::Update { content }),
                reply: None,
            },
            SessionEventView::Message(SessionMessageView::Close)
            | SessionEventView::SinkFailed
            | SessionEventView::MailboxClosed => SessionOutcomeView {
                forward: Some(ServerMessageView::Disconnected(id)),
                send: None,
                reply: None,
            },
            _ => SessionOutcomeView::nothing(),
        }
    } else if event.is_call() {
        SessionOutcomeView {
            forward: None,
            send: None,
            reply: Some(SessionReply::Refused(Error::ChannelClosed)),
        }
    } else {
        SessionOutcomeView::nothing()
    }
}

/// A fresh identifier for a session: the 128 bits of a random UUID, as
/// `uuid::Uuid::new_v4` draws one. Nothing is promised of its value.
#[verifier::external_body]
fn new_v4() -> ClientID {
    uuid::Uuid::new_v4().as_u128()
}

/// A session.
#[derive(Debug)]
pub struct Session {
    id: ClientID,
    state: SessionState,
}

impl Session {
    /// The identifier of the session.
    pub closed spec fn spec_id(&self) -> ClientID {
        self.id
    }

    /// Where the session is in its life.
    pub closed spec fn spec_state(&self) -> SessionState {
        self.state
    }

    /// A session that was just accepted.
    pub fn new(id: ClientID) -> (session: Session)
        ensures
            session.spec_id() == id,
            session.spec_state() == SessionState::Connecting,
    {
        Session { id, state: SessionState::Connecting }
    }

    /// Accepts a connection from `address`: gives a session under a fresh
    /// identifier, and the command that registers it with the coordinator.
    pub fn accept(address: String) -> (r: (Session, ServerMessage))
        ensures
            r.0.spec_state() == SessionState::Connecting,
            r.1@ == ServerMessageView::Connected(r.0.spec_id(), address@),
    {
        let session = Session::new(new_v4());
        let message = session.register(address);
        (session, message)
    }

    /// The identifier of the session.
    #[verifier::when_used_as_spec(spec_id)]
    pub fn id(&self) -> (id: ClientID)
        ensures
            id == self.spec_id(),
    {
        self.id
    }

    /// Where the session is in its life.
    #[verifier::when_used_as_spec(spec_state)]
    pub fn state(&self) -> (state: SessionState)
        ensures
            state == self.spec_state(),
    {
        self.state
    }

    /// The command that registers the session with the coordinator.
    pub fn register(&self, address: String) -> (message: ServerMessage)
        ensures
            message@ == ServerMessageView::Connected(self.id(), address@),
    {
        ServerMessage::Connected(self.id, address)
    }

    /// Handles one event, and says what is to be done about it.
    pub fn handle(&mut self, event: SessionEvent) -> (outcome: SessionOutcome)
        ensures
            final(self).id() == old(self).id(),
            final(self).state() == next_state(old(self).state(), event@),
            outcome@ == outcome_of(old(self).id(), old(self).state(), event@),
    {
        let id = self.id;
        let live = match self.state {
            SessionState::Connecting => true,
            SessionState::Active => true,
            _ => false,
        };
        let ghost before = self.state;
        let ghost seen = event@;
        let (ends, registered, unregistered, outcome) = match event {
            SessionEvent::Message(SessionMessage::ClientFrame(frame)) => {
                if live {
                    let (forward, reply) = match frame {
                        crate::frame::client::Frame::Insert { char, index } => (
                            ServerMessage::Insert(id, LogPosition(index), char),
                            SessionReply::Relayed,
                        ),
                        crate::frame::client::Frame::Open { url } => (
                            ServerMessage::Open { url },
                            SessionReply::Done,
                        ),
                    };
                    (
                        false,
                        false,
                        false,
                        SessionOutcome { forward: Some(forward), send: None, reply: Some(reply) },
                    )
                } else {
                    (
                        false,
                        false,
                        false,
                        SessionOutcome {
                            forward: None,
                            send: None,
                            reply: Some(SessionReply::Refused(Error::ChannelClosed)),
                        },
                    )
                }
            },
            SessionEvent::Message(SessionMessage::Update(content)) => {
                let send = if live {
                    Some(
                        crate::frame::server::Frame::Update(
                            crate::frame::server::Update { content },
                        ),
                    )
                } else {
                    None
                };
                (false, false, false, SessionOutcome { forward: None, send, reply: None })
            },
            SessionEvent::Message(SessionMessage::Close)
            | SessionEvent::SinkFailed
            | SessionEvent::MailboxClosed => {
                let forward = if live {
                    Some(ServerMessage::Disconnected(id))
                } else {
                    None
                };
                (true, false, false, SessionOutcome { forward, send: None, reply: None })
            },
            SessionEvent::Registered => (
                false,
                true,
                false,
                SessionOutcome { forward: None, send: None, reply: None },
            ),
            SessionEvent::Unregistered => (
                false,
                false,
                true,
                SessionOutcome { forward: None, send: None, reply: None },
            ),
        };
        assert(ends == seen.ends());
        self.state = match self.state {
            SessionState::Connecting => if registered {
                SessionState::Active
            } else if ends {
                SessionState::Closing
            } else {
                SessionState::Connecting
            },
            SessionState::Active => if ends {
                SessionState::Closing
            } else {
                SessionState::Active
            },
            SessionState::Closing => if unregistered {
                SessionState::Terminated
            } else {
                SessionState::Closing
            },
            SessionState::Terminated => SessionState::Terminated,
        };
        outcome
    }
}

/// What a connection delivers.
#[derive(Debug, Clone, PartialEq)]
pub enum Incoming {
    /// A text message that holds a JSON document.
    Text(Json),
    /// A text message that holds no JSON document.
    Garbled,
    /// A binary message.
    Binary,
    /// A ping.
    Ping,
    /// A pong.
    Pong,
    /// The client closes the connection.
    Close,
    /// A raw frame.
    Raw,
}

/// What a delivery is.
pub ghost enum IncomingView {
    Text(JsonView),
    Garbled,
    Binary,
    Ping,
    Pong,
    Close,
    Raw,
}

impl View for Incoming {
    type V = IncomingView;

    open spec fn view(&self) -> IncomingView {
        match self {
            Incoming::Text(json) => IncomingView::Text(json@),
            Incoming::Garbled => IncomingView::Garbled,
            Incoming::Binary => IncomingView::Binary,
            Incoming::Ping => IncomingView::Ping,
            Incoming::Pong => IncomingView::Pong,
            Incoming::Close => IncomingView::Close,
            Incoming::Raw => IncomingView::Raw,
        }
    }
}

/// The message for the session that a delivery stands for.
///
/// A JSON document is read as a frame of the client. A close is the
/// message that the client is leaving. Text that is no JSON is malformed,
/// and the kinds of message that carry no frame are unsupported.
pub open spec fn message_of(incoming: IncomingView) -> Result<SessionMessageView, Error> {
    match incoming {
        IncomingView::Text(json) => match decode_frame(json) {
            Ok(frame) => Ok(SessionMessageView::ClientFrame(frame)),
            Err(e) => Err(Error::Protocol(e)),
        },
        IncomingView::Close => Ok(SessionMessageView::Close),
        IncomingView::Garbled => Err(Error::Protocol(ProtocolError::Malformed)),
        _ => Err(Error::Protocol(ProtocolError::UnsupportedOperation)),
    }
}

/// Reads one delivery of a connection: gives the message for the session,
/// or the failure that ends the reading of this connection.
pub fn read(incoming: &Incoming) -> (r: Result<SessionMessage, Error>)
    ensures
        match r {
            Ok(message) => message_of(incoming@) == Ok::<SessionMessageView, Error>(message@),
            Err(e) => message_of(incoming@) == Err::<SessionMessageView, Error>(e),
        },
{
    match incoming {
        Incoming::Text(json) => match crate::frame::client::Frame::from_json(json) {
            Ok(frame) => Ok(SessionMessage::ClientFrame(frame)),
            Err(e) => Err(Error::Protocol(e)),
        },
        Incoming::Close => Ok(SessionMessage::Close),
        Incoming::Garbled => Err(Error::Protocol(ProtocolError::Malformed)),
        _ => Err(Error::Protocol(ProtocolError::UnsupportedOperation)),
    }
}

} // verus!
