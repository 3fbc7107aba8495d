use eb::author::{Author, ClientID};
use eb::document::engine::CausalityError;
use eb::document::model::LogPosition;
use eb::error::{Error, ProtocolError};
use eb::frame::client::Frame;
use eb::json::Json;
use eb::server::coordinator::{Outcome, Reply, Server, ServerMessage};
use eb::server::session::{
    read, Incoming, Session, SessionEvent, SessionMessage, SessionOutcome, SessionReply,
    SessionState,
};

const ALPHABET: &[char] = &[
    'a', 'b', 'c', 'd', 'e', 'f', 'g', 'h', 'i', 'j', 'k', 'l', 'm', 'n', 'o', 'p', 'q', 'r', 's',
    't', 'u', 'v', 'w', 'x', 'y', 'z',
];

fn address() -> String {
    socket([127, 0, 0, 1], 0)
}

/// An address as text: the four numbers of the host, and the port.
fn socket(host: [u8; 4], port: u16) -> String {
    format!("{}.{}.{}.{}:{}", host[0], host[1], host[2], host[3], port)
}

fn sorted(mut sessions: Vec<ClientID>) -> Vec<ClientID> {
    sessions.sort();
    sessions
}

/// The registered sessions, the smallest first.
fn registered(server: &Server) -> Vec<ClientID> {
    sorted(server.sessions().iter().copied().collect())
}

fn content(server: &mut Server) -> String {
    match server.handle_message(ServerMessage::Get) {
        Outcome { update: None, reply: Some(Reply::Content(text)) } => text,
        other => panic!("unexpected outcome of Get: {:?}", other),
    }
}

/// Connects a session as the accept loop does, and returns it active.
fn connect(server: &mut Server, id: ClientID) -> Session {
    connect_from(server, id, address())
}

/// Connects a session from `address`, and returns it active.
fn connect_from(server: &mut Server, id: ClientID, address: String) -> Session {
    let mut session = Session::new(id);
    let outcome = server.handle_message(session.register(address));
    let update = outcome.update.expect("a new session is sent the content");
    assert_eq!(update.sessions, vec![id]);
    assert!(outcome.reply.is_none());
    session.handle(SessionEvent::Registered);
    assert_eq!(session.state(), SessionState::Active);
    session
}

/// Hands a frame of the client to its session, and what the session
/// forwards to the coordinator.
fn client_frame(server: &mut Server, session: &mut Session, frame: Frame) -> Outcome {
    let SessionOutcome { forward, send, reply } =
        session.handle(SessionEvent::Message(SessionMessage::ClientFrame(frame)));
    assert!(send.is_none());
    assert!(reply.is_some());
    server.handle_message(forward.expect("a live session forwards the frame"))
}

#[test]
fn insert() {
    let mut server = Server::new();
    let client_id: ClientID = 0x1234;
    assert_eq!(socket([127, 0, 0, 1], 0), "127.0.0.1:0");
    let mut session = connect_from(&mut server, client_id, "127.0.0.1:0".to_string());

    client_frame(&mut server, &mut session, Frame::Insert { char: 'a', index: 0 });
    assert_eq!(content(&mut server), "a");
}

#[test]
fn insert_many() {
    let mut server = Server::new();
    let mut sessions: Vec<(ClientID, Session)> = (0..5)
        .map(|i| {
            let id: ClientID = 1000 - 7 * i as u128;
            assert_eq!(socket([127, 0, 0, 1], 0), "127.0.0.1:0");
            (id, connect_from(&mut server, id, "127.0.0.1:0".to_string()))
        })
        .collect();

    for (i, (_, session)) in sessions.iter_mut().enumerate() {
        client_frame(&mut server, session, Frame::Insert { char: ALPHABET[i], index: i });
    }

    let chars = sessions
        .iter()
        .enumerate()
        .map(|(i, _)| ALPHABET[i])
        .collect::<String>();

    assert_eq!(content(&mut server), chars);
    assert_eq!(chars, "abcde");
}

#[test]
fn new_coordinator_is_empty() {
    let mut server = Server::new();
    assert!(server.sessions().is_empty());
    assert!(server.file().is_none());
    assert_eq!(server.document().origin(), Author::Server);
    assert_eq!(content(&mut server), "");
}

#[test]
fn connected_registers_once_and_sends_the_snapshot() {
    let mut server = Server::new();
    server.handle_message(ServerMessage::Insert(9, LogPosition(0), 'x'));
    let outcome = server.handle_message(ServerMessage::Connected(5, address()));
    let update = outcome.update.unwrap();
    assert_eq!(update.sessions, vec![5]);
    assert_eq!(update.content, "x");
    assert!(outcome.reply.is_none());
    server.handle_message(ServerMessage::Connected(6, address()));
    server.handle_message(ServerMessage::Connected(5, address()));
    assert_eq!(registered(&server), vec![5, 6]);
}

#[test]
fn disconnected_forgets_the_session_and_says_nothing() {
    let mut server = Server::new();
    for id in [1, 2, 3] {
        server.handle_message(ServerMessage::Connected(id, address()));
    }
    let outcome = server.handle_message(ServerMessage::Disconnected(2));
    assert!(outcome.update.is_none());
    assert!(outcome.reply.is_none());
    assert_eq!(registered(&server), vec![1, 3]);
    // A session that is not registered is forgotten without harm.
    server.handle_message(ServerMessage::Disconnected(2));
    assert_eq!(registered(&server), vec![1, 3]);
}

#[test]
fn insert_is_broadcast_to_every_session_and_acknowledged() {
    let mut server = Server::new();
    for id in [30, 10, 20] {
        server.handle_message(ServerMessage::Connected(id, address()));
    }
    let outcome = server.handle_message(ServerMessage::Insert(10, LogPosition(0), 'h'));
    let update = outcome.update.unwrap();
    assert_eq!(sorted(update.sessions), vec![10, 20, 30]);
    assert_eq!(update.content, "h");
    assert!(matches!(outcome.reply, Some(Reply::Inserted)));
    assert_eq!(server.document().get(LogPosition(1)).unwrap().author, Author::Client(10));
}

#[test]
fn insert_after_unknown_position_is_refused_in_band() {
    let mut server = Server::new();
    server.handle_message(ServerMessage::Connected(1, address()));
    let outcome = server.handle_message(ServerMessage::Insert(1, LogPosition(3), 'h'));
    assert!(outcome.update.is_none());
    match outcome.reply {
        Some(Reply::Refused(e)) => {
            assert_eq!(e, Error::Causality(CausalityError { predecessor: LogPosition(3) }));
            assert_eq!(e.code(), -32602);
        }
        other => panic!("unexpected reply: {:?}", other),
    }
    assert_eq!(content(&mut server), "");
    // The coordinator goes on serving.
    server.handle_message(ServerMessage::Insert(1, LogPosition(0), 'h'));
    assert_eq!(content(&mut server), "h");
}

#[test]
fn open_records_the_locator_and_says_nothing() {
    let mut server = Server::new();
    let outcome =
        server.handle_message(ServerMessage::Open { url: "file:///project-a/main.rs".to_string() });
    assert!(outcome.update.is_none());
    assert!(outcome.reply.is_none());
    assert_eq!(server.file(), Some(&"file:///project-a/main.rs".to_string()));
    assert_eq!(content(&mut server), "");
}

#[test]
fn session_walks_through_its_states() {
    let mut session = Session::new(77);
    assert_eq!(session.id(), 77);
    assert_eq!(session.state(), SessionState::Connecting);
    session.handle(SessionEvent::Registered);
    assert_eq!(session.state(), SessionState::Active);
    let closing = session.handle(SessionEvent::Message(SessionMessage::Close));
    assert_eq!(session.state(), SessionState::Closing);
    assert!(matches!(closing.forward, Some(ServerMessage::Disconnected(77))));
    assert!(closing.send.is_none() && closing.reply.is_none());
    // Only the acknowledgement of the coordinator ends the session.
    session.handle(SessionEvent::Registered);
    assert_eq!(session.state(), SessionState::Closing);
    session.handle(SessionEvent::Unregistered);
    assert_eq!(session.state(), SessionState::Terminated);
    session.handle(SessionEvent::Registered);
    assert_eq!(session.state(), SessionState::Terminated);
}

#[test]
fn socket_failure_and_closed_mailbox_close_the_session() {
    for (event, start_active) in [
        (SessionEvent::SinkFailed, true),
        (SessionEvent::MailboxClosed, true),
        (SessionEvent::SinkFailed, false),
    ] {
        let mut session = Session::new(4);
        if start_active {
            session.handle(SessionEvent::Registered);
        }
        let outcome = session.handle(event);
        assert_eq!(session.state(), SessionState::Closing);
        assert!(matches!(outcome.forward, Some(ServerMessage::Disconnected(4))));
    }
}

#[test]
fn session_pushes_updates_while_it_is_live() {
    let mut session = Session::new(4);
    let outcome = session.handle(SessionEvent::Message(SessionMessage::Update("abc".to_string())));
    match outcome.send {
        Some(eb::frame::server::Frame::Update(update)) => assert_eq!(update.content, "abc"),
        other => panic!("unexpected frame: {:?}", other),
    }
    assert!(outcome.forward.is_none() && outcome.reply.is_none());
    session.handle(SessionEvent::Message(SessionMessage::Close));
    let outcome = session.handle(SessionEvent::Message(SessionMessage::Update("abc".to_string())));
    assert!(outcome.send.is_none() && outcome.forward.is_none() && outcome.reply.is_none());
}

#[test]
fn session_forwards_frames_and_answers_each_once() {
    let mut session = Session::new(4);
    session.handle(SessionEvent::Registered);
    let outcome = session.handle(SessionEvent::Message(SessionMessage::ClientFrame(
        Frame::Insert { char: 'q', index: 12 },
    )));
    assert!(matches!(outcome.forward, Some(ServerMessage::Insert(4, LogPosition(12), 'q'))));
    assert_eq!(outcome.reply, Some(SessionReply::Relayed));
    let outcome = session.handle(SessionEvent::Message(SessionMessage::ClientFrame(
        Frame::Open { url: "file:///x".to_string() },
    )));
    match outcome.forward {
        Some(ServerMessage::Open { url }) => assert_eq!(url, "file:///x"),
        other => panic!("unexpected command: {:?}", other),
    }
    assert_eq!(outcome.reply, Some(SessionReply::Done));
    // Once the session is on its way out, a frame is refused, not dropped.
    session.handle(SessionEvent::Message(SessionMessage::Close));
    let outcome = session.handle(SessionEvent::Message(SessionMessage::ClientFrame(
        Frame::Insert { char: 'q', index: 12 },
    )));
    assert!(outcome.forward.is_none());
    assert_eq!(outcome.reply, Some(SessionReply::Refused(Error::ChannelClosed)));
}

#[test]
fn accept_gives_a_connecting_session_and_its_registration() {
    let (first, message) = Session::accept(address());
    assert_eq!(first.state(), SessionState::Connecting);
    match message {
        ServerMessage::Connected(id, from) => {
            assert_eq!(id, first.id());
            assert_eq!(from, "127.0.0.1:0");
        }
        other => panic!("unexpected command: {:?}", other),
    }
    let (second, _) = Session::accept(address());
    assert_ne!(first.id(), second.id());
}

fn object(members: Vec<(&str, Json)>) -> Json {
    Json::Object(members.into_iter().map(|(k, v)| (k.to_string(), v)).collect())
}

#[test]
fn read_turns_deliveries_into_messages() {
    let frame = object(vec![
        ("type", Json::String("insert".to_string())),
        ("char", Json::String("a".to_string())),
        ("index", Json::Integer(0)),
    ]);
    match read(&Incoming::Text(frame)) {
        Ok(SessionMessage::ClientFrame(Frame::Insert { char, index })) => {
            assert_eq!((char, index), ('a', 0));
        }
        other => panic!("unexpected message: {:?}", other),
    }
    assert!(matches!(read(&Incoming::Close), Ok(SessionMessage::Close)));
    let unsupported = Error::Protocol(ProtocolError::UnsupportedOperation);
    for incoming in [Incoming::Binary, Incoming::Ping, Incoming::Pong, Incoming::Raw] {
        assert_eq!(read(&incoming).unwrap_err(), unsupported);
    }
    assert_eq!(read(&Incoming::Garbled).unwrap_err(), Error::Protocol(ProtocolError::Malformed));
    let delete = object(vec![("type", Json::String("delete".to_string()))]);
    assert_eq!(read(&Incoming::Text(delete)).unwrap_err(), unsupported);
    assert_eq!(
        read(&Incoming::Text(Json::Array(vec![]))).unwrap_err(),
        Error::Protocol(ProtocolError::Malformed)
    );
}

#[test]
fn malformed_frame_ends_that_session_only() {
    let mut server = Server::new();
    let mut good = connect(&mut server, 1);
    let mut bad = connect(&mut server, 2);
    client_frame(&mut server, &mut good, Frame::Insert { char: 'a', index: 0 });

    // The text that the second client sends is no JSON: reading fails, and
    // the session is closed as if its client had left.
    let failure = read(&Incoming::Garbled).unwrap_err();
    assert_eq!(failure, Error::Protocol(ProtocolError::Malformed));
    assert_eq!(failure.code(), -32700);
    let leaving = bad.handle(SessionEvent::Message(SessionMessage::Close));
    let outcome = server.handle_message(leaving.forward.unwrap());
    assert!(outcome.update.is_none() && outcome.reply.is_none());
    bad.handle(SessionEvent::Unregistered);
    assert_eq!(bad.state(), SessionState::Terminated);

    // The document and the other session are as they were.
    assert_eq!(content(&mut server), "a");
    assert_eq!(registered(&server), vec![1]);
    assert_eq!(good.state(), SessionState::Active);
    let outcome = client_frame(&mut server, &mut good, Frame::Insert { char: 'b', index: 1 });
    assert_eq!(outcome.update.unwrap().sessions, vec![1]);
    assert_eq!(content(&mut server), "ab");
}

#[test]
fn commands_of_one_session_are_handled_in_the_order_sent() {
    let mut server = Server::new();
    let mut session = connect(&mut server, 3);
    // 'b' follows the position that 'a' gets, so it is only accepted if 'a'
    // was handled first.
    let first = client_frame(&mut server, &mut session, Frame::Insert { char: 'a', index: 0 });
    let second = client_frame(&mut server, &mut session, Frame::Insert { char: 'b', index: 1 });
    assert!(matches!(first.reply, Some(Reply::Inserted)));
    assert!(matches!(second.reply, Some(Reply::Inserted)));
    assert_eq!(content(&mut server), "ab");
}

#[test]
fn error_codes_tell_the_kinds_apart() {
    assert_eq!(Error::Protocol(ProtocolError::Malformed).code(), -32700);
    assert_eq!(Error::Protocol(ProtocolError::VersionMismatch).code(), -32600);
    assert_eq!(Error::Protocol(ProtocolError::UnsupportedOperation).code(), -32600);
    assert_eq!(Error::Protocol(ProtocolError::UnrecognizedMethod).code(), -32601);
    assert_eq!(Error::ChannelClosed.code(), -32001);
    assert_eq!(Error::Transport(eb::error::TransportError::Io).code(), -32000);
}

#[test]
fn every_session_is_sent_the_update_once() {
    let mut server = Server::new();
    let ids: Vec<ClientID> = (0..200).map(|i| 1_000_003 * i as u128 % 9973).collect();
    for id in &ids {
        server.handle_message(ServerMessage::Connected(*id, address()));
    }
    // A session that registers again is not sent the update twice.
    server.handle_message(ServerMessage::Connected(ids[7], address()));
    let outcome = server.handle_message(ServerMessage::Insert(ids[3], LogPosition(0), 'q'));
    let update = outcome.update.unwrap();
    assert_eq!(update.content, "q");
    assert_eq!(sorted(update.sessions), sorted(ids.clone()));
    assert_eq!(registered(&server), sorted(ids));
}

#[test]
fn clients_come_in_the_order_of_their_identifiers() {
    for order in [[2, 1], [1, 2]] {
        let mut server = Server::new();
        for id in order {
            let value = if id == 2 { 'x' } else { 'y' };
            server.handle_message(ServerMessage::Insert(id, LogPosition(0), value));
        }
        assert_eq!(content(&mut server), "yx");
    }
}

#[test]
fn exhaustion_is_a_failure_of_its_own() {
    assert_eq!(Error::Exhausted.code(), -32603);
    assert_eq!(Error::Exhausted.message(), "positions used up");
}
