use eb::error::{Error, ProtocolError, TransportError};
use eb::rpc::serve::{conclude, receive, Step};
use eb::frame::client::Frame;
use eb::json::Json;
use eb::jsonrpc::envelope::Version;
use eb::rpc::call::{Request, RequestCall};
use eb::transport::{Endpoint, Locator, Transport, DEFAULT_TCP_PORT};

fn from_value(value: &serde_json::Value) -> Json {
    match value {
        serde_json::Value::Null => Json::Null,
        serde_json::Value::Bool(b) => Json::Bool(*b),
        serde_json::Value::Number(n) => match n.as_i128() {
            Some(i) => Json::Integer(i),
            None => Json::Decimal(n.to_string()),
        },
        serde_json::Value::String(s) => Json::String(s.clone()),
        serde_json::Value::Array(items) => Json::Array(items.iter().map(from_value).collect()),
        serde_json::Value::Object(members) => {
            Json::Object(members.iter().map(|(k, v)| (k.clone(), from_value(v))).collect())
        }
    }
}

fn to_value(json: &Json) -> serde_json::Value {
    match json {
        Json::Null => serde_json::Value::Null,
        Json::Bool(b) => serde_json::Value::Bool(*b),
        Json::Integer(i) => serde_json::Value::Number(serde_json::Number::from_i128(*i).unwrap()),
        Json::Decimal(text) => serde_json::from_str(text).unwrap(),
        Json::String(s) => serde_json::Value::String(s.clone()),
        Json::Array(items) => serde_json::Value::Array(items.iter().map(to_value).collect()),
        Json::Object(members) => serde_json::Value::Object(
            members.iter().map(|(k, v)| (k.clone(), to_value(v))).collect(),
        ),
    }
}

fn json(text: &str) -> Json {
    from_value(&serde_json::from_str::<serde_json::Value>(text).unwrap())
}

fn text(json: &Json) -> String {
    serde_json::to_string(&to_value(json)).unwrap()
}

#[test]
fn open_request() {
    const JSON: &str = r#"
        {
            "jsonrpc": "2.0",
            "id": 1,
            "method": "open",
            "params": {
                "url": "file:///project-a/main.rs"
            }

        }
        "#;
    assert_eq!(
        Request::from_json(&json(JSON)).unwrap(),
        Request::new(
            Version::parse("2.0").unwrap(),
            1,
            RequestCall::Open(eb::rpc::open::Request {
                url: url::Url::parse("file:///project-a/main.rs").unwrap().to_string(),
            })
        )
    );
    let request = Request::from_json(&json(JSON)).unwrap();
    assert_eq!(request.version(), Version);
    assert_eq!(request.id(), 1);
    match request.call() {
        RequestCall::Open(open) => assert_eq!(open.url, "file:///project-a/main.rs"),
        other => panic!("unexpected call: {:?}", other),
    }
}

#[test]
fn insert_request() {
    let source = r#"{"jsonrpc":"2.0","id":3,"method":"insert","params":{"char":"ß","index":17}}"#;
    let request = Request::from_json(&json(source)).unwrap();
    assert_eq!(request.id(), 3);
    match request.call() {
        RequestCall::Insert(insert) => {
            assert_eq!(insert.char, 'ß');
            assert_eq!(insert.index, 17);
        }
        other => panic!("unexpected call: {:?}", other),
    }
}

#[test]
fn requests_that_are_no_calls() {
    for (source, expected) in [
        (r#"{"jsonrpc":"2.0","id":1,"method":"delete","params":{}}"#, ProtocolError::UnrecognizedMethod),
        (r#"{"jsonrpc":"2.0","id":1,"method":"Insert","params":{"char":"a","index":0}}"#, ProtocolError::UnrecognizedMethod),
        (r#"{"jsonrpc":"3.0","id":1,"method":"open","params":{"url":"x:y"}}"#, ProtocolError::VersionMismatch),
        (r#"{"jsonrpc":"2.0","id":1,"method":"open","params":{}}"#, ProtocolError::Malformed),
        (r#"{"jsonrpc":"2.0","id":1,"method":"open","params":{"url":4}}"#, ProtocolError::Malformed),
        (r#"{"jsonrpc":"2.0","id":1,"method":"insert","params":{"char":"ab","index":0}}"#, ProtocolError::Malformed),
        (r#"{"jsonrpc":"2.0","id":1,"method":"insert","params":{"char":"","index":0}}"#, ProtocolError::Malformed),
        (r#"{"jsonrpc":"2.0","id":1,"method":"insert","params":{"char":"a","index":-1}}"#, ProtocolError::Malformed),
        (r#"{"jsonrpc":"2.0","id":1,"method":"insert","params":{"char":"a","index":1.5}}"#, ProtocolError::Malformed),
        (r#"{"jsonrpc":"2.0","id":1,"method":"insert","params":{"char":"a"}}"#, ProtocolError::Malformed),
        (r#"{"jsonrpc":"2.0","id":-1,"method":"open","params":{"url":"x:y"}}"#, ProtocolError::Malformed),
        (r#"{"jsonrpc":"2.0","id":"1","method":"open","params":{"url":"x:y"}}"#, ProtocolError::Malformed),
        (r#"{"jsonrpc":"2.0","method":"open","params":{"url":"x:y"}}"#, ProtocolError::Malformed),
        (r#"{"jsonrpc":"2.0","id":1,"result":{}}"#, ProtocolError::Malformed),
    ] {
        assert_eq!(Request::from_json(&json(source)).unwrap_err(), expected, "{}", source);
    }
}

#[test]
fn calls_are_written_and_read_back() {
    let insert = RequestCall::Insert(eb::rpc::insert::Request { char: 'x', index: 4 });
    assert_eq!(insert.method(), "insert");
    assert_eq!(text(&insert.params()), text(&json(r#"{"char":"x","index":4}"#)));
    match RequestCall::decode(insert.method(), &insert.params()).unwrap() {
        RequestCall::Insert(r) => assert_eq!(r, eb::rpc::insert::Request { char: 'x', index: 4 }),
        other => panic!("unexpected call: {:?}", other),
    }
    let open = RequestCall::Open(eb::rpc::open::Request { url: "file:///a".to_string() });
    assert_eq!(open.method(), "open");
    assert_eq!(text(&open.params()), r#"{"url":"file:///a"}"#);
    match open.into_frame() {
        Frame::Open { url } => assert_eq!(url, "file:///a"),
        other => panic!("unexpected frame: {:?}", other),
    }
    match insert.into_frame() {
        Frame::Insert { char, index } => assert_eq!((char, index), ('x', 4)),
        other => panic!("unexpected frame: {:?}", other),
    }
}

#[test]
fn update_parameters() {
    let update = eb::rpc::update::Request { content: "héllo".to_string() };
    assert_eq!(text(&update.to_json()), r#"{"content":"héllo"}"#);
    let read = eb::rpc::update::Request::from_json(&json(r#"{"content":"abc","more":1}"#)).unwrap();
    assert_eq!(read.content, "abc");
    assert!(eb::rpc::update::Request::from_json(&json(r#"{"content":1}"#)).is_none());
    assert!(eb::rpc::update::Request::from_json(&json(r#"{}"#)).is_none());
    assert!(eb::rpc::open::Request::from_json(&json(r#"[]"#)).is_none());
    assert!(eb::rpc::insert::Request::from_json(&json(r#"{"index":0}"#)).is_none());
}

#[test]
fn client_frames() {
    let insert = Frame::from_json(&json(r#"{"type":"insert","char":"a","index":0}"#)).unwrap();
    match &insert {
        Frame::Insert { char, index } => assert_eq!((*char, *index), ('a', 0)),
        other => panic!("unexpected frame: {:?}", other),
    }
    assert_eq!(text(&insert.to_json()), text(&json(r#"{"type":"insert","char":"a","index":0}"#)));
    assert_eq!(text(&insert.to_json()), r#"{"type":"insert","char":"a","index":0}"#);
    let open = Frame::from_json(&json(r#"{"type":"open","url":"file:///a"}"#)).unwrap();
    match &open {
        Frame::Open { url } => assert_eq!(url, "file:///a"),
        other => panic!("unexpected frame: {:?}", other),
    }
    assert_eq!(text(&open.to_json()), text(&json(r#"{"type":"open","url":"file:///a"}"#)));
    let big = format!(r#"{{"type":"insert","char":"a","index":{}}}"#, usize::MAX);
    match Frame::from_json(&json(&big)).unwrap() {
        Frame::Insert { index, .. } => assert_eq!(index, usize::MAX),
        other => panic!("unexpected frame: {:?}", other),
    }
    for (source, expected) in [
        (r#"{"type":"delete","index":1}"#, ProtocolError::UnsupportedOperation),
        (r#"{"type":"update","content":"x"}"#, ProtocolError::UnsupportedOperation),
        (r#"{"type":"insert","char":"ab","index":0}"#, ProtocolError::Malformed),
        (r#"{"type":"insert","char":"a","index":-3}"#, ProtocolError::Malformed),
        (r#"{"type":"insert","char":"a","index":18446744073709551616}"#, ProtocolError::Malformed),
        (r#"{"type":"insert","char":7,"index":0}"#, ProtocolError::Malformed),
        (r#"{"type":"insert","index":0}"#, ProtocolError::Malformed),
        (r#"{"type":"open"}"#, ProtocolError::Malformed),
        (r#"{"type":1}"#, ProtocolError::Malformed),
        (r#"{"char":"a","index":0}"#, ProtocolError::Malformed),
        (r#"null"#, ProtocolError::Malformed),
    ] {
        assert_eq!(Frame::from_json(&json(source)).unwrap_err(), expected, "{}", source);
    }
}

#[test]
fn server_frames() {
    let update = eb::frame::server::Frame::Update(eb::frame::server::Update {
        content: "abc".to_string(),
    });
    assert_eq!(text(&update.to_json()), text(&json(r#"{"type":"update","content":"abc"}"#)));
    // The members are written in the order in which the frame holds them.
    assert_eq!(text(&update.to_json()), r#"{"type":"update","content":"abc"}"#);
    match eb::frame::server::Frame::from_json(&update.to_json()).unwrap() {
        eb::frame::server::Frame::Update(read) => assert_eq!(read.content, "abc"),
    }
    for (source, expected) in [
        (r#"{"type":"insert","char":"a","index":0}"#, ProtocolError::UnsupportedOperation),
        (r#"{"type":"update"}"#, ProtocolError::Malformed),
        (r#"{"type":"update","content":[]}"#, ProtocolError::Malformed),
        (r#"{"content":"abc"}"#, ProtocolError::Malformed),
    ] {
        assert_eq!(
            eb::frame::server::Frame::from_json(&json(source)).unwrap_err(),
            expected,
            "{}",
            source
        );
    }
}

#[test]
fn transport_is_chosen_by_scheme() {
    assert_eq!(Transport::with_scheme("tcp"), Some(Transport::Tcp));
    assert_eq!(Transport::with_scheme("ws"), Some(Transport::Ws));
    assert_eq!(Transport::with_scheme("wss"), None);
    assert_eq!(Transport::with_scheme("TCP"), None);
    assert_eq!(Transport::with_scheme(""), None);
}

#[test]
fn locators_resolve_to_endpoints() {
    let tcp = Endpoint::resolve("tcp://example.org:9000/doc").unwrap();
    assert_eq!((tcp.transport, tcp.host.as_str(), tcp.port), (Transport::Tcp, "example.org", 9000));
    let tcp = Endpoint::resolve("tcp://10.0.0.1").unwrap();
    assert_eq!((tcp.transport, tcp.host.as_str(), tcp.port), (Transport::Tcp, "10.0.0.1", DEFAULT_TCP_PORT));
    let ws = Endpoint::resolve("ws://localhost:8080").unwrap();
    assert_eq!((ws.transport, ws.host.as_str(), ws.port), (Transport::Ws, "localhost", 8080));
    let ws = Endpoint::resolve("ws://localhost").unwrap();
    assert_eq!((ws.transport, ws.host.as_str(), ws.port), (Transport::Ws, "localhost", 80));
    assert_eq!(Endpoint::resolve("http://localhost").unwrap_err(), TransportError::UnsupportedScheme);
    assert_eq!(Endpoint::resolve("file:///a/b").unwrap_err(), TransportError::UnsupportedScheme);
    assert_eq!(Endpoint::resolve("not a url").unwrap_err(), TransportError::InvalidLocator);
    assert_eq!(Endpoint::resolve("tcp:no-host").unwrap_err(), TransportError::InvalidLocator);
}

#[test]
fn endpoints_from_parts() {
    let parts = |scheme: &str, host: Option<&str>, port: Option<u16>| Locator {
        scheme: scheme.to_string(),
        host: host.map(str::to_string),
        port,
    };
    let e = Endpoint::select(parts("tcp", Some("h"), None)).unwrap();
    assert_eq!((e.transport, e.host.as_str(), e.port), (Transport::Tcp, "h", DEFAULT_TCP_PORT));
    let e = Endpoint::select(parts("ws", Some("h"), Some(1))).unwrap();
    assert_eq!((e.transport, e.host.as_str(), e.port), (Transport::Ws, "h", 1));
    assert_eq!(Endpoint::select(parts("ws", Some("h"), None)).unwrap_err(), TransportError::InvalidLocator);
    assert_eq!(Endpoint::select(parts("ws", None, Some(1))).unwrap_err(), TransportError::InvalidLocator);
    assert_eq!(Endpoint::select(parts("ftp", Some("h"), Some(1))).unwrap_err(), TransportError::UnsupportedScheme);
    assert_eq!(Endpoint::select(parts("ftp", None, None)).unwrap_err(), TransportError::UnsupportedScheme);
}

#[test]
fn serving_a_call_and_concluding_it() {
    let source = json(r#"{"jsonrpc":"2.0","id":5,"method":"insert","params":{"char":"a","index":0}}"#);
    let request = match receive(Some(&source)) {
        Step::Handle { request, call } => {
            assert_eq!(call.method(), "insert");
            request
        }
        other => panic!("unexpected step: {:?}", other),
    };
    let done = conclude(&request, Ok(())).unwrap();
    assert_eq!(text(&done.to_json()), text(&json(r#"{"jsonrpc":"2.0","id":5,"result":{}}"#)));
    let failed = conclude(&request, Err(Error::ChannelClosed)).unwrap();
    assert_eq!(
        text(&failed.to_json()),
        text(&json(r#"{"jsonrpc":"2.0","id":5,"error":{"code":-32001,"message":"channel closed"}}"#))
    );
}

#[test]
fn serving_what_is_no_call() {
    let respond = |incoming: Option<&Json>| match receive(incoming) {
        Step::Respond(response) => text(&response.to_json()),
        other => panic!("unexpected step: {:?}", other),
    };
    // Text that is no JSON.
    assert_eq!(
        respond(None),
        text(&json(r#"{"jsonrpc":"2.0","id":null,"error":{"code":-32700,"message":"malformed message"}}"#))
    );
    // JSON that is no message.
    assert_eq!(
        respond(Some(&json(r#"{"jsonrpc":"1.0","id":1,"method":"open","params":{}}"#))),
        text(&json(r#"{"jsonrpc":"2.0","id":null,"error":{"code":-32600,"message":"version mismatch"}}"#))
    );
    // A call of a method that is none.
    assert_eq!(
        respond(Some(&json(r#"{"jsonrpc":"2.0","id":"x","method":"delete","params":{}}"#))),
        text(&json(r#"{"jsonrpc":"2.0","id":"x","error":{"code":-32601,"message":"unrecognized method"}}"#))
    );
    // A call with parameters that do not fit.
    assert_eq!(
        respond(Some(&json(r#"{"jsonrpc":"2.0","id":2,"method":"open","params":{"url":1}}"#))),
        text(&json(r#"{"jsonrpc":"2.0","id":2,"error":{"code":-32700,"message":"malformed message"}}"#))
    );
    // A notification gets no answer, whatever becomes of it; nor does a response.
    for source in [
        r#"{"jsonrpc":"2.0","method":"delete","params":{}}"#,
        r#"{"jsonrpc":"2.0","id":2,"result":{}}"#,
    ] {
        assert!(matches!(receive(Some(&json(source))), Step::Ignore), "{}", source);
    }
    match receive(Some(&json(r#"{"jsonrpc":"2.0","method":"open","params":{"url":"file:///a"}}"#))) {
        Step::Handle { request, .. } => {
            assert!(conclude(&request, Ok(())).is_none());
            assert!(conclude(&request, Err(Error::ChannelClosed)).is_none());
        }
        other => panic!("unexpected step: {:?}", other),
    }
}

#[test]
fn failures_in_words() {
    assert_eq!(Error::Transport(TransportError::ConnectionLost).message(), "connection lost");
    assert_eq!(Error::Transport(TransportError::Io).message(), "reading or writing failed");
    assert_eq!(Error::Transport(TransportError::UnsupportedScheme).message(), "unsupported URL scheme");
    assert_eq!(Error::Transport(TransportError::InvalidLocator).message(), "invalid locator");
    assert_eq!(Error::Protocol(ProtocolError::UnsupportedOperation).message(), "unsupported operation");
    let causality = Error::Causality(eb::document::engine::CausalityError {
        predecessor: eb::document::model::LogPosition(3),
    });
    assert_eq!(causality.message(), "unknown predecessor");
    let report = eb::rpc::serve::report(causality);
    assert_eq!(report.code, eb::jsonrpc::envelope::ErrorCode::InvalidParams);
    assert_eq!(report.message, "unknown predecessor");
    assert!(report.data.is_none());
}
