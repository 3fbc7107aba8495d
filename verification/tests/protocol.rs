use eb::error::ProtocolError;
use eb::json::Json;
use eb::jsonrpc::call::Call;
use eb::jsonrpc::envelope::{
    Error, ErrorCode, Message, Request, RequestKind, Response, ResponseKind, Version,
};
use eb::jsonrpc::id::Id;

fn from_value(value: &serde_json::Value) -> Json {
    match value {
        serde_json::Value::Null => Json::Null,
        serde_json::Value::Bool(b) => Json::Bool(*b),
        serde_json::Value::Number(n) => match n.as_i128() {
            Some(i) => Json::Integer(i),
            None => Json::Decimal(n.to_string()),
        },
        serde_json::Value::String(s) => Json::String(s.clone()),
        serde_json::Value::Array(items) => Json::Array(items.iter().map(from_value).collect()),
        serde_json::Value::Object(members) => {
            Json::Object(members.iter().map(|(k, v)| (k.clone(), from_value(v))).collect())
        }
    }
}

fn to_value(json: &Json) -> serde_json::Value {
    match json {
        Json::Null => serde_json::Value::Null,
        Json::Bool(b) => serde_json::Value::Bool(*b),
        Json::Integer(i) => serde_json::Value::Number(serde_json::Number::from_i128(*i).unwrap()),
        Json::Decimal(text) => serde_json::from_str(text).unwrap(),
        Json::String(s) => serde_json::Value::String(s.clone()),
        Json::Array(items) => serde_json::Value::Array(items.iter().map(to_value).collect()),
        Json::Object(members) => serde_json::Value::Object(
            members.iter().map(|(k, v)| (k.clone(), to_value(v))).collect(),
        ),
    }
}

fn json(text: &str) -> Json {
    from_value(&serde_json::from_str::<serde_json::Value>(text).unwrap())
}

fn text(json: &Json) -> String {
    serde_json::to_string(&to_value(json)).unwrap()
}

fn same(a: &Json, b: &Json) -> bool {
    a == b
}

#[test]
fn id_as_text() {
    assert_eq!(Id::Number(0).to_string(), "0");
    assert_eq!(Id::Number(7).to_string(), "7");
    assert_eq!(Id::Number(10).to_string(), "10");
    assert_eq!(Id::Number(-1).to_string(), "-1");
    assert_eq!(Id::Number(1234567890).to_string(), "1234567890");
    assert_eq!(Id::Number(i64::MAX).to_string(), "9223372036854775807");
    assert_eq!(Id::Number(i64::MIN).to_string(), "-9223372036854775808");
    assert_eq!(Id::Null.to_string(), "null");
    // A string is written as a quoted literal, not as it is.
    assert_eq!(Id::String("abc".to_string()).to_string(), "\"abc\"");
    assert_eq!(Id::String("a\"b\n".to_string()).to_string(), "\"a\\\"b\\n\"");
    assert_eq!(Id::String(String::new()).to_string(), "\"\"");
    // The text tells a string from a number and from null.
    assert_ne!(Id::String("7".to_string()).to_string(), Id::Number(7).to_string());
    assert_ne!(Id::String("null".to_string()).to_string(), Id::Null.to_string());
}

#[test]
fn id_equality_and_default() {
    assert_eq!(Id::default(), Id::Null);
    assert_eq!(Id::Number(1), Id::Number(1));
    assert_ne!(Id::Number(1), Id::Number(2));
    assert_ne!(Id::Number(1), Id::String("1".to_string()));
    assert_eq!(Id::String("x".to_string()), Id::String("x".to_string()));
    assert_ne!(Id::String("x".to_string()), Id::String("y".to_string()));
    assert_ne!(Id::Null, Id::Number(0));
    assert_eq!(Id::String("x".to_string()).clone(), Id::String("x".to_string()));
}

#[test]
fn id_json_form() {
    assert_eq!(Id::from_json(&Json::Integer(5)), Some(Id::Number(5)));
    assert_eq!(Id::from_json(&Json::Integer(-5)), Some(Id::Number(-5)));
    assert_eq!(Id::from_json(&Json::Integer(i64::MAX as i128 + 1)), None);
    assert_eq!(Id::from_json(&Json::Integer(i64::MIN as i128 - 1)), None);
    assert_eq!(Id::from_json(&Json::String("k".to_string())), Some(Id::String("k".to_string())));
    assert_eq!(Id::from_json(&Json::Null), Some(Id::Null));
    assert_eq!(Id::from_json(&Json::Bool(true)), None);
    assert_eq!(Id::from_json(&Json::Decimal("1.5".to_string())), None);
    assert_eq!(text(&Id::Number(3).to_json()), "3");
    assert_eq!(text(&Id::String("k".to_string()).to_json()), "\"k\"");
    assert_eq!(text(&Id::Null.to_json()), "null");
}

#[test]
fn version_is_two_point_zero() {
    assert_eq!(Version::parse("2.0"), Ok(Version));
    assert_eq!(Version::parse("1.0"), Err(ProtocolError::VersionMismatch));
    assert_eq!(Version::parse("2.00"), Err(ProtocolError::VersionMismatch));
    assert_eq!(Version::parse(""), Err(ProtocolError::VersionMismatch));
    assert_eq!(Version.as_str(), "2.0");
    assert_eq!(Version::from_json(&json(r#"{"jsonrpc":"2.0"}"#)), Ok(Version));
    assert_eq!(
        Version::from_json(&json(r#"{"jsonrpc":"1.1"}"#)),
        Err(ProtocolError::VersionMismatch)
    );
    assert_eq!(Version::from_json(&json(r#"{"jsonrpc":2}"#)), Err(ProtocolError::Malformed));
    assert_eq!(Version::from_json(&json(r#"{}"#)), Err(ProtocolError::Malformed));
    assert_eq!(Version::from_json(&json(r#"["2.0"]"#)), Err(ProtocolError::Malformed));
}

#[test]
fn error_codes_and_their_numbers() {
    let table = [
        (ErrorCode::ParseError, -32700),
        (ErrorCode::InvalidRequest, -32600),
        (ErrorCode::MethodNotFound, -32601),
        (ErrorCode::InvalidParams, -32602),
        (ErrorCode::InternalError, -32603),
        (ErrorCode::ServerError(-32000), -32000),
        (ErrorCode::ServerError(1), 1),
    ];
    for (code, number) in table {
        assert_eq!(code.code(), number);
        assert_eq!(ErrorCode::from_code(number), code);
    }
}

#[test]
fn request_is_read_and_written() {
    let source = r#"{"jsonrpc":"2.0","method":"insert","params":{"char":"a","index":0},"id":1}"#;
    let message = Message::from_json(&json(source)).unwrap();
    match &message {
        Message::Request(Request { jsonrpc, method, kind: RequestKind::Request { params, id } }) => {
            assert_eq!(*jsonrpc, Version);
            assert_eq!(method, "insert");
            assert_eq!(*id, Id::Number(1));
            assert!(same(params, &json(r#"{"char":"a","index":0}"#)));
        }
        other => panic!("unexpected message: {:?}", other),
    }
    assert_eq!(text(&message.to_json()), text(&json(source)));
}

#[test]
fn notification_has_no_id() {
    let source = r#"{"jsonrpc":"2.0","method":"update","params":{"content":"abc"}}"#;
    let message = Message::from_json(&json(source)).unwrap();
    match &message {
        Message::Request(Request { method, kind: RequestKind::Notification { params }, .. }) => {
            assert_eq!(method, "update");
            assert!(same(params, &json(r#"{"content":"abc"}"#)));
        }
        other => panic!("unexpected message: {:?}", other),
    }
    assert_eq!(text(&message.to_json()), text(&json(source)));
}

#[test]
fn response_holds_a_result_or_an_error_never_both() {
    let ok = Message::from_json(&json(r#"{"jsonrpc":"2.0","id":"k","result":{}}"#)).unwrap();
    match &ok {
        Message::Response(Response { id, kind: ResponseKind::Success { result }, .. }) => {
            assert_eq!(*id, Id::String("k".to_string()));
            assert!(same(result, &json("{}")));
        }
        other => panic!("unexpected message: {:?}", other),
    }
    let source = r#"{"jsonrpc":"2.0","id":null,"error":{"code":-32601,"message":"no such method","data":[1,2.5]}}"#;
    let failed = Message::from_json(&json(source)).unwrap();
    match &failed {
        Message::Response(Response { id, kind: ResponseKind::Failure { error }, .. }) => {
            assert_eq!(*id, Id::Null);
            assert_eq!(error.code, ErrorCode::MethodNotFound);
            assert_eq!(error.message, "no such method");
            assert!(same(error.data.as_ref().unwrap(), &json("[1,2.5]")));
        }
        other => panic!("unexpected message: {:?}", other),
    }
    assert_eq!(text(&failed.to_json()), text(&json(source)));
    for source in [
        r#"{"jsonrpc":"2.0","id":1,"result":1,"error":{"code":1,"message":"m"}}"#,
        r#"{"jsonrpc":"2.0","id":1}"#,
        r#"{"jsonrpc":"2.0","result":1}"#,
        r#"{"jsonrpc":"2.0","id":1.5,"result":1}"#,
        r#"{"jsonrpc":"2.0","id":1,"error":"bare string"}"#,
        r#"{"jsonrpc":"2.0","id":1,"error":{"code":"x","message":"m"}}"#,
        r#"{"jsonrpc":"2.0","id":1,"error":{"code":1}}"#,
    ] {
        assert_eq!(
            Message::from_json(&json(source)).unwrap_err(),
            ProtocolError::Malformed,
            "{}",
            source
        );
    }
}

#[test]
fn messages_that_are_none() {
    for (source, expected) in [
        (r#"{"jsonrpc":"1.0","method":"insert","params":{},"id":1}"#, ProtocolError::VersionMismatch),
        (r#"{"method":"insert","params":{},"id":1}"#, ProtocolError::Malformed),
        (r#"{"jsonrpc":"2.0","method":7,"params":{},"id":1}"#, ProtocolError::Malformed),
        (r#"{"jsonrpc":"2.0","method":"insert","id":1}"#, ProtocolError::Malformed),
        (r#"{"jsonrpc":"2.0","method":"insert","params":{},"id":true}"#, ProtocolError::Malformed),
        (r#"[]"#, ProtocolError::Malformed),
        (r#""text""#, ProtocolError::Malformed),
    ] {
        assert_eq!(Message::from_json(&json(source)).unwrap_err(), expected, "{}", source);
    }
}

#[test]
fn written_messages_are_read_back() {
    let failure = Error {
        code: ErrorCode::ServerError(-32001),
        message: "closed".to_string(),
        data: Some(json(r#"{"why":[null,true]}"#)),
    };
    let messages = vec![
        Message::Response(Response::from_ok(Id::Number(-4), json(r#"{"a":[1,"x"]}"#))),
        Message::Response(Response::from_error(Id::String("z".to_string()), failure)),
        Message::Request(Request {
            jsonrpc: Version,
            method: "open".to_string(),
            kind: RequestKind::Notification { params: json(r#"{"url":"file:///a"}"#) },
        }),
    ];
    for message in messages {
        let written = message.to_json();
        assert_eq!(Message::from_json(&written).unwrap(), message);
        assert_eq!(message.clone(), message);
    }
}

#[test]
fn call_ignores_other_traffic_until_its_response_arrives() {
    let (call, request) = Call::new("insert", json(r#"{"char":"a","index":0}"#), Id::Number(1))
        .expect("a number starts a call");
    assert_eq!(call.id(), &Id::Number(1));
    assert_eq!(
        text(&request.to_json()),
        text(&json(r#"{"jsonrpc":"2.0","method":"insert","params":{"char":"a","index":0},"id":1}"#))
    );

    // The response to another call comes first: it is discarded.
    let other = Message::from_json(&json(r#"{"jsonrpc":"2.0","id":2,"result":"other"}"#)).unwrap();
    assert!(call.receive(other).is_none());
    // So is a request that arrives meanwhile.
    let update =
        Message::from_json(&json(r#"{"jsonrpc":"2.0","method":"update","params":{}}"#)).unwrap();
    assert!(call.receive(update).is_none());
    // And a response whose identifier is the same text, but no number.
    let text_id = Message::from_json(&json(r#"{"jsonrpc":"2.0","id":"1","result":0}"#)).unwrap();
    assert!(call.receive(text_id).is_none());
    // Then the response to this call: the call completes with its result.
    let mine = Message::from_json(&json(r#"{"jsonrpc":"2.0","id":1,"result":{"done":true}}"#)).unwrap();
    match call.receive(mine) {
        Some(Ok(result)) => assert!(same(&result, &json(r#"{"done":true}"#))),
        other => panic!("unexpected end of the call: {:?}", other),
    }
}

#[test]
fn call_surfaces_the_error_of_its_response() {
    let (call, _) = Call::new("open", Json::Null, Id::String("q".to_string())).unwrap();
    let source = r#"{"jsonrpc":"2.0","id":"q","error":{"code":-32602,"message":"bad params"}}"#;
    match call.receive(Message::from_json(&json(source)).unwrap()) {
        Some(Err(error)) => {
            assert_eq!(error.code, ErrorCode::InvalidParams);
            assert_eq!(error.message, "bad params");
            assert!(error.data.is_none());
        }
        other => panic!("unexpected end of the call: {:?}", other),
    }
}

#[test]
fn null_starts_no_call() {
    assert!(Call::new("insert", Json::Null, Id::Null).is_none());
}

#[test]
fn a_call_is_answered_under_its_id_and_a_notification_not_at_all() {
    let call = Request {
        jsonrpc: Version,
        method: "insert".to_string(),
        kind: RequestKind::Request { params: Json::Null, id: Id::Number(9) },
    };
    let ok = call.answer(Ok(json("{}"))).unwrap();
    assert_eq!(ok.id, Id::Number(9));
    assert!(ok.is_ok());
    assert_eq!(text(&ok.to_json()), text(&json(r#"{"jsonrpc":"2.0","id":9,"result":{}}"#)));
    let failed = call
        .answer(Err(Error {
            code: ErrorCode::InternalError,
            message: "boom".to_string(),
            data: None,
        }))
        .unwrap();
    assert!(!failed.is_ok());
    assert_eq!(
        text(&failed.to_json()),
        text(&json(r#"{"jsonrpc":"2.0","id":9,"error":{"code":-32603,"message":"boom"}}"#))
    );
    let notification = Request {
        jsonrpc: Version,
        method: "open".to_string(),
        kind: RequestKind::Notification { params: Json::Null },
    };
    assert!(notification.answer(Ok(Json::Null)).is_none());
}

#[test]
fn json_members_and_copies() {
    let value = json(r#"{"a":1,"b":{"c":[true,null,"s",2.5]},"a":2}"#);
    assert!(same(value.get("a").unwrap(), &json("2")));
    assert!(value.get("c").is_none());
    assert!(value.get("").is_none());
    let inner = value.get("b").unwrap();
    assert!(same(inner.get("c").unwrap(), &json(r#"[true,null,"s",2.5]"#)));
    assert!(Json::Null.get("a").is_none());
    assert!(json("[1]").get("0").is_none());
    assert!(same(&value.duplicate(), &value));
    assert_eq!(value.clone(), value);
    assert_ne!(json(r#"{"a":1,"b":2}"#), json(r#"{"a":1,"b":3}"#));
    assert_ne!(json(r#"{"a":1,"b":2}"#), json(r#"{"a":1,"c":2}"#));
    assert_ne!(json(r#"[1,2]"#), json(r#"[1,2,3]"#));
    assert_ne!(json(r#"[1,[2]]"#), json(r#"[1,[3]]"#));
    assert_ne!(json("1"), json("\"1\""));
    assert_ne!(json("1"), json("1.0"));
    assert_eq!(json(r#"[1,{"k":[null,"s",true]}]"#), json(r#"[1, {"k": [null, "s", true]}]"#));
    assert_eq!(json("\"s\"").as_string(), Some(&"s".to_string()));
    assert_eq!(json("1").as_string(), None);
    assert_eq!(json("-12").as_integer(), Some(-12));
    assert_eq!(json("1.5").as_integer(), None);
    assert!(json("null").is_null());
    assert!(!json("0").is_null());
    // The first member with the name is the one that is found.
    let twice = Json::Object(vec![
        ("k".to_string(), Json::Integer(1)),
        ("k".to_string(), Json::Integer(2)),
    ]);
    assert_eq!(twice.get("k").unwrap().as_integer(), Some(1));
}
