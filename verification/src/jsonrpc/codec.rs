//! The JSON form of the envelopes.

use crate::error::ProtocolError;
use crate::json::{Json, JsonView};
use crate::jsonrpc::envelope::{
    version_text, Error, ErrorCode, ErrorView, Message, MessageView, Request, RequestKind,
    RequestKindView, RequestView, Response, ResponseKind, ResponseKindView, ResponseView, Version,
};
use crate::jsonrpc::id::{Id, IdView};
use vstd::prelude::*;
use vstd::string::StringExecFns;

verus! {

/// The identifier that a JSON value stands for: an integer that fits 64
/// bits, a string, or null.
pub open spec fn decode_id(j: JsonView) -> Option<IdView> {
    match j {
        JsonView::Integer(n) => if i64::MIN <= n <= i64::MAX {
            Some(IdView::Number(n as i64))
        } else {
            None
        },
        JsonView::String(s) => Some(IdView::String(s)),
        JsonView::Null => Some(IdView::Null),
        _ => None,
    }
}

/// The JSON value that stands for an identifier.
pub open spec fn encode_id(id: IdView) -> JsonView {
    match id {
        IdView::Number(n) => JsonView::Integer(n as i128),
        IdView::String(s) => JsonView::String(s),
        IdView::Null => JsonView::Null,
    }
}

/// The version that a message names: its member "jsonrpc" must be the
/// string "2.0".
pub open spec fn decode_version(j: JsonView) -> Result<Version, ProtocolError> {
    match j.get("jsonrpc"@) {
        Some(JsonView::String(s)) => if s == version_text() {
            Ok(Version)
        } else {
            Err(ProtocolError::VersionMismatch)
        },
        _ => Err(ProtocolError::Malformed),
    }
}

/// The failure that a JSON value stands for: an object with an integer
/// "code" that fits 64 bits and a string "message"; "data" is optional.
pub open spec fn decode_error(j: JsonView) -> Option<ErrorView> {
    match (j.get("code"@), j.get("message"@)) {
        (Some(JsonView::Integer(c)), Some(JsonView::String(m))) => if i64::MIN <= c <= i64::MAX {
            Some(ErrorView { code: ErrorCode::of(c as int), message: m, data: j.get("data"@) })
        } else {
            None
        },
        _ => None,
    }
}

/// The JSON value that stands for a failure.
pub open spec fn encode_error(e: ErrorView) -> JsonView {
    JsonView::Object(
        seq![
            ("code"@, JsonView::Integer(e.code.number() as i128)),
            ("message"@, JsonView::String(e.message)),
        ] + match e.data {
            Some(d) => seq![("data"@, d)],
            None => Seq::empty(),
        },
    )
}

/// The request that a JSON object stands for: "method" must be a string
/// and "params" present; with an "id" it is a call, without one a
/// notification.
pub open spec fn decode_request(j: JsonView) -> Result<RequestView, ProtocolError> {
    match (j.get("method"@), j.get("params"@)) {
        (Some(JsonView::String(method)), Some(params)) => match j.get("id"@) {
            None => Ok(RequestView { method, kind: RequestKindView::Notification { params } }),
            Some(i) => match decode_id(i) {
                Some(id) => Ok(RequestView { method, kind: RequestKindView::Request { params, id } }),
                None => Err(ProtocolError::Malformed),
            },
        },
        _ => Err(ProtocolError::Malformed),
    }
}

/// The response that a JSON object stands for: "id" must be an identifier,
/// and of "result" and "error" exactly one must be present.
pub open spec fn decode_response(j: JsonView) -> Result<ResponseView, ProtocolError> {
    match j.get("id"@) {
        Some(i) => match decode_id(i) {
            Some(id) => match (j.get("result"@), j.get("error"@)) {
                (Some(result), None) => Ok(
                    ResponseView { id, kind: ResponseKindView::Success { result } },
                ),
                (None, Some(e)) => match decode_error(e) {
                    Some(error) => Ok(ResponseView { id, kind: ResponseKindView::Failure { error } }),
                    None => Err(ProtocolError::Malformed),
                },
                _ => Err(ProtocolError::Malformed),
            },
            None => Err(ProtocolError::Malformed),
        },
        None => Err(ProtocolError::Malformed),
    }
}

/// The message that a JSON value stands for: an object of version "2.0";
/// a request where it has a "method", a response where it has none.
pub open spec fn decode_message(j: JsonView) -> Result<MessageView, ProtocolError> {
    match decode_version(j) {
        Err(e) => Err(e),
        Ok(_) => if j.get("method"@) is Some {
            match decode_request(j) {
                Ok(r) => Ok(MessageView::Request(r)),
                Err(e) => Err(e),
            }
        } else {
            match decode_response(j) {
                Ok(r) => Ok(MessageView::Response(r)),
                Err(e) => Err(e),
            }
        },
    }
}

/// The JSON value that stands for a request.
pub open spec fn encode_request(r: RequestView) -> JsonView {
    JsonView::Object(
        seq![
            ("jsonrpc"@, JsonView::String(version_text())),
            ("method"@, JsonView::String(r.method)),
        ] + match r.kind {
            RequestKindView::Request { params, id } => seq![
                ("params"@, params),
                ("id"@, encode_id(id)),
            ],
            RequestKindView::Notification { params } => seq![("params"@, params)],
        },
    )
}

/// The JSON value that stands for a response.
pub open spec fn encode_response(r: ResponseView) -> JsonView {
    JsonView::Object(
        seq![("jsonrpc"@, JsonView::String(version_text())), ("id"@, encode_id(r.id))] + match r.kind {
            ResponseKindView::Success { result } => seq![("result"@, result)],
            ResponseKindView::Failure { error } => seq![("error"@, encode_error(error))],
        },
    )
}

/// The JSON value that stands for a message.
pub open spec fn encode_message(m: MessageView) -> JsonView {
    match m {
        MessageView::Request(r) => encode_request(r),
        MessageView::Response(r) => encode_response(r),
    }
}

impl Id {
    /// Reads an identifier from its JSON form.
    pub fn from_json(json: &Json) -> (r: Option<Id>)
        ensures
            match r {
                Some(id) => decode_id(json@) == Some(id@),
                None => decode_id(json@) is None,
            },
    {
        match json {
            Json::Integer(n) => {
                if *n >= i64::MIN as i128 && *n <= i64::MAX as i128 {
                    Some(Id::Number(*n as i64))
                } else {
                    None
                }
            },
            Json::String(s) => Some(Id::String(s.clone())),
            Json::Null => Some(Id::Null),
            _ => None,
        }
    }

    /// The JSON form of the identifier.
    pub fn to_json(&self) -> (r: Json)
        ensures
            r@ == encode_id(self@),
    {
        match self {
            Id::Number(n) => Json::Integer(*n as i128),
            Id::String(s) => Json::String(s.clone()),
            Id::Null => Json::Null,
        }
    }
}

impl Version {
    /// Reads the version that a message names.
    pub fn from_json(json: &Json) -> (r: Result<Version, ProtocolError>)
        ensures
            r == decode_version(json@),
    {
        match json.get("jsonrpc") {
            Some(Json::String(s)) => Version::parse(s.as_str()),
            _ => Err(ProtocolError::Malformed),
        }
    }
}

impl Error {
    /// Reads a failure from its JSON form.
    pub fn from_json(json: &Json) -> (r: Option<Error>)
        ensures
            match r {
                Some(e) => decode_error(json@) == Some(e@),
                None => decode_error(json@) is None,
            },
    {
        let code = match json.get("code") {
            Some(Json::Integer(c)) => {
                if *c >= i64::MIN as i128 && *c <= i64::MAX as i128 {
                    ErrorCode::from_code(*c as i64)
                } else {
                    return None;
                }
            },
            _ => {
                return None;
            },
        };
        let message = match json.get("message") {
            Some(Json::String(m)) => m.clone(),
            _ => {
                return None;
            },
        };
        let data = match json.get("data") {
            Some(d) => Some(d.duplicate()),
            None => None,
        };
        Some(Error { code, message, data })
    }

    /// The JSON form of the failure.
    pub fn to_json(&self) -> (r: Json)
        ensures
            r@ == encode_error(self@),
    {
        let mut members: Vec<(String, Json)> = Vec::new();
        members.push((String::from_str("code"), Json::Integer(self.code.code() as i128)));
        members.push((String::from_str("message"), Json::String(self.message.clone())));
        match &self.data {
            Some(d) => {
                members.push((String::from_str("data"), d.duplicate()));
            },
            None => {},
        }
        let r = Json::Object(members);
        proof {
            crate::json::lemma_member_models(members@);
            assert(r@->Object_0 =~= encode_error(self@)->Object_0);
        }
        r
    }
}

impl Request {
    /// Reads a request from a JSON object whose version was read already.
    pub fn from_json(json: &Json) -> (r: Result<Request, ProtocolError>)
        ensures
            match r {
                Ok(request) => decode_request(json@) == Ok::<RequestView, ProtocolError>(request@),
                Err(e) => decode_request(json@) == Err::<RequestView, ProtocolError>(e),
            },
    {
        let method = match json.get("method") {
            Some(Json::String(m)) => m.clone(),
            _ => {
                return Err(ProtocolError::Malformed);
            },
        };
        let params = match json.get("params") {
            Some(p) => p.duplicate(),
            None => {
                return Err(ProtocolError::Malformed);
            },
        };
        match json.get("id") {
            None => Ok(
                Request { jsonrpc: Version, method, kind: RequestKind::Notification { params } },
            ),
            Some(i) => match Id::from_json(i) {
                Some(id) => Ok(
                    Request { jsonrpc: Version, method, kind: RequestKind::Request { params, id } },
                ),
                None => Err(ProtocolError::Malformed),
            },
        }
    }

    /// The JSON form of the request.
    pub fn to_json(&self) -> (r: Json)
        ensures
            r@ == encode_request(self@),
    {
        let mut members: Vec<(String, Json)> = Vec::new();
        members.push(
            (String::from_str("jsonrpc"), Json::String(String::from_str(self.jsonrpc.as_str()))),
        );
        members.push((String::from_str("method"), Json::String(self.method.clone())));
        match &self.kind {
            RequestKind::Request { params, id } => {
                members.push((String::from_str("params"), params.duplicate()));
                members.push((String::from_str("id"), id.to_json()));
            },
            RequestKind::Notification { params } => {
                members.push((String::from_str("params"), params.duplicate()));
            },
        }
        let r = Json::Object(members);
        proof {
            crate::json::lemma_member_models(members@);
            assert(r@->Object_0 =~= encode_request(self@)->Object_0);
        }
        r
    }
}

impl Response {
    /// Reads a response from a JSON object whose version was read already.
    pub fn from_json(json: &Json) -> (r: Result<Response, ProtocolError>)
        ensures
            match r {
                Ok(response) => decode_response(json@) == Ok::<ResponseView, ProtocolError>(
                    response@,
                ),
                Err(e) => decode_response(json@) == Err::<ResponseView, ProtocolError>(e),
            },
    {
        let id = match json.get("id") {
            Some(i) => match Id::from_json(i) {
                Some(id) => id,
                None => {
                    return Err(ProtocolError::Malformed);
                },
            },
            None => {
                return Err(ProtocolError::Malformed);
            },
        };
        match (json.get("result"), json.get("error")) {
            (Some(result), None) => Ok(Response::from_ok(id, result.duplicate())),
            (None, Some(e)) => match Error::from_json(e) {
                Some(error) => Ok(Response::from_error(id, error)),
                None => Err(ProtocolError::Malformed),
            },
            _ => Err(ProtocolError::Malformed),
        }
    }

    /// The JSON form of the response.
    pub fn to_json(&self) -> (r: Json)
        ensures
            r@ == encode_response(self@),
    {
        let mut members: Vec<(String, Json)> = Vec::new();
        members.push(
            (String::from_str("jsonrpc"), Json::String(String::from_str(self.jsonrpc.as_str()))),
        );
        members.push((String::from_str("id"), self.id.to_json()));
        match &self.kind {
            ResponseKind::Success { result } => {
                members.push((String::from_str("result"), result.duplicate()));
            },
            ResponseKind::Failure { error } => {
                members.push((String::from_str("error"), error.to_json()));
            },
        }
        let r = Json::Object(members);
        proof {
            crate::json::lemma_member_models(members@);
            assert(r@->Object_0 =~= encode_response(self@)->Object_0);
        }
        r
    }
}

impl Message {
    /// Reads a message from its JSON form.
    pub fn from_json(json: &Json) -> (r: Result<Message, ProtocolError>)
        ensures
            match r {
                Ok(message) => decode_message(json@) == Ok::<MessageView, ProtocolError>(message@),
                Err(e) => decode_message(json@) == Err::<MessageView, ProtocolError>(e),
            },
    {
        match Version::from_json(json) {
            Err(e) => {
                return Err(e);
            },
            Ok(_) => {},
        }
        if json.get("method").is_some() {
            match Request::from_json(json) {
                Ok(request) => Ok(Message::Request(request)),
                Err(e) => Err(e),
            }
        } else {
            match Response::from_json(json) {
                Ok(response) => Ok(Message::Response(response)),
                Err(e) => Err(e),
            }
        }
    }

    /// The JSON form of the message.
    pub fn to_json(&self) -> (r: Json)
        ensures
            r@ == encode_message(self@),
    {
        match self {
            Message::Request(request) => request.to_json(),
            Message::Response(response) => response.to_json(),
        }
    }
}

} // verus!
