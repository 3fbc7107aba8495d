//! The envelopes: requests, notifications and responses.

use crate::error::ProtocolError;
use crate::json::{Json, JsonView};
use crate::jsonrpc::id::{Id, IdView};
use crate::text::str_eq;
use vstd::prelude::*;

verus! {

/// The protocol version, which is always "2.0".
#[derive(Clone, Copy, Debug, PartialEq, Eq, Structural)]
pub struct Version;

/// The text of the only protocol version.
pub open spec fn version_text() -> Seq<char> {
    seq!['2', '.', '0']
}

impl Version {
    /// Reads a version: the text "2.0" and nothing else is one.
    pub fn parse(text: &str) -> (r: Result<Version, ProtocolError>)
        ensures
            r == if text@ == version_text() {
                Ok::<Version, ProtocolError>(Version)
            } else {
                Err::<Version, ProtocolError>(ProtocolError::VersionMismatch)
            },
    {
        proof {
            reveal_strlit("2.0");
            assert("2.0"@ =~= version_text());
        }
        if str_eq(text, "2.0") {
            Ok(Version)
        } else {
            Err(ProtocolError::VersionMismatch)
        }
    }

    /// The version as text.
    pub fn as_str(&self) -> (text: &'static str)
        ensures
            text@ == version_text(),
    {
        proof {
            reveal_strlit("2.0");
            assert("2.0"@ =~= version_text());
        }
        "2.0"
    }
}

/// The machine-readable category of a failure that a response reports.
#[derive(Clone, Copy, Debug, PartialEq, Eq, Structural)]
pub enum ErrorCode {
    /// The payload was not JSON.
    ParseError,
    /// The payload was no request.
    InvalidRequest,
    /// The receiver does not know the method.
    MethodNotFound,
    /// The parameters do not fit the method.
    InvalidParams,
    /// The receiver failed while it handled the request.
    InternalError,
    /// A failure that the receiver defines, with a code that is none of
    /// the five above.
    ServerError(i64),
}

impl ErrorCode {
    /// The number that stands for the category on the wire.
    pub open spec fn number(self) -> int {
        match self {
            ErrorCode::ParseError => -32700,
            ErrorCode::InvalidRequest => -32600,
            ErrorCode::MethodNotFound => -32601,
            ErrorCode::InvalidParams => -32602,
            ErrorCode::InternalError => -32603,
            ErrorCode::ServerError(code) => code as int,
        }
    }

    /// The category that the number `code` stands for.
    pub open spec fn of(code: int) -> ErrorCode {
        if code == -32700 {
            ErrorCode::ParseError
        } else if code == -32600 {
            ErrorCode::InvalidRequest
        } else if code == -32601 {
            ErrorCode::MethodNotFound
        } else if code == -32602 {
            ErrorCode::InvalidParams
        } else if code == -32603 {
            ErrorCode::InternalError
        } else {
            ErrorCode::ServerError(code as i64)
        }
    }

    /// Whether the category is the one that its number stands for: a
    /// `ServerError` holds none of the five reserved numbers.
    pub open spec fn canonical(self) -> bool {
        ErrorCode::of(self.number()) == self
    }

    /// The number that stands for the category on the wire.
    pub fn code(&self) -> (r: i64)
        ensures
            r == self.number(),
    {
        match self {
            ErrorCode::ParseError => -32700,
            ErrorCode::InvalidRequest => -32600,
            ErrorCode::MethodNotFound => -32601,
            ErrorCode::InvalidParams => -32602,
            ErrorCode::InternalError => -32603,
            ErrorCode::ServerError(code) => *code,
        }
    }

    /// The category that the number `code` stands for.
    pub fn from_code(code: i64) -> (r: ErrorCode)
        ensures
            r == ErrorCode::of(code as int),
            r.canonical(),
            r.number() == code,
    {
        if code == -32700 {
            ErrorCode::ParseError
        } else if code == -32600 {
            ErrorCode::InvalidRequest
        } else if code == -32601 {
            ErrorCode::MethodNotFound
        } else if code == -32602 {
            ErrorCode::InvalidParams
        } else if code == -32603 {
            ErrorCode::InternalError
        } else {
            ErrorCode::ServerError(code)
        }
    }
}

/// The failure that a response reports: a category, a message for people,
/// and data for programs where there is any.
#[derive(Debug, Clone, PartialEq)]
pub struct Error {
    pub code: ErrorCode,
    pub message: String,
    pub data: Option<Json>,
}

/// What a reported failure is.
pub ghost struct ErrorView {
    pub code: ErrorCode,
    pub message: Seq<char>,
    pub data: Option<JsonView>,
}

impl View for Error {
    type V = ErrorView;

    open spec fn view(&self) -> ErrorView {
        ErrorView {
            code: self.code,
            message: self.message@,
            data: match self.data {
                Some(d) => Some(d@),
                None => None,
            },
        }
    }
}

/// What tells a call from a notification: a call carries the identifier
/// under which its response is expected.
#[derive(Debug, Clone, PartialEq)]
pub enum RequestKind {
    Request { params: Json, id: Id },
    Notification { params: Json },
}

/// What the kind of a request is.
pub ghost enum RequestKindView {
    Request { params: JsonView, id: IdView },
    Notification { params: JsonView },
}

impl View for RequestKind {
    type V = RequestKindView;

    open spec fn view(&self) -> RequestKindView {
        match self {
            RequestKind::Request { params, id } => RequestKindView::Request {
                params: params@,
                id: id@,
            },
            RequestKind::Notification { params } => RequestKindView::Notification {
                params: params@,
            },
        }
    }
}

/// A request: a method, its parameters, and for a call its identifier.
#[derive(Debug, Clone, PartialEq)]
pub struct Request {
    pub jsonrpc: Version,
    pub method: String,
    pub kind: RequestKind,
}

/// What a request is.
pub ghost struct RequestView {
    pub method: Seq<char>,
    pub kind: RequestKindView,
}

impl View for Request {
    type V = RequestView;

    open spec fn view(&self) -> RequestView {
        RequestView { method: self.method@, kind: self.kind@ }
    }
}

/// The two outcomes of a call: a result, or a failure. Never both.
#[derive(Debug, Clone, PartialEq)]
pub enum ResponseKind {
    Success { result: Json },
    Failure { error: Error },
}

/// What the outcome of a call is.
pub ghost enum ResponseKindView {
    Success { result: JsonView },
    Failure { error: ErrorView },
}

impl View for ResponseKind {
    type V = ResponseKindView;

    open spec fn view(&self) -> ResponseKindView {
        match self {
            ResponseKind::Success { result } => ResponseKindView::Success { result: result@ },
            ResponseKind::Failure { error } => ResponseKindView::Failure { error: error@ },
        }
    }
}

/// The response to a call: the identifier of the call, and its outcome.
#[derive(Debug, Clone, PartialEq)]
pub struct Response {
    pub jsonrpc: Version,
    pub id: Id,
    pub kind: ResponseKind,
}

/// What a response is.
pub ghost struct ResponseView {
    pub id: IdView,
    pub kind: ResponseKindView,
}

impl View for Response {
    type V = ResponseView;

    open spec fn view(&self) -> ResponseView {
        ResponseView { id: self.id@, kind: self.kind@ }
    }
}

impl Response {
    /// The response that answers the call `id` with `result`.
    pub fn from_ok(id: Id, result: Json) -> (r: Response)
        ensures
            r@ == (ResponseView { id: id@, kind: ResponseKindView::Success { result: result@ } }),
    {
        Response { jsonrpc: Version, id, kind: ResponseKind::Success { result } }
    }

    /// The response that answers the call `id` with the failure `error`.
    pub fn from_error(id: Id, error: Error) -> (r: Response)
        ensures
            r@ == (ResponseView { id: id@, kind: ResponseKindView::Failure { error: error@ } }),
    {
        Response { jsonrpc: Version, id, kind: ResponseKind::Failure { error } }
    }

    /// Whether the response reports a result.
    pub fn is_ok(&self) -> (r: bool)
        ensures
            r == (self@.kind is Success),
    {
        match self.kind {
            ResponseKind::Success { .. } => true,
            ResponseKind::Failure { .. } => false,
        }
    }
}

/// A message of the protocol.
#[derive(Debug, Clone, PartialEq)]
pub enum Message {
    Request(Request),
    Response(Response),
}

/// What a message is.
pub ghost enum MessageView {
    Request(RequestView),
    Response(ResponseView),
}

impl View for Message {
    type V = MessageView;

    open spec fn view(&self) -> MessageView {
        match self {
            Message::Request(r) => MessageView::Request(r@),
            Message::Response(r) => MessageView::Response(r@),
        }
    }
}

} // verus!
