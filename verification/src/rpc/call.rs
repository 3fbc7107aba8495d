//! A call of one of the coordinator's methods, with its parameters read.

use crate::error::ProtocolError;
use crate::json::{Json, JsonView};
use crate::jsonrpc::codec::decode_message;
use crate::jsonrpc::envelope::{
    Message, MessageView, RequestKind, RequestKindView, RequestView, Version,
};
use crate::jsonrpc::id::{Id, IdView};
use crate::text::str_eq;
use vstd::prelude::*;

verus! {

/// A method of the coordinator, with its parameters.
#[derive(Debug, Clone, PartialEq)]
pub enum RequestCall {
    Insert(crate::rpc::insert::Request),
    Open(crate::rpc::open::Request),
}

/// What a call is.
pub ghost enum RequestCallView {
    Insert(crate::rpc::insert::Request),
    Open(Seq<char>),
}

impl RequestCallView {
    /// The name of the method.
    pub open spec fn method(self) -> Seq<char> {
        match self {
            RequestCallView::Insert(_) => "insert"@,
            RequestCallView::Open(_) => "open"@,
        }
    }

    /// The JSON form of the parameters.
    pub open spec fn params(self) -> JsonView {
        match self {
            RequestCallView::Insert(r) => crate::rpc::insert::encode_params(r),
            RequestCallView::Open(url) => crate::rpc::open::encode_params(url),
        }
    }
}

impl View for RequestCall {
    type V = RequestCallView;

    open spec fn view(&self) -> RequestCallView {
        match self {
            RequestCall::Insert(r) => RequestCallView::Insert(*r),
            RequestCall::Open(r) => RequestCallView::Open(r@),
        }
    }
}

/// The call that a method name and parameters stand for.
///
/// A method other than "insert" and "open" is not recognized; parameters
/// that do not fit the method are malformed.
pub open spec fn decode_call(method: Seq<char>, params: JsonView) -> Result<
    RequestCallView,
    ProtocolError,
> {
    if method == "insert"@ {
        match crate::rpc::insert::decode_params(params) {
            Some(r) => Ok(RequestCallView::Insert(r)),
            None => Err(ProtocolError::Malformed),
        }
    } else if method == "open"@ {
        match crate::rpc::open::decode_params(params) {
            Some(url) => Ok(RequestCallView::Open(url)),
            None => Err(ProtocolError::Malformed),
        }
    } else {
        Err(ProtocolError::UnrecognizedMethod)
    }
}

impl RequestCall {
    /// Reads a call from the name of its method and its parameters.
    pub fn decode(method: &str, params: &Json) -> (r: Result<RequestCall, ProtocolError>)
        ensures
            match r {
                Ok(call) => decode_call(method@, params@) == Ok::<RequestCallView, ProtocolError>(
                    call@,
                ),
                Err(e) => decode_call(method@, params@) == Err::<RequestCallView, ProtocolError>(e),
            },
    {
        if str_eq(method, "insert") {
            match crate::rpc::insert::Request::from_json(params) {
                Some(r) => Ok(RequestCall::Insert(r)),
                None => Err(ProtocolError::Malformed),
            }
        } else if str_eq(method, "open") {
            match crate::rpc::open::Request::from_json(params) {
                Some(r) => Ok(RequestCall::Open(r)),
                None => Err(ProtocolError::Malformed),
            }
        } else {
            Err(ProtocolError::UnrecognizedMethod)
        }
    }

    /// The name of the method.
    pub fn method(&self) -> (name: &'static str)
        ensures
            name@ == self@.method(),
    {
        match self {
            RequestCall::Insert(_) => "insert",
            RequestCall::Open(_) => "open",
        }
    }

    /// The JSON form of the parameters.
    pub fn params(&self) -> (json: Json)
        ensures
            json@ == self@.params(),
    {
        match self {
            RequestCall::Insert(r) => r.to_json(),
            RequestCall::Open(r) => r.to_json(),
        }
    }

    /// The frame that asks for the same.
    pub fn into_frame(self) -> (frame: crate::frame::client::Frame)
        ensures
            frame@ == match self@ {
                RequestCallView::Insert(r) => crate::frame::client::FrameView::Insert {
                    char: r.char,
                    index: r.index,
                },
                RequestCallView::Open(url) => crate::frame::client::FrameView::Open { url },
            },
    {
        match self {
            RequestCall::Insert(r) => crate::frame::client::Frame::Insert {
                char: r.char,
                index: r.index,
            },
            RequestCall::Open(r) => crate::frame::client::Frame::Open { url: r.url },
        }
    }
}

/// A call as it arrives: the version of the protocol, the number under
/// which the response is expected, and the method with its parameters.
#[derive(Debug, Clone, PartialEq)]
pub struct Request {
    version: Version,
    id: usize,
    call: RequestCall,
}

/// What a call that arrived is.
pub ghost struct CallView {
    pub id: usize,
    pub call: RequestCallView,
}

impl View for Request {
    type V = CallView;

    closed spec fn view(&self) -> CallView {
        CallView { id: self.id, call: self.call@ }
    }
}

/// The call that a JSON value stands for: a request of the protocol whose
/// identifier is a number that is not negative, and whose method and
/// parameters are those of a call.
pub open spec fn decode_request(j: JsonView) -> Result<CallView, ProtocolError> {
    match decode_message(j) {
        Ok(
            MessageView::Request(
                RequestView { method, kind: RequestKindView::Request { params, id: IdView::Number(n) } },
            ),
        ) => if 0 <= n <= usize::MAX {
            match decode_call(method, params) {
                Ok(call) => Ok(CallView { id: n as usize, call }),
                Err(e) => Err(e),
            }
        } else {
            Err(ProtocolError::Malformed)
        },
        Ok(_) => Err(ProtocolError::Malformed),
        Err(e) => Err(e),
    }
}

impl Request {
    /// A call of version "2.0".
    pub fn new(version: Version, id: usize, call: RequestCall) -> (r: Request)
        ensures
            r@ == (CallView { id, call: call@ }),
    {
        Request { version, id, call }
    }

    /// The version of the protocol.
    pub fn version(&self) -> (version: Version)
        ensures
            version == Version,
    {
        self.version
    }

    /// The number under which the response is expected.
    pub fn id(&self) -> (id: usize)
        ensures
            id == self@.id,
    {
        self.id
    }

    /// The method with its parameters.
    pub fn call(&self) -> (call: &RequestCall)
        ensures
            call@ == self@.call,
    {
        &self.call
    }

    /// Reads a call from its JSON form.
    pub fn from_json(json: &Json) -> (r: Result<Request, ProtocolError>)
        ensures
            match r {
                Ok(request) => decode_request(json@) == Ok::<CallView, ProtocolError>(request@),
                Err(e) => decode_request(json@) == Err::<CallView, ProtocolError>(e),
            },
    {
        match Message::from_json(json) {
            Ok(Message::Request(request)) => match &request.kind {
                RequestKind::Request { params, id: Id::Number(n) } => {
                    if 0 <= *n && (*n as i128) <= usize::MAX as i128 {
                        match RequestCall::decode(request.method.as_str(), params) {
                            Ok(call) => Ok(
                                Request { version: request.jsonrpc, id: *n as usize, call },
                            ),
                            Err(e) => Err(e),
                        }
                    } else {
                        Err(ProtocolError::Malformed)
                    }
                },
                _ => Err(ProtocolError::Malformed),
            },
            Ok(Message::Response(_)) => Err(ProtocolError::Malformed),
            Err(e) => Err(e),
        }
    }
}

/// The name of a method and its parameters are read back as the call that
/// wrote them.
pub proof fn lemma_call_round_trip(call: RequestCallView)
    ensures
        decode_call(call.method(), call.params()) == Ok::<RequestCallView, ProtocolError>(call),
{
    reveal_strlit("insert");
    reveal_strlit("open");
    assert("insert"@.len() == 6 && "open"@.len() == 4);
    match call {
        RequestCallView::Insert(r) => {
            crate::rpc::insert::lemma_params_round_trip(r);
        },
        RequestCallView::Open(url) => {
            crate::rpc::open::lemma_params_round_trip(url);
        },
    }
}

} // verus!
