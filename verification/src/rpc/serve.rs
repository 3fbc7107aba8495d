//! The answering side of the protocol: what to do about a message that
//! arrived, and what to send back once a call was handled.

use crate::error::{Error, ProtocolError};
use crate::json::{Json, JsonView};
use crate::jsonrpc::codec::decode_message;
use crate::jsonrpc::envelope::{
    ErrorCode, ErrorView, Message, MessageView, Request, RequestKind, RequestKindView, RequestView,
    Response, ResponseKindView, ResponseView,
};
use crate::jsonrpc::id::{Id, IdView};
use crate::rpc::call::{decode_call, RequestCall, RequestCallView};
use vstd::prelude::*;
use vstd::string::StringExecFns;

verus! {

/// The failure that a response reports for `failure`: its code, its
/// message, and no data.
pub open spec fn report_of(failure: Error) -> ErrorView {
    ErrorView {
        code: ErrorCode::of(failure.code_of()),
        message: failure.message_of(),
        data: None,
    }
}

/// The failure that a response reports for `failure`.
pub fn report(failure: Error) -> (r: crate::jsonrpc::envelope::Error)
    ensures
        r@ == report_of(failure),
        r@.code.canonical(),
{
    crate::jsonrpc::envelope::Error {
        code: ErrorCode::from_code(failure.code()),
        message: String::from_str(failure.message()),
        data: None,
    }
}

/// What is to be done about a message that arrived.
#[derive(Debug, Clone, PartialEq)]
pub enum Step {
    /// Handle the call, then answer the request with `conclude`.
    Handle { request: Request, call: RequestCall },
    /// Send the response; there is nothing to handle.
    Respond(Response),
    /// Do nothing.
    Ignore,
}

/// What a step is.
pub ghost enum StepView {
    Handle { request: RequestView, call: RequestCallView },
    Respond(ResponseView),
    Ignore,
}

impl View for Step {
    type V = StepView;

    open spec fn view(&self) -> StepView {
        match self {
            Step::Handle { request, call } => StepView::Handle { request: request@, call: call@ },
            Step::Respond(response) => StepView::Respond(response@),
            Step::Ignore => StepView::Ignore,
        }
    }
}

/// The response that tells the sender of `failure` under the identifier
/// `id`.
pub open spec fn refusal(id: IdView, failure: Error) -> ResponseView {
    ResponseView { id, kind: ResponseKindView::Failure { error: report_of(failure) } }
}

/// The parameters of a request.
pub open spec fn params_of(kind: RequestKindView) -> JsonView {
    match kind {
        RequestKindView::Request { params, id } => params,
        RequestKindView::Notification { params } => params,
    }
}

/// What is to be done about a message that arrived, `None` standing for
/// text that is no JSON.
///
/// What is no message is answered with the failure under the null
/// identifier, since its own is not known. A response is ignored: nobody
/// here has called. A request is handled where its method and parameters
/// are those of a call; where they are not, a call is answered with the
/// failure, and a notification is ignored.
pub open spec fn step_for(incoming: Option<JsonView>) -> StepView {
    match incoming {
        None => StepView::Respond(refusal(IdView::Null, Error::Protocol(ProtocolError::Malformed))),
        Some(json) => match decode_message(json) {
            Err(e) => StepView::Respond(refusal(IdView::Null, Error::Protocol(e))),
            Ok(MessageView::Response(_)) => StepView::Ignore,
            Ok(MessageView::Request(request)) => match decode_call(
                request.method,
                params_of(request.kind),
            ) {
                Ok(call) => StepView::Handle { request, call },
                Err(e) => match request.kind {
                    RequestKindView::Request { params, id } => StepView::Respond(
                        refusal(id, Error::Protocol(e)),
                    ),
                    RequestKindView::Notification { params } => StepView::Ignore,
                },
            },
        },
    }
}

/// The response that ends a request that was handled with `outcome`: for
/// a call, an empty result or the failure, under the identifier of the
/// call; for a notification, none.
pub open spec fn conclusion(request: RequestView, outcome: Result<(), Error>) -> Option<
    ResponseView,
> {
    match request.kind {
        RequestKindView::Request { params, id } => Some(
            match outcome {
                Ok(_) => ResponseView {
                    id,
                    kind: ResponseKindView::Success { result: JsonView::Object(Seq::empty()) },
                },
                Err(failure) => refusal(id, failure),
            },
        ),
        RequestKindView::Notification { params } => None,
    }
}

/// Says what is to be done about a message that arrived, `None` standing
/// for text that is no JSON.
pub fn receive(incoming: Option<&Json>) -> (step: Step)
    ensures
        step@ == step_for(
            match incoming {
                Some(json) => Some(json@),
                None => None,
            },
        ),
{
    let json = match incoming {
        Some(json) => json,
        None => {
            return Step::Respond(
                Response::from_error(Id::Null, report(Error::Protocol(ProtocolError::Malformed))),
            );
        },
    };
    let request = match Message::from_json(json) {
        Ok(Message::Request(request)) => request,
        Ok(Message::Response(_)) => {
            return Step::Ignore;
        },
        Err(e) => {
            return Step::Respond(Response::from_error(Id::Null, report(Error::Protocol(e))));
        },
    };
    let decoded = match &request.kind {
        RequestKind::Request { params, id } => RequestCall::decode(request.method.as_str(), params),
        RequestKind::Notification { params } => RequestCall::decode(
            request.method.as_str(),
            params,
        ),
    };
    match decoded {
        Ok(call) => Step::Handle { request, call },
        Err(e) => match request.answer(Err(report(Error::Protocol(e)))) {
            Some(response) => Step::Respond(response),
            None => Step::Ignore,
        },
    }
}

/// The response that ends a request that was handled with `outcome`.
pub fn conclude(request: &Request, outcome: Result<(), Error>) -> (r: Option<Response>)
    ensures
        match r {
            Some(response) => conclusion(request@, outcome) == Some(response@),
            None => conclusion(request@, outcome) is None,
        },
{
    let empty = Json::Object(Vec::new());
    proof {
        crate::json::lemma_member_models(Seq::<(String, Json)>::empty());
        assert(empty@ == JsonView::Object(Seq::empty())) by {
            assert(empty@->Object_0 =~= Seq::<(Seq<char>, JsonView)>::empty());
        }
    }
    match outcome {
        Ok(_) => request.answer(Ok(empty)),
        Err(failure) => request.answer(Err(report(failure))),
    }
}

} // verus!
