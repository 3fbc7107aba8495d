//! A call in flight: the request that starts it, and the response that
//! ends it.

use crate::json::{Json, JsonView};
use crate::jsonrpc::envelope::{
    Error, ErrorView, Message, MessageView, Request, RequestKind, RequestKindView, RequestView, Response,
    ResponseKind, ResponseKindView, ResponseView, Version,
};
use crate::jsonrpc::id::{Id, IdView};
use vstd::prelude::*;
use vstd::string::StringExecFns;

verus! {

/// What `message` means to a call under the identifier `id`: the response
/// with that identifier ends the call, with the result or the failure that
/// it reports; any other message means nothing to it.
pub open spec fn answer_of(id: IdView, message: MessageView) -> Option<Result<JsonView, ErrorView>> {
    match message {
        MessageView::Response(response) => if response.id == id {
            match response.kind {
                ResponseKindView::Success { result } => Some(Ok(result)),
                ResponseKindView::Failure { error } => Some(Err(error)),
            }
        } else {
            None
        },
        MessageView::Request(_) => None,
    }
}

/// Where a call under the identifier `id` ends, and how, for one who reads
/// `messages` from the first on: at the first message that means something
/// to the call. `None` while the call still waits.
pub open spec fn ends_at(id: IdView, messages: Seq<MessageView>) -> Option<
    (int, Result<JsonView, ErrorView>),
>
    decreases messages.len(),
{
    if messages.len() == 0 {
        None
    } else {
        match answer_of(id, messages[0]) {
            Some(answer) => Some((0, answer)),
            None => match ends_at(id, messages.drop_first()) {
                Some((k, answer)) => Some((k + 1, answer)),
                None => None,
            },
        }
    }
}

/// A call that waits for its response.
pub struct Call {
    id: Id,
}

impl View for Call {
    type V = IdView;

    /// The identifier under which the response is expected.
    closed spec fn view(&self) -> IdView {
        self.id@
    }
}

impl Call {
    #[verifier::type_invariant]
    spec fn wf(self) -> bool {
        !(self.id@ is Null)
    }

    /// Starts a call of `method` with `params` under the identifier `id`:
    /// gives the call, and the request to send.
    ///
    /// The null identifier starts no call.
    pub fn new(method: &str, params: Json, id: Id) -> (r: Option<(Call, Message)>)
        ensures
            r is None <==> id@ is Null,
            match r {
                Some((call, message)) => {
                    &&& call@ == id@
                    &&& message@ == MessageView::Request(
                        RequestView {
                            method: method@,
                            kind: RequestKindView::Request { params: params@, id: id@ },
                        },
                    )
                },
                None => true,
            },
    {
        match id {
            Id::Null => None,
            _ => {
                let request = Request {
                    jsonrpc: Version,
                    method: String::from_str(method),
                    kind: RequestKind::Request { params, id: id.clone() },
                };
                Some((Call { id }, Message::Request(request)))
            },
        }
    }

    /// The identifier under which the response is expected.
    pub fn id(&self) -> (id: &Id)
        ensures
            id@ == self@,
            !(id@ is Null),
    {
        proof {
            use_type_invariant(self);
        }
        &self.id
    }

    /// What an incoming message means to the call.
    ///
    /// The response with the call's identifier ends it, with the result or
    /// the failure that it reports. Any other message, a request or the
    /// response to another call, is none of its business: `None`.
    pub fn receive(&self, message: Message) -> (r: Option<Result<Json, Error>>)
        ensures
            match r {
                Some(Ok(result)) => answer_of(self@, message@) == Some(
                    Ok::<JsonView, ErrorView>(result@),
                ),
                Some(Err(error)) => answer_of(self@, message@) == Some(
                    Err::<JsonView, ErrorView>(error@),
                ),
                None => answer_of(self@, message@) is None,
            },
            match r {
                Some(Ok(result)) => message@ == MessageView::Response(
                    ResponseView {
                        id: self@,
                        kind: ResponseKindView::Success { result: result@ },
                    },
                ),
                Some(Err(error)) => message@ == MessageView::Response(
                    ResponseView { id: self@, kind: ResponseKindView::Failure { error: error@ } },
                ),
                None => match message@ {
                    MessageView::Response(response) => response.id != self@,
                    MessageView::Request(_) => true,
                },
            },
    {
        match message {
            Message::Response(response) => {
                if response.id == self.id {
                    match response.kind {
                        ResponseKind::Success { result } => Some(Ok(result)),
                        ResponseKind::Failure { error } => Some(Err(error)),
                    }
                } else {
                    None
                }
            },
            Message::Request(_) => None,
        }
    }
}

impl Request {
    /// The response that answers the request with `outcome`: for a call,
    /// the response under the call's identifier; for a notification, none.
    pub fn answer(&self, outcome: Result<Json, Error>) -> (r: Option<Response>)
        ensures
            match self@.kind {
                RequestKindView::Request { params, id } => match outcome {
                    Ok(result) => r matches Some(response) && response@ == (ResponseView {
                        id,
                        kind: ResponseKindView::Success { result: result@ },
                    }),
                    Err(error) => r matches Some(response) && response@ == (ResponseView {
                        id,
                        kind: ResponseKindView::Failure { error: error@ },
                    }),
                },
                RequestKindView::Notification { params } => r is None,
            },
    {
        match &self.kind {
            RequestKind::Request { params, id } => match outcome {
                Ok(result) => Some(Response::from_ok(id.clone(), result)),
                Err(error) => Some(Response::from_error(id.clone(), error)),
            },
            RequestKind::Notification { params } => None,
        }
    }
}

} // verus!
