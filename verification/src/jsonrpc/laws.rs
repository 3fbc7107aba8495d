//! What is written is read back as it was.

use crate::error::ProtocolError;
use crate::json::{lemma_lookup_at, lemma_lookup_none};
use crate::jsonrpc::call::{answer_of, ends_at};
use crate::jsonrpc::codec::{
    decode_error, decode_id, decode_message, decode_request, decode_response, decode_version,
    encode_error, encode_id, encode_message, encode_request, encode_response,
};
use crate::jsonrpc::envelope::{
    ErrorView, MessageView, RequestKindView, RequestView, ResponseKindView, ResponseView, Version,
};
use crate::jsonrpc::id::IdView;
use vstd::prelude::*;

verus! {

/// The names of the members of the envelopes differ from each other.
pub proof fn lemma_member_names_differ()
    ensures
        "jsonrpc"@ != "method"@,
        "jsonrpc"@ != "params"@,
        "jsonrpc"@ != "id"@,
        "jsonrpc"@ != "result"@,
        "jsonrpc"@ != "error"@,
        "method"@ != "params"@,
        "method"@ != "id"@,
        "method"@ != "result"@,
        "method"@ != "error"@,
        "params"@ != "id"@,
        "id"@ != "result"@,
        "id"@ != "error"@,
        "result"@ != "error"@,
        "code"@ != "message"@,
        "code"@ != "data"@,
        "message"@ != "data"@,
{
    reveal_strlit("jsonrpc");
    reveal_strlit("method");
    reveal_strlit("params");
    reveal_strlit("id");
    reveal_strlit("result");
    reveal_strlit("error");
    reveal_strlit("code");
    reveal_strlit("message");
    reveal_strlit("data");
    assert("jsonrpc"@.len() == 7 && "method"@.len() == 6 && "params"@.len() == 6 && "id"@.len()
        == 2);
    assert("result"@.len() == 6 && "error"@.len() == 5 && "code"@.len() == 4 && "message"@.len()
        == 7 && "data"@.len() == 4);
    assert("method"@[0] == 'm' && "params"@[0] == 'p' && "result"@[0] == 'r');
    assert("code"@[0] == 'c' && "data"@[0] == 'd');
}

/// An identifier that is written is read back as it was.
pub proof fn lemma_id_round_trip(id: IdView)
    ensures
        decode_id(encode_id(id)) == Some(id),
{
}

/// A failure that is written is read back as it was, where its category is
/// the one that its number stands for.
pub proof fn lemma_error_round_trip(e: ErrorView)
    requires
        e.code.canonical(),
    ensures
        decode_error(encode_error(e)) == Some(e),
{
    lemma_member_names_differ();
    let j = encode_error(e);
    let members = j->Object_0;
    lemma_lookup_at(members, "code"@, 0);
    lemma_lookup_at(members, "message"@, 1);
    match e.data {
        Some(d) => {
            lemma_lookup_at(members, "data"@, 2);
        },
        None => {
            lemma_lookup_none(members, "data"@);
        },
    }
}

/// A request that is written, and its version with it, is read back as it
/// was.
pub proof fn lemma_request_round_trip(r: RequestView)
    ensures
        decode_version(encode_request(r)) == Ok::<Version, ProtocolError>(Version),
        encode_request(r).get("method"@) is Some,
        decode_request(encode_request(r)) == Ok::<RequestView, ProtocolError>(r),
{
    lemma_member_names_differ();
    let j = encode_request(r);
    let members = j->Object_0;
    lemma_lookup_at(members, "jsonrpc"@, 0);
    lemma_lookup_at(members, "method"@, 1);
    lemma_lookup_at(members, "params"@, 2);
    match r.kind {
        RequestKindView::Request { params, id } => {
            lemma_lookup_at(members, "id"@, 3);
            lemma_id_round_trip(id);
        },
        RequestKindView::Notification { params } => {
            lemma_lookup_none(members, "id"@);
        },
    }
}

/// A response that is written, and its version with it, is read back as it
/// was, where the category of a failure is the one that its number stands
/// for.
pub proof fn lemma_response_round_trip(r: ResponseView)
    requires
        r.kind matches ResponseKindView::Failure { error } ==> error.code.canonical(),
    ensures
        decode_version(encode_response(r)) == Ok::<Version, ProtocolError>(Version),
        encode_response(r).get("method"@) is None,
        decode_response(encode_response(r)) == Ok::<ResponseView, ProtocolError>(r),
{
    lemma_member_names_differ();
    let j = encode_response(r);
    let members = j->Object_0;
    lemma_lookup_at(members, "jsonrpc"@, 0);
    lemma_lookup_at(members, "id"@, 1);
    lemma_lookup_none(members, "method"@);
    lemma_id_round_trip(r.id);
    match r.kind {
        ResponseKindView::Success { result } => {
            lemma_lookup_at(members, "result"@, 2);
            lemma_lookup_none(members, "error"@);
        },
        ResponseKindView::Failure { error } => {
            lemma_lookup_at(members, "error"@, 2);
            lemma_lookup_none(members, "result"@);
            lemma_error_round_trip(error);
        },
    }
}

/// A message that is written is read back as it was: decoding the JSON form
/// of a message gives the message, where the category of a failure is the
/// one that its number stands for.
pub proof fn lemma_message_round_trip(m: MessageView)
    requires
        m matches MessageView::Response(r) ==> (r.kind matches ResponseKindView::Failure { error }
            ==> error.code.canonical()),
    ensures
        decode_message(encode_message(m)) == Ok::<MessageView, ProtocolError>(m),
{
    match m {
        MessageView::Request(r) => {
            lemma_request_round_trip(r);
        },
        MessageView::Response(r) => {
            lemma_response_round_trip(r);
        },
    }
}

/// A call ends at the first response under its identifier, and at no
/// other message: one who reads the messages from the first on drops all
/// that come before that response, requests and the responses to other
/// calls alike, and reads none that comes after it.
pub proof fn lemma_call_ends_at_its_response(id: IdView, messages: Seq<MessageView>, k: int)
    requires
        0 <= k < messages.len(),
        answer_of(id, messages[k]) is Some,
        forall|j: int| 0 <= j < k ==> answer_of(id, #[trigger] messages[j]) is None,
    ensures
        ends_at(id, messages) == Some((k, answer_of(id, messages[k])->Some_0)),
        ends_at(id, messages.take(k + 1)) == ends_at(id, messages),
        ends_at(id, messages.take(k)) is None,
    decreases k,
{
    let rest = messages.drop_first();
    if k == 0 {
        assert(messages.take(1)[0] == messages[0]);
        assert(messages.take(0).len() == 0);
    } else {
        assert(answer_of(id, messages[0]) is None);
        assert(rest[k - 1] == messages[k]);
        assert forall|j: int| 0 <= j < k - 1 implies answer_of(id, #[trigger] rest[j]) is None by {
            assert(rest[j] == messages[j + 1]);
        }
        lemma_call_ends_at_its_response(id, rest, k - 1);
        assert(messages.take(k + 1).drop_first() =~= rest.take(k));
        assert(messages.take(k + 1)[0] == messages[0]);
        assert(messages.take(k).drop_first() =~= rest.take(k - 1));
        assert(messages.take(k)[0] == messages[0]);
    }
}

/// A call waits as long as no response under its identifier has come.
pub proof fn lemma_call_waits(id: IdView, messages: Seq<MessageView>)
    requires
        forall|j: int| 0 <= j < messages.len() ==> answer_of(id, #[trigger] messages[j]) is None,
    ensures
        ends_at(id, messages) is None,
    decreases messages.len(),
{
    if messages.len() > 0 {
        let rest = messages.drop_first();
        assert(answer_of(id, messages[0]) is None);
        assert forall|j: int| 0 <= j < rest.len() implies answer_of(id, #[trigger] rest[j]) is None by {
            assert(rest[j] == messages[j + 1]);
        }
        lemma_call_waits(id, rest);
    }
}

} // verus!
