//! The method "update", which the coordinator calls on a client: here is
//! the content.

use crate::json::{lemma_lookup_at, lemma_member_models, Json, JsonView};
use vstd::prelude::*;
use vstd::string::StringExecFns;

verus! {

/// The parameters of "update": the whole current content.
#[derive(Debug, Clone, PartialEq)]
pub struct Request {
    pub content: String,
}

/// The result of "update": nothing but success.
#[derive(Debug, Clone, Copy, PartialEq, Eq, Structural)]
pub struct Response {}

impl View for Request {
    type V = Seq<char>;

    /// The content.
    open spec fn view(&self) -> Seq<char> {
        self.content@
    }
}

/// The content that a JSON value holds: an object with a string under
/// "content".
pub open spec fn decode_params(j: JsonView) -> Option<Seq<char>> {
    match j.get("content"@) {
        Some(JsonView::String(content)) => Some(content),
        _ => None,
    }
}

/// The JSON value that holds `content`.
pub open spec fn encode_params(content: Seq<char>) -> JsonView {
    JsonView::Object(seq![("content"@, JsonView::String(content))])
}

impl Request {
    /// Reads the parameters from their JSON form.
    pub fn from_json(json: &Json) -> (r: Option<Request>)
        ensures
            match r {
                Some(request) => decode_params(json@) == Some(request@),
                None => decode_params(json@) is None,
            },
    {
        match json.get("content") {
            Some(Json::String(content)) => Some(Request { content: content.clone() }),
            _ => None,
        }
    }

    /// The JSON form of the parameters.
    pub fn to_json(&self) -> (r: Json)
        ensures
            r@ == encode_params(self@),
    {
        let mut members: Vec<(String, Json)> = Vec::new();
        members.push((String::from_str("content"), Json::String(self.content.clone())));
        let r = Json::Object(members);
        proof {
            lemma_member_models(members@);
            assert(r@->Object_0 =~= encode_params(self@)->Object_0);
        }
        r
    }
}

/// Parameters that are written are read back as they were.
pub proof fn lemma_params_round_trip(content: Seq<char>)
    ensures
        decode_params(encode_params(content)) == Some(content),
{
    let members = encode_params(content)->Object_0;
    lemma_lookup_at(members, "content"@, 0);
}

} // verus!
