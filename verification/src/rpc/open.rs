//! The method "open": name the resource that the document belongs to.

use crate::json::{lemma_lookup_at, lemma_member_models, Json, JsonView};
use vstd::prelude::*;
use vstd::string::StringExecFns;

verus! {

/// The parameters of "open": the locator of the resource.
#[derive(Debug, Clone, PartialEq)]
pub struct Request {
    pub url: String,
}

/// The result of "open": nothing but success.
#[derive(Debug, Clone, Copy, PartialEq, Eq, Structural)]
pub struct Response {}

impl View for Request {
    type V = Seq<char>;

    /// The locator.
    open spec fn view(&self) -> Seq<char> {
        self.url@
    }
}

/// The locator that a JSON value holds: an object with a string under
/// "url".
pub open spec fn decode_params(j: JsonView) -> Option<Seq<char>> {
    match j.get("url"@) {
        Some(JsonView::String(url)) => Some(url),
        _ => None,
    }
}

/// The JSON value that holds the locator `url`.
pub open spec fn encode_params(url: Seq<char>) -> JsonView {
    JsonView::Object(seq![("url"@, JsonView::String(url))])
}

impl Request {
    /// Reads the parameters from their JSON form.
    pub fn from_json(json: &Json) -> (r: Option<Request>)
        ensures
            match r {
                Some(request) => decode_params(json@) == Some(request@),
                None => decode_params(json@) is None,
            },
    {
        match json.get("url") {
            Some(Json::String(url)) => Some(Request { url: url.clone() }),
            _ => None,
        }
    }

    /// The JSON form of the parameters.
    pub fn to_json(&self) -> (r: Json)
        ensures
            r@ == encode_params(self@),
    {
        let mut members: Vec<(String, Json)> = Vec::new();
        members.push((String::from_str("url"), Json::String(self.url.clone())));
        let r = Json::Object(members);
        proof {
            lemma_member_models(members@);
            assert(r@->Object_0 =~= encode_params(self@)->Object_0);
        }
        r
    }
}

/// Parameters that are written are read back as they were.
pub proof fn lemma_params_round_trip(url: Seq<char>)
    ensures
        decode_params(encode_params(url)) == Some(url),
{
    let members = encode_params(url)->Object_0;
    lemma_lookup_at(members, "url"@, 0);
}

} // verus!
