//! The method "insert": insert a character after a position.
//!
//! An insertion has one shape wherever it is written, in a frame as in a
//! call: the character, and the position that it follows. A text with a
//! cursor is no insertion of this protocol.

use crate::json::{lemma_lookup_at, lemma_member_models, Json, JsonView};
use vstd::prelude::*;
use vstd::string::{StrSliceExecFns, StringExecFns};

verus! {

/// The parameters of "insert": the character, and the position after which
/// it goes.
#[derive(Debug, Clone, Copy, PartialEq, Eq, Structural)]
pub struct Request {
    pub char: char,
    pub index: usize,
}

/// The result of "insert": nothing but success.
#[derive(Debug, Clone, Copy, PartialEq, Eq, Structural)]
pub struct Response {}

/// The parameters that a JSON value stands for: an object with the
/// character as a string of one character under "char", and the position
/// under "index".
pub open spec fn decode_params(j: JsonView) -> Option<Request> {
    match (j.get("char"@), j.get("index"@)) {
        (Some(JsonView::String(c)), Some(JsonView::Integer(i))) => if c.len() == 1 && 0 <= i
            <= usize::MAX {
            Some(Request { char: c[0], index: i as usize })
        } else {
            None
        },
        _ => None,
    }
}

/// The JSON value that stands for the parameters.
pub open spec fn encode_params(r: Request) -> JsonView {
    JsonView::Object(
        seq![
            ("char"@, JsonView::String(seq![r.char])),
            ("index"@, JsonView::Integer(r.index as i128)),
        ],
    )
}

impl Request {
    /// Reads the parameters from their JSON form.
    pub fn from_json(json: &Json) -> (r: Option<Request>)
        ensures
            r == decode_params(json@),
    {
        match (json.get("char"), json.get("index")) {
            (Some(Json::String(c)), Some(Json::Integer(i))) => {
                if c.as_str().unicode_len() == 1 && 0 <= *i && *i <= usize::MAX as i128 {
                    Some(Request { char: c.as_str().get_char(0), index: *i as usize })
                } else {
                    None
                }
            },
            _ => None,
        }
    }

    /// The JSON form of the parameters.
    pub fn to_json(&self) -> (r: Json)
        ensures
            r@ == encode_params(*self),
    {
        let mut c = String::new();
        c.push(self.char);
        assert(c@ =~= seq![self.char]);
        let mut members: Vec<(String, Json)> = Vec::new();
        members.push((String::from_str("char"), Json::String(c)));
        members.push((String::from_str("index"), Json::Integer(self.index as i128)));
        let r = Json::Object(members);
        proof {
            lemma_member_models(members@);
            assert(r@->Object_0 =~= encode_params(*self)->Object_0);
        }
        r
    }
}

/// Parameters that are written are read back as they were.
pub proof fn lemma_params_round_trip(r: Request)
    ensures
        decode_params(encode_params(r)) == Some(r),
{
    reveal_strlit("char");
    reveal_strlit("index");
    assert("char"@.len() == 4 && "index"@.len() == 5);
    let members = encode_params(r)->Object_0;
    lemma_lookup_at(members, "char"@, 0);
    lemma_lookup_at(members, "index"@, 1);
}

} // verus!
