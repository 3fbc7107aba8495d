//! What a client sends.

use crate::error::ProtocolError;
use crate::json::{lemma_lookup_at, lemma_member_models, Json, JsonView};
use crate::text::str_eq;
use vstd::prelude::*;
use vstd::string::{StrSliceExecFns, StringExecFns};

verus! {

/// A frame from a client: an edit, or the wish to open a resource.
#[derive(Debug, Clone, PartialEq)]
pub enum Frame {
    /// Insert the character `char` after the position `index`.
    Insert { char: char, index: usize },
    /// Open the resource that `url` locates.
    Open { url: String },
}

/// What a frame from a client is.
pub ghost enum FrameView {
    Insert { char: char, index: usize },
    Open { url: Seq<char> },
}

impl View for Frame {
    type V = FrameView;

    open spec fn view(&self) -> FrameView {
        match self {
            Frame::Insert { char, index } => FrameView::Insert { char: *char, index: *index },
            Frame::Open { url } => FrameView::Open { url: url@ },
        }
    }
}

/// The frame that a JSON value stands for.
///
/// Its member "type" names the kind. An "insert" holds the character as a
/// string of one character under "char", and the position under "index";
/// an "open" holds the locator under "url". A kind that is neither is
/// refused as unsupported.
pub open spec fn decode_frame(j: JsonView) -> Result<FrameView, ProtocolError> {
    match j.get("type"@) {
        Some(JsonView::String(kind)) => if kind == "insert"@ {
            match (j.get("char"@), j.get("index"@)) {
                (Some(JsonView::String(c)), Some(JsonView::Integer(i))) => if c.len() == 1 && 0
                    <= i <= usize::MAX {
                    Ok(FrameView::Insert { char: c[0], index: i as usize })
                } else {
                    Err(ProtocolError::Malformed)
                },
                _ => Err(ProtocolError::Malformed),
            }
        } else if kind == "open"@ {
            match j.get("url"@) {
                Some(JsonView::String(url)) => Ok(FrameView::Open { url }),
                _ => Err(ProtocolError::Malformed),
            }
        } else {
            Err(ProtocolError::UnsupportedOperation)
        },
        _ => Err(ProtocolError::Malformed),
    }
}

/// The JSON value that stands for a frame.
pub open spec fn encode_frame(f: FrameView) -> JsonView {
    match f {
        FrameView::Insert { char, index } => JsonView::Object(
            seq![
                ("type"@, JsonView::String("insert"@)),
                ("char"@, JsonView::String(seq![char])),
                ("index"@, JsonView::Integer(index as i128)),
            ],
        ),
        FrameView::Open { url } => JsonView::Object(
            seq![("type"@, JsonView::String("open"@)), ("url"@, JsonView::String(url))],
        ),
    }
}

impl Frame {
    /// Reads a frame from its JSON form.
    pub fn from_json(json: &Json) -> (r: Result<Frame, ProtocolError>)
        ensures
            match r {
                Ok(frame) => decode_frame(json@) == Ok::<FrameView, ProtocolError>(frame@),
                Err(e) => decode_frame(json@) == Err::<FrameView, ProtocolError>(e),
            },
    {
        let kind = match json.get("type") {
            Some(Json::String(kind)) => kind,
            _ => {
                return Err(ProtocolError::Malformed);
            },
        };
        if str_eq(kind.as_str(), "insert") {
            match (json.get("char"), json.get("index")) {
                (Some(Json::String(c)), Some(Json::Integer(i))) => {
                    if c.as_str().unicode_len() == 1 && 0 <= *i && *i <= usize::MAX as i128 {
                        Ok(Frame::Insert { char: c.as_str().get_char(0), index: *i as usize })
                    } else {
                        Err(ProtocolError::Malformed)
                    }
                },
                _ => Err(ProtocolError::Malformed),
            }
        } else if str_eq(kind.as_str(), "open") {
            match json.get("url") {
                Some(Json::String(url)) => Ok(Frame::Open { url: url.clone() }),
                _ => Err(ProtocolError::Malformed),
            }
        } else {
            Err(ProtocolError::UnsupportedOperation)
        }
    }

    /// The JSON form of the frame.
    pub fn to_json(&self) -> (r: Json)
        ensures
            r@ == encode_frame(self@),
    {
        let mut members: Vec<(String, Json)> = Vec::new();
        match self {
            Frame::Insert { char, index } => {
                let mut c = String::new();
                c.push(*char);
                assert(c@ =~= seq![*char]);
                members.push((String::from_str("type"), Json::String(String::from_str("insert"))));
                members.push((String::from_str("char"), Json::String(c)));
                members.push((String::from_str("index"), Json::Integer(*index as i128)));
            },
            Frame::Open { url } => {
                members.push((String::from_str("type"), Json::String(String::from_str("open"))));
                members.push((String::from_str("url"), Json::String(url.clone())));
            },
        }
        let r = Json::Object(members);
        proof {
            lemma_member_models(members@);
            assert(r@->Object_0 =~= encode_frame(self@)->Object_0);
        }
        r
    }
}

/// A frame that is written is read back as it was.
pub proof fn lemma_frame_round_trip(f: FrameView)
    ensures
        decode_frame(encode_frame(f)) == Ok::<FrameView, ProtocolError>(f),
{
    reveal_strlit("type");
    reveal_strlit("char");
    reveal_strlit("index");
    reveal_strlit("url");
    reveal_strlit("insert");
    reveal_strlit("open");
    assert("type"@.len() == 4 && "char"@.len() == 4 && "index"@.len() == 5 && "url"@.len() == 3);
    assert("type"@[0] == 't' && "char"@[0] == 'c');
    assert("insert"@.len() == 6 && "open"@.len() == 4);
    let members = encode_frame(f)->Object_0;
    lemma_lookup_at(members, "type"@, 0);
    match f {
        FrameView::Insert { char, index } => {
            lemma_lookup_at(members, "char"@, 1);
            lemma_lookup_at(members, "index"@, 2);
        },
        FrameView::Open { url } => {
            lemma_lookup_at(members, "url"@, 1);
        },
    }
}

} // verus!
