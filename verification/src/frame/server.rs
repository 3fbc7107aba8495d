//! What the coordinator sends.

use crate::error::ProtocolError;
use crate::json::{lemma_lookup_at, lemma_member_models, Json, JsonView};
use crate::text::str_eq;
use vstd::prelude::*;
use vstd::string::StringExecFns;

verus! {

/// The whole current content of the document.
#[derive(Debug, Clone, PartialEq)]
pub struct Update {
    pub content: String,
}

/// A frame from the coordinator.
#[derive(Debug, Clone, PartialEq)]
pub enum Frame {
    Update(Update),
}

/// What a frame from the coordinator is.
pub ghost enum FrameView {
    Update { content: Seq<char> },
}

impl View for Update {
    type V = Seq<char>;

    open spec fn view(&self) -> Seq<char> {
        self.content@
    }
}

impl View for Frame {
    type V = FrameView;

    open spec fn view(&self) -> FrameView {
        match self {
            Frame::Update(update) => FrameView::Update { content: update.content@ },
        }
    }
}

/// The frame that a JSON value stands for: its member "type" must be
/// "update", and "content" a string.
pub open spec fn decode_frame(j: JsonView) -> Result<FrameView, ProtocolError> {
    match j.get("type"@) {
        Some(JsonView::String(kind)) => if kind == "update"@ {
            match j.get("content"@) {
                Some(JsonView::String(content)) => Ok(FrameView::Update { content }),
                _ => Err(ProtocolError::Malformed),
            }
        } else {
            Err(ProtocolError::UnsupportedOperation)
        },
        _ => Err(ProtocolError::Malformed),
    }
}

/// The JSON value that stands for a frame.
pub open spec fn encode_frame(f: FrameView) -> JsonView {
    match f {
        FrameView::Update { content } => JsonView::Object(
            seq![("type"@, JsonView::String("update"@)), ("content"@, JsonView::String(content))],
        ),
    }
}

impl Frame {
    /// Reads a frame from its JSON form.
    pub fn from_json(json: &Json) -> (r: Result<Frame, ProtocolError>)
        ensures
            match r {
                Ok(frame) => decode_frame(json@) == Ok::<FrameView, ProtocolError>(frame@),
                Err(e) => decode_frame(json@) == Err::<FrameView, ProtocolError>(e),
            },
    {
        let kind = match json.get("type") {
            Some(Json::String(kind)) => kind,
            _ => {
                return Err(ProtocolError::Malformed);
            },
        };
        if str_eq(kind.as_str(), "update") {
            match json.get("content") {
                Some(Json::String(content)) => Ok(
                    Frame::Update(Update { content: content.clone() }),
                ),
                _ => Err(ProtocolError::Malformed),
            }
        } else {
            Err(ProtocolError::UnsupportedOperation)
        }
    }

    /// The JSON form of the frame.
    pub fn to_json(&self) -> (r: Json)
        ensures
            r@ == encode_frame(self@),
    {
        let mut members: Vec<(String, Json)> = Vec::new();
        match self {
            Frame::Update(update) => {
                members.push((String::from_str("type"), Json::String(String::from_str("update"))));
                members.push((String::from_str("content"), Json::String(update.content.clone())));
            },
        }
        let r = Json::Object(members);
        proof {
            lemma_member_models(members@);
            assert(r@->Object_0 =~= encode_frame(self@)->Object_0);
        }
        r
    }
}

/// A frame that is written is read back as it was.
pub proof fn lemma_frame_round_trip(f: FrameView)
    ensures
        decode_frame(encode_frame(f)) == Ok::<FrameView, ProtocolError>(f),
{
    reveal_strlit("type");
    reveal_strlit("content");
    assert("type"@.len() == 4 && "content"@.len() == 7);
    let members = encode_frame(f)->Object_0;
    lemma_lookup_at(members, "type"@, 0);
    lemma_lookup_at(members, "content"@, 1);
}

} // verus!
