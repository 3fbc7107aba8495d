//! The identifier that ties a response to its request.

use crate::text::{
    debug_string, debug_text, decimal, decimal_string, lemma_decimal_starts, quoted,
};
use vstd::prelude::*;
use vstd::string::StringExecFns;

verus! {

/// An identifier that correlates a request and its response: a number, a
/// string, or null. Null stands for an identifier that is not known, and
/// starts no call.
#[derive(Debug, Hash)]
pub enum Id {
    Number(i64),
    String(String),
    Null,
}

/// What an identifier is.
pub ghost enum IdView {
    Number(i64),
    String(Seq<char>),
    Null,
}

impl IdView {
    /// The identifier as text: a number in decimal, a string in its quoted
    /// form, null as the word.
    pub open spec fn text(self) -> Seq<char> {
        match self {
            IdView::Number(n) => decimal(n as int),
            IdView::String(s) => debug_text(s),
            IdView::Null => seq!['n', 'u', 'l', 'l'],
        }
    }
}

impl View for Id {
    type V = IdView;

    open spec fn view(&self) -> IdView {
        match self {
            Id::Number(n) => IdView::Number(*n),
            Id::String(s) => IdView::String(s@),
            Id::Null => IdView::Null,
        }
    }
}

impl Clone for Id {
    fn clone(&self) -> (r: Id)
        ensures
            r@ == self@,
    {
        match self {
            Id::Number(n) => Id::Number(*n),
            Id::String(s) => Id::String(s.clone()),
            Id::Null => Id::Null,
        }
    }
}

impl PartialEq for Id {
    fn eq(&self, other: &Id) -> (r: bool) {
        match (self, other) {
            (Id::Number(a), Id::Number(b)) => *a == *b,
            (Id::String(a), Id::String(b)) => *a == *b,
            (Id::Null, Id::Null) => true,
            _ => false,
        }
    }
}

impl vstd::std_specs::cmp::PartialEqSpecImpl for Id {
    open spec fn obeys_eq_spec() -> bool {
        true
    }

    open spec fn eq_spec(&self, other: &Id) -> bool {
        self@ == other@
    }
}

impl Eq for Id {

}

impl Default for Id {
    fn default() -> (r: Id)
        ensures
            r@ == IdView::Null,
    {
        Id::Null
    }
}

impl Id {
    /// The identifier as text.
    ///
    /// The text tells the three kinds apart: that of a string stands
    /// between double quotes, that of a number begins with a digit or a
    /// minus sign, and that of null is the word.
    pub fn to_string(&self) -> (text: String)
        ensures
            text@ == self@.text(),
            text@.len() >= 1,
            self@ is String <==> quoted(text@),
            self@ is String <==> text@[0] == '"',
            self@ is Null <==> text@[0] == 'n',
    {
        match self {
            Id::Number(n) => {
                proof {
                    lemma_decimal_starts(*n as int);
                }
                decimal_string(*n)
            },
            Id::String(s) => debug_string(s.as_str()),
            Id::Null => {
                proof {
                    reveal_strlit("null");
                }
                let text = String::from_str("null");
                assert(text@ =~= seq!['n', 'u', 'l', 'l']);
                text
            },
        }
    }
}

} // verus!
