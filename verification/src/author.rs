//! Who made an edit.

use vstd::prelude::*;

verus! {

/// The globally unique identifier of a connected session: a UUID, held as
/// the 128-bit number that it is, the first byte the most significant, so
/// that identifiers compare as UUIDs do.
pub type ClientID = u128;

/// The origin of an edit: the coordinator itself, or one client session.
///
/// Authors are totally ordered: the coordinator sorts before every client,
/// and clients sort by their identifier.
#[derive(Debug, Clone, Copy, PartialEq, Eq, Structural, Hash, PartialOrd, Ord)]
pub enum Author {
    Server,
    Client(ClientID),
}

impl Author {
    /// The strict total order on authors.
    pub open spec fn sorts_before(self, other: Author) -> bool {
        match (self, other) {
            (Author::Server, Author::Server) => false,
            (Author::Server, Author::Client(_)) => true,
            (Author::Client(_), Author::Server) => false,
            (Author::Client(a), Author::Client(b)) => a < b,
        }
    }

    /// Whether `self` comes strictly before `other` in the order of authors.
    pub fn precedes(&self, other: &Author) -> (r: bool)
        ensures
            r == self.sorts_before(*other),
    {
        match (self, other) {
            (Author::Server, Author::Server) => false,
            (Author::Server, Author::Client(_)) => true,
            (Author::Client(_), Author::Server) => false,
            (Author::Client(a), Author::Client(b)) => *a < *b,
        }
    }
}

/// The order of authors is irreflexive, transitive and total.
pub proof fn lemma_author_order_is_strict_total(a: Author, b: Author, c: Author)
    ensures
        !a.sorts_before(a),
        a.sorts_before(b) && b.sorts_before(c) ==> a.sorts_before(c),
        a == b || a.sorts_before(b) || b.sorts_before(a),
        !(a.sorts_before(b) && b.sorts_before(a)),
{
}

} // verus!
