//! The mathematical model of a document: a set of elements keyed by their
//! log position, and the text that the set stands for.

use crate::author::Author;
use vstd::prelude::*;

verus! {

/// A place in the causal history of a document. Position 0 is the synthetic
/// root; every inserted character has a position of its own, never reused.
#[derive(Debug, Clone, Copy, PartialEq, Eq, Structural, Hash, PartialOrd, Ord)]
pub struct LogPosition(pub usize);

/// One inserted character: who inserted it, where it stands in the causal
/// history, which position it causally follows, and the character itself.
#[derive(Debug, Clone, Copy, PartialEq, Eq, Structural)]
pub struct Element {
    pub author: Author,
    pub position: LogPosition,
    pub predecessor: LogPosition,
    pub value: char,
}

impl Element {
    /// The element's own position, as a mathematical integer.
    pub open spec fn at(self) -> int {
        self.position.0 as int
    }

    /// The position that the element follows, as a mathematical integer.
    pub open spec fn after(self) -> int {
        self.predecessor.0 as int
    }
}

/// The order in which two elements with the same predecessor are visited:
/// in the order of their authors, the coordinator's before any client's and
/// the clients' by identifier; and of two by the same author the later one,
/// which has the greater position, first.
pub open spec fn outranks(a: Element, b: Element) -> bool {
    a.author.sorts_before(b.author) || (a.author == b.author && b.at() < a.at())
}

/// `s` lists the positions of exactly those elements of `m` that follow
/// `p`, in the order in which they are visited.
pub open spec fn is_child_order(m: Map<int, Element>, p: int, s: Seq<int>) -> bool {
    &&& forall|i: int|
        0 <= i < s.len() ==> m.dom().contains(#[trigger] s[i]) && m[s[i]].after() == p
    &&& forall|q: int| #[trigger] m.dom().contains(q) && m[q].after() == p ==> s.contains(q)
    &&& forall|i: int, j: int|
        0 <= i < j < s.len() ==> outranks(m[#[trigger] s[i]], m[#[trigger] s[j]])
}

/// The positions of the elements that follow `p`, in visiting order.
pub open spec fn children_of(m: Map<int, Element>, p: int) -> Seq<int> {
    choose|s: Seq<int>| is_child_order(m, p, s)
}

/// How far a position is from the greatest position there is.
pub open spec fn headroom(p: int) -> nat {
    if 0 <= p <= usize::MAX {
        (usize::MAX - p) as nat
    } else {
        0
    }
}

/// The text below position `p`: a depth-first walk of the elements that
/// follow `p`, directly or through other elements, without `p` itself.
pub open spec fn subtree_text(m: Map<int, Element>, p: int) -> Seq<char>
    decreases 2 * headroom(p) + 1, 0nat,
{
    run_text(m, children_of(m, p), p)
}

/// The text of the elements at the positions `s`, each followed by the text
/// below it. Positions that do not lie above `p` contribute nothing.
pub open spec fn run_text(m: Map<int, Element>, s: Seq<int>, p: int) -> Seq<char>
    decreases 2 * headroom(p), s.len(),
{
    if s.len() == 0 {
        Seq::empty()
    } else {
        let c = s[0];
        let head = if 0 <= p < c <= usize::MAX {
            seq![m[c].value] + subtree_text(m, c)
        } else {
            Seq::empty()
        };
        head + run_text(m, s.drop_first(), p)
    }
}

/// The text that a set of elements stands for: the depth-first walk from
/// the root.
pub open spec fn linearize(m: Map<int, Element>) -> Seq<char> {
    subtree_text(m, 0)
}

/// `n` is the position that the next insertion gets: one more than the
/// greatest position present, the root counting as position 0.
pub open spec fn is_next_position(m: Map<int, Element>, n: int) -> bool {
    &&& n >= 1
    &&& forall|k: int| m.dom().contains(k) ==> k < n
    &&& n == 1 || m.dom().contains(n - 1)
}

/// The elements of `m` are `n` in number and follow each other: the
/// first follows the root, and each other one the one before it.
pub open spec fn is_chain(m: Map<int, Element>, n: int) -> bool {
    &&& 0 <= n <= usize::MAX
    &&& forall|k: int| m.dom().contains(k) <==> 1 <= k <= n
    &&& forall|k: int| 1 <= k <= n ==> (#[trigger] m[k]).at() == k && m[k].after() == k - 1
}

/// What a document is: the author who owns its root, and its elements by
/// position.
pub ghost struct DocumentView {
    pub origin: Author,
    pub elements: Map<int, Element>,
}

impl DocumentView {
    /// The document with no element.
    pub open spec fn empty(origin: Author) -> DocumentView {
        DocumentView { origin, elements: Map::empty() }
    }

    /// Whether position `p` is the root or the position of an element.
    pub open spec fn holds(self, p: int) -> bool {
        p == 0 || self.elements.dom().contains(p)
    }

    /// Whether `e` may be added: its predecessor is present and precedes it.
    pub open spec fn admits(self, e: Element) -> bool {
        self.holds(e.after()) && e.after() < e.at()
    }

    /// Whether the document takes `e` in when it is handed it: the position
    /// of `e` is free, and `e` may be added.
    pub open spec fn takes(self, e: Element) -> bool {
        !self.holds(e.at()) && self.admits(e)
    }

    /// The document after `e` was handed to it: unchanged where the position
    /// of `e` is taken or `e` is not admitted, with `e` added otherwise.
    pub open spec fn insert(self, e: Element) -> DocumentView {
        if self.takes(e) {
            DocumentView { origin: self.origin, elements: self.elements.insert(e.at(), e) }
        } else {
            self
        }
    }

    /// The position that the next insertion gets.
    pub open spec fn next_position(self) -> int {
        choose|n: int| is_next_position(self.elements, n)
    }

    /// The element that an insertion of `value` after `predecessor` on
    /// behalf of `author` adds: it stands at the next position.
    pub open spec fn appended(self, author: Author, predecessor: LogPosition, value: char) -> Element {
        Element {
            author,
            position: LogPosition(self.next_position() as usize),
            predecessor,
            value,
        }
    }

    /// The document after `value` was inserted after `predecessor` on
    /// behalf of `author`: unchanged where `predecessor` is not present,
    /// with the new element at the next position otherwise.
    pub open spec fn insert_after(
        self,
        author: Author,
        predecessor: LogPosition,
        value: char,
    ) -> DocumentView {
        if self.holds(predecessor.0 as int) {
            DocumentView {
                origin: self.origin,
                elements: self.elements.insert(
                    self.next_position(),
                    self.appended(author, predecessor, value),
                ),
            }
        } else {
            self
        }
    }

    /// Whether `e` is visited before every follower of the root.
    pub open spec fn leads(self, e: Element) -> bool {
        forall|c: int|
            self.elements.dom().contains(c) && (#[trigger] self.elements[c]).after() == 0
                ==> outranks(e, self.elements[c])
    }

    /// Whether `e` is visited after every follower of the root.
    pub open spec fn trails(self, e: Element) -> bool {
        forall|c: int|
            self.elements.dom().contains(c) && (#[trigger] self.elements[c]).after() == 0
                ==> outranks(self.elements[c], e)
    }

    /// The text of the document.
    pub open spec fn text(self) -> Seq<char> {
        linearize(self.elements)
    }

    /// What holds of every document that the engine builds: it is causal,
    /// every position has its followers in a visiting order, and there is
    /// a next position.
    pub open spec fn sound(self) -> bool {
        &&& self.causal()
        &&& self.ordered()
        &&& is_next_position(self.elements, self.next_position())
    }

    /// Every position has its followers in a visiting order.
    pub open spec fn ordered(self) -> bool {
        forall|p: int| is_child_order(self.elements, p, #[trigger] children_of(self.elements, p))
    }

    /// Every element stands at its own position, above the root, and follows
    /// a position that is present and below its own.
    pub open spec fn causal(self) -> bool {
        forall|k: int| #[trigger]
            self.elements.dom().contains(k) ==> {
                let e = self.elements[k];
                &&& e.at() == k
                &&& 0 <= e.after() < k
                &&& self.holds(e.after())
            }
    }
}

} // verus!
