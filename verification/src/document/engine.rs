//! The executable document: elements in arrival order, with the tree of
//! followers kept sorted so that the text is read off in one walk.

use crate::author::Author;
use crate::document::insertion::{
    index_below, lemma_empty_is_sound, lemma_empty_text, lemma_insert_at_end,
    lemma_insert_at_start, lemma_insert_text,
};
use crate::document::laws::{lemma_chain_grows, lemma_chain_text};
use crate::document::model::{
    is_chain, linearize, outranks, DocumentView, Element, LogPosition,
};
use crate::document::shape::{
    grown, lemma_grown_parts_wf, lemma_next_position_unique, lemma_parts_ordered, lemma_walk_end,
    lemma_walk_goes_on, lemma_walk_length, lemma_walk_start, lemma_walk_step, list_wf, parts_wf,
    positions, stored, walking,
};
use vstd::prelude::*;

verus! {

/// An insertion was refused: the position it was to follow is not in the
/// document, or does not lie below the position of the new element.
#[derive(Debug, Clone, Copy, PartialEq, Eq, Structural)]
pub struct CausalityError {
    pub predecessor: LogPosition,
}

/// A document: the set of all inserted elements, and the text they stand
/// for.
pub struct Document {
    origin: Author,
    /// The elements, in the order in which they arrived.
    elements: Vec<Element>,
    /// For each element, the indices of the elements that follow it, in
    /// visiting order.
    below: Vec<Vec<usize>>,
    /// The indices of the elements that follow the root, in visiting order.
    top: Vec<usize>,
    /// The position that the next insertion gets.
    next: usize,
    /// The elements by their positions.
    model: Ghost<Map<int, Element>>,
}

/// Whether `a` is visited before `b` among the followers of one position.
fn ranks_above(a: &Element, b: &Element) -> (r: bool)
    ensures
        r == outranks(*a, *b),
{
    a.author.precedes(&b.author) || (a.author == b.author && b.position.0 < a.position.0)
}

/// The rank of `e` among the followers `list`: the number of them that are
/// visited before `e`.
fn rank_in(elements: &Vec<Element>, list: &Vec<usize>, e: &Element) -> (k: usize)
    requires
        forall|j: int| 0 <= j < list@.len() ==> #[trigger] list@[j] < elements@.len(),
    ensures
        k <= list@.len(),
        forall|j: int| 0 <= j < k ==> outranks(elements@[#[trigger] list@[j] as int], *e),
        k < list@.len() ==> !outranks(elements@[list@[k as int] as int], *e),
{
    let mut k: usize = 0;
    while k < list.len()
        invariant
            k <= list@.len(),
            forall|j: int| 0 <= j < list@.len() ==> #[trigger] list@[j] < elements@.len(),
            forall|j: int| 0 <= j < k ==> outranks(elements@[#[trigger] list@[j] as int], *e),
        decreases list@.len() - k,
    {
        if !ranks_above(&elements[list[k]], e) {
            return k;
        }
        k = k + 1;
    }
    k
}

/// Puts the indices of `list` on the stack, the first of them on top.
fn push_reversed(stack: &mut Vec<usize>, list: &Vec<usize>)
    ensures
        final(stack)@ == old(stack)@ + list@.reverse(),
{
    let mut k: usize = list.len();
    while k > 0
        invariant
            k <= list@.len(),
            stack@ == old(stack)@ + list@.reverse().subrange(0, list@.len() - k),
        decreases k,
    {
        k = k - 1;
        stack.push(list[k]);
        assert(stack@ =~= old(stack)@ + list@.reverse().subrange(0, list@.len() - k));
    }
    assert(list@.reverse().subrange(0, list@.len() as int) =~= list@.reverse());
}

impl View for Document {
    type V = DocumentView;

    closed spec fn view(&self) -> DocumentView {
        DocumentView { origin: self.origin, elements: self.model@ }
    }
}

impl Document {
    #[verifier::type_invariant]
    spec fn wf(self) -> bool {
        parts_wf(
            self.origin,
            self.elements@,
            self.below@,
            self.top@,
            self.next as int,
            self.model@,
        )
    }

    /// An empty document, rooted at a synthetic root position that
    /// `origin` owns.
    pub fn new(origin: Author) -> (doc: Document)
        ensures
            doc@ == DocumentView::empty(origin),
            doc@.sound(),
            doc@.next_position() == 1,
            doc@.text() == Seq::<char>::empty(),
    {
        proof {
            reveal(stored);
            reveal(list_wf);
            lemma_empty_is_sound(origin);
            lemma_empty_text(origin);
        }
        let doc = Document {
            origin,
            elements: Vec::new(),
            below: Vec::new(),
            top: Vec::new(),
            next: 1,
            model: Ghost(Map::empty()),
        };
        assert(positions(doc.elements@, doc.top@) =~= Seq::<int>::empty());
        doc
    }

    /// The index of the element at position `p`, if there is one.
    fn find(&self, p: usize) -> (r: Option<usize>)
        ensures
            match r {
                Some(i) => i < self.elements@.len() && self.elements@[i as int].at() == p,
                None => forall|i: int| 0 <= i < self.elements@.len() ==> (#[trigger] self.elements@[i]).at() != p,
            },
    {
        // Where positions were assigned one after the other, the element at
        // position p is the p-th to have arrived.
        if 0 < p && p <= self.elements.len() && self.elements[p - 1].position.0 == p {
            return Some(p - 1);
        }
        let mut i: usize = 0;
        while i < self.elements.len()
            invariant
                i <= self.elements@.len(),
                forall|j: int| 0 <= j < i ==> (#[trigger] self.elements@[j]).at() != p,
            decreases self.elements@.len() - i,
        {
            if self.elements[i].position.0 == p {
                return Some(i);
            }
            i = i + 1;
        }
        None
    }

    /// Whether `position` is the root or the position of an element.
    pub fn holds(&self, position: LogPosition) -> (r: bool)
        ensures
            r == self@.holds(position.0 as int),
    {
        proof {
            use_type_invariant(self);
            reveal(stored);
        }
        position.0 == 0 || self.find(position.0).is_some()
    }

    /// Hands `element` to the document.
    ///
    /// Where its position is taken already, nothing changes. Otherwise the
    /// element is added if the position it follows is present and below its
    /// own, and refused if not.
    pub fn insert(&mut self, element: Element) -> (r: Result<(), CausalityError>)
        requires
            element.at() < usize::MAX,
        ensures
            final(self)@ == old(self)@.insert(element),
            final(self)@.sound(),
            r is Ok <==> old(self)@.holds(element.at()) || old(self)@.admits(element),
            r is Err ==> r == Err::<(), CausalityError>(
                CausalityError { predecessor: element.predecessor },
            ),
            final(self)@.next_position() == if old(self)@.takes(element) && element.at() >= old(
                self,
            )@.next_position() {
                element.at() + 1
            } else {
                old(self)@.next_position()
            },
            old(self)@.takes(element) ==> {
                &&& 0 <= index_below(old(self)@, element, 0) <= old(self)@.text().len()
                &&& final(self)@.text() == old(self)@.text().insert(
                    index_below(old(self)@, element, 0),
                    element.value,
                )
            },
    {
        proof {
            use_type_invariant(&*self);
            lemma_parts_ordered(
                self.origin,
                self.elements@,
                self.below@,
                self.top@,
                self.next as int,
                self.model@,
            );
            lemma_next_position_unique(self.model@, self.next as int, self@.next_position());
            if self@.takes(element) {
                lemma_insert_text(self@, element);
            }
            reveal(stored);
            reveal(list_wf);
            reveal(grown);
        }
        let p = element.position.0;
        if p == 0 || self.find(p).is_some() {
            return Ok(());
        }
        let q = element.predecessor.0;
        if q >= p {
            return Err(CausalityError { predecessor: element.predecessor });
        }
        let mut parent: Option<usize> = None;
        if q != 0 {
            match self.find(q) {
                Some(i) => {
                    parent = Some(i);
                },
                None => {
                    return Err(CausalityError { predecessor: element.predecessor });
                },
            }
        }
        let mut doc = Document::new(self.origin);
        core::mem::swap(self, &mut doc);
        let Document { origin, mut elements, mut below, mut top, next, model } = doc;
        let ghost es = elements@;
        let ghost m = model@;
        let ghost old_top = top@;
        let ghost old_below = below@;
        let n = elements.len();
        let ghost k_at: int;
        match parent {
            None => {
                let k = rank_in(&elements, &top, &element);
                top.insert(k, n);
                proof {
                    k_at = k as int;
                }
            },
            Some(i) => {
                let k = rank_in(&elements, &below[i], &element);
                below[i].insert(k, n);
                proof {
                    k_at = k as int;
                }
            },
        }
        elements.push(element);
        below.push(Vec::new());
        let next2 = if p >= next {
            p + 1
        } else {
            next
        };
        let ghost m2 = m.insert(p as int, element);
        proof {
            assert(elements@ == es.push(element));
            assert(!m.dom().contains(p as int));
            assert(grown(es, old_below, old_top, element, parent, k_at, below@, top@, n));
            lemma_grown_parts_wf(
                origin,
                es,
                old_below,
                old_top,
                next as int,
                m,
                element,
                parent,
                k_at,
                below@,
                top@,
                n,
            );
        }
        proof {
            lemma_parts_ordered(origin, elements@, below@, top@, next2 as int, m2);
            lemma_next_position_unique(
                m2,
                next2 as int,
                (DocumentView { origin, elements: m2 }).next_position(),
            );
        }
        *self = Document { origin, elements, below, top, next: next2, model: Ghost(m2) };
        Ok(())
    }
    /// Inserts `value` after the position `predecessor` on behalf of
    /// `author`, at the next position, and returns that position.
    ///
    /// Refused, with the document unchanged, where `predecessor` is not in
    /// the document. An insertion that is made adds the character to the
    /// text at one place. After the end of a text that was typed from its
    /// start to its end, that place is the end. After the root, it is the
    /// start where the new element is visited before every other follower
    /// of the root, and the end where it is visited after every one.
    pub fn insert_after(&mut self, author: Author, predecessor: LogPosition, value: char) -> (r:
        Result<LogPosition, CausalityError>)
        requires
            old(self)@.holds(predecessor.0 as int) ==> old(self)@.next_position() < usize::MAX,
        ensures
            final(self)@ == old(self)@.insert_after(author, predecessor, value),
            final(self)@.sound(),
            match r {
                Ok(position) => {
                    &&& old(self)@.holds(predecessor.0 as int)
                    &&& position.0 == old(self)@.next_position()
                    &&& predecessor.0 < position.0
                    &&& !old(self)@.holds(position.0 as int)
                    &&& final(self)@.next_position() == position.0 + 1
                    &&& is_chain(old(self)@.elements, predecessor.0 as int) ==> {
                        &&& is_chain(final(self)@.elements, position.0 as int)
                        &&& final(self)@.text() == old(self)@.text().push(value)
                    }
                    &&& predecessor.0 == 0 && old(self)@.leads(
                        Element { author, position, predecessor, value },
                    ) ==> final(self)@.text() == seq![value] + old(self)@.text()
                    &&& predecessor.0 == 0 && old(self)@.trails(
                        Element { author, position, predecessor, value },
                    ) ==> final(self)@.text() == old(self)@.text().push(value)
                    &&& 0 <= index_below(
                        old(self)@,
                        Element { author, position, predecessor, value },
                        0,
                    ) <= old(self)@.text().len()
                    &&& final(self)@.text() == old(self)@.text().insert(
                        index_below(
                            old(self)@,
                            Element { author, position, predecessor, value },
                            0,
                        ),
                        value,
                    )
                },
                Err(e) => {
                    &&& !old(self)@.holds(predecessor.0 as int)
                    &&& e == CausalityError { predecessor }
                },
            },
    {
        proof {
            use_type_invariant(&*self);
            lemma_next_position_unique(self.model@, self.next as int, self@.next_position());
            lemma_parts_ordered(
                self.origin,
                self.elements@,
                self.below@,
                self.top@,
                self.next as int,
                self.model@,
            );
        }
        if !self.holds(predecessor) {
            return Err(CausalityError { predecessor });
        }
        let position = LogPosition(self.next);
        let element = Element { author, position, predecessor, value };
        let ghost before = self@;
        let r = self.insert(element);
        proof {
            if is_chain(before.elements, predecessor.0 as int) {
                lemma_chain_text(before, predecessor.0 as int);
                lemma_chain_grows(before, predecessor.0 as int, author, value);
            }
            if predecessor.0 == 0 && before.leads(element) {
                lemma_insert_at_start(before, element);
            }
            if predecessor.0 == 0 && before.trails(element) {
                lemma_insert_at_end(before, element);
            }
        }
        Ok(position)
    }

    /// The position that the next call of `insert_after` assigns.
    pub fn next_position(&self) -> (r: LogPosition)
        ensures
            r.0 == self@.next_position(),
            self@.sound(),
    {
        proof {
            use_type_invariant(self);
            lemma_next_position_unique(self.model@, self.next as int, self@.next_position());
            lemma_parts_ordered(
                self.origin,
                self.elements@,
                self.below@,
                self.top@,
                self.next as int,
                self.model@,
            );
        }
        LogPosition(self.next)
    }

    /// The author who owns the root.
    pub fn origin(&self) -> (r: Author)
        ensures
            r == self@.origin,
    {
        self.origin
    }

    /// The element at `position`, if there is one.
    pub fn get(&self, position: LogPosition) -> (r: Option<Element>)
        ensures
            r == if self@.elements.dom().contains(position.0 as int) {
                Some(self@.elements[position.0 as int])
            } else {
                None
            },
    {
        proof {
            use_type_invariant(self);
            reveal(stored);
        }
        match self.find(position.0) {
            Some(i) => Some(self.elements[i]),
            None => None,
        }
    }

    /// The text of the document: the depth-first walk from the root, the
    /// followers of each position in visiting order.
    pub fn to_string(&self) -> (text: String)
        ensures
            text@ == self@.text(),
            self@.sound(),
    {
        proof {
            use_type_invariant(self);
            lemma_parts_ordered(
                self.origin,
                self.elements@,
                self.below@,
                self.top@,
                self.next as int,
                self.model@,
            );
        }
        let ghost m = self.model@;
        let ghost es = self.elements@;
        let mut text = String::new();
        let mut stack: Vec<usize> = Vec::new();
        push_reversed(&mut stack, &self.top);
        proof {
            lemma_walk_start(self.origin, es, self.below@, self.top@, self.next as int, m);
        }
        while stack.len() > 0
            invariant
                m == self.model@,
                es == self.elements@,
                walking(es, self.below@, m, stack@, text@),
            decreases linearize(m).len() - text@.len(),
        {
            proof {
                lemma_walk_goes_on(es, self.below@, m, stack@, text@);
            }
            let ghost before = stack@;
            let ghost written = text@;
            let i = stack.pop().unwrap();
            let element = self.elements[i];
            text.push(element.value);
            let ghost rest = stack@;
            push_reversed(&mut stack, &self.below[i]);
            proof {
                assert(before =~= rest.push(i));
                lemma_walk_step(es, self.below@, m, rest, i, written);
                lemma_walk_length(es, self.below@, m, stack@, text@);
            }
        }
        proof {
            assert(stack@ =~= Seq::<usize>::empty());
            lemma_walk_end(es, self.below@, m, text@);
        }
        text
    }
}

} // verus!
