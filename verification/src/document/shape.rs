//! What holds of the parts of a document between its operations, and why
//! the operations keep it so.

use crate::author::Author;
use crate::document::lemmas::{
    is_rank, lemma_child_order_grows, lemma_child_order_starts, lemma_child_order_unchanged,
    lemma_child_order_unique, lemma_insert_keeps_causal, lemma_outranks_is_strict_total,
    lemma_run_text_concat, lemma_run_text_from_root,
};
use crate::document::model::{
    children_of, is_child_order, is_next_position, linearize, outranks, run_text, subtree_text,
    DocumentView, Element,
};
use vstd::prelude::*;

verus! {

/// The positions of the elements with the indices `idx`.
pub(crate) open spec fn positions(es: Seq<Element>, idx: Seq<usize>) -> Seq<int> {
    Seq::new(idx.len(), |k: int| es[idx[k] as int].at())
}

/// The positions of a list read backwards are the positions read
/// backwards.
pub(crate) proof fn lemma_positions_reverse(es: Seq<Element>, idx: Seq<usize>)
    ensures
        positions(es, idx.reverse()) == positions(es, idx).reverse(),
        positions(es, idx.reverse()).reverse() == positions(es, idx),
{
    assert(positions(es, idx.reverse()) =~= positions(es, idx).reverse());
    assert(positions(es, idx).reverse().reverse() =~= positions(es, idx));
}

/// The positions of two lists in a row are the positions of the first
/// followed by those of the second.
pub(crate) proof fn lemma_positions_concat(es: Seq<Element>, a: Seq<usize>, b: Seq<usize>)
    ensures
        positions(es, a + b) == positions(es, a) + positions(es, b),
        (a + b).reverse() == b.reverse() + a.reverse(),
        (positions(es, a) + positions(es, b)).reverse() == positions(es, b).reverse() + positions(
            es,
            a,
        ).reverse(),
{
    assert(positions(es, a + b) =~= positions(es, a) + positions(es, b));
    assert((a + b).reverse() =~= b.reverse() + a.reverse());
    assert((positions(es, a) + positions(es, b)).reverse() =~= positions(es, b).reverse()
        + positions(es, a).reverse());
}

/// `idx` holds indices of elements, and these are the followers of `p` in
/// visiting order.
#[verifier::opaque]
pub(crate) open spec fn list_wf(
    es: Seq<Element>,
    m: Map<int, Element>,
    idx: Seq<usize>,
    p: int,
) -> bool {
    &&& forall|k: int| 0 <= k < idx.len() ==> #[trigger] idx[k] < es.len()
    &&& is_child_order(m, p, positions(es, idx))
}

/// The elements in arrival order are exactly the elements of the model,
/// each once.
#[verifier::opaque]
pub(crate) open spec fn stored(es: Seq<Element>, m: Map<int, Element>) -> bool {
    &&& forall|i: int| 0 <= i < es.len() ==> m.dom().contains((#[trigger] es[i]).at()) && m[es[i].at()] == es[i]
    &&& forall|k: int| #[trigger]
        m.dom().contains(k) ==> exists|i: int| 0 <= i < es.len() && (#[trigger] es[i]).at() == k
    &&& forall|i: int, j: int|
        0 <= i < j < es.len() ==> (#[trigger] es[i]).at() != (#[trigger] es[j]).at()
}

/// The parts of a document fit together: the elements that are stored are
/// those of the model, the model is causal, `next` is its next position,
/// and the lists are the followers of the root and of each element, in
/// visiting order.
pub(crate) open spec fn parts_wf(
    origin: Author,
    es: Seq<Element>,
    below: Seq<Vec<usize>>,
    top: Seq<usize>,
    next: int,
    m: Map<int, Element>,
) -> bool {
    &&& below.len() == es.len()
    &&& is_next_position(m, next)
    &&& (DocumentView { origin, elements: m }).causal()
    &&& stored(es, m)
    &&& list_wf(es, m, top, 0)
    &&& forall|i: int| 0 <= i < es.len() ==> list_wf(es, m, (#[trigger] below[i])@, es[i].at())
}

/// A list of followers stays one when an element that follows another
/// position arrives.
pub(crate) proof fn lemma_list_unchanged(
    es: Seq<Element>,
    m: Map<int, Element>,
    idx: Seq<usize>,
    q: int,
    e: Element,
)
    requires
        list_wf(es, m, idx, q),
        !m.dom().contains(e.at()),
        e.after() != q,
    ensures
        list_wf(es.push(e), m.insert(e.at(), e), idx, q),
{
    reveal(list_wf);
    assert(positions(es.push(e), idx) =~= positions(es, idx)) by {
        assert forall|k: int| 0 <= k < idx.len() implies positions(es.push(e), idx)[k]
            == positions(es, idx)[k] by {
            assert(idx[k] < es.len());
        }
    }
    lemma_child_order_unchanged(m, q, positions(es, idx), e);
}

/// A list of followers with a new follower put at its rank is the list of
/// followers of the grown document.
pub(crate) proof fn lemma_list_grows(
    es: Seq<Element>,
    m: Map<int, Element>,
    idx: Seq<usize>,
    q: int,
    e: Element,
    k: int,
    n: usize,
)
    requires
        list_wf(es, m, idx, q),
        !m.dom().contains(e.at()),
        e.after() == q,
        stored(es, m),
        0 <= k <= idx.len(),
        n == es.len(),
        forall|j: int| 0 <= j < k ==> outranks(es[#[trigger] idx[j] as int], e),
        k < idx.len() ==> !outranks(es[idx[k] as int], e),
    ensures
        list_wf(es.push(e), m.insert(e.at(), e), idx.insert(k, n), q),
{
    reveal(list_wf);
    reveal(stored);
    let es2 = es.push(e);
    let idx2 = idx.insert(k, n);
    let s = positions(es, idx);
    let s2 = positions(es2, idx2);
    assert(s2 =~= s.insert(k, e.at())) by {
        assert forall|i: int| 0 <= i < idx2.len() implies s2[i] == s.insert(k, e.at())[i] by {
            if i < k {
                assert(idx2[i] == idx[i]);
                assert(idx[i] < es.len());
            } else if i == k {
                assert(idx2[i] == n);
            } else {
                assert(idx2[i] == idx[i - 1]);
                assert(idx[i - 1] < es.len());
            }
        }
    }
    assert forall|i: int| 0 <= i < idx2.len() implies #[trigger] idx2[i] < es2.len() by {
        if i < k {
            assert(idx2[i] == idx[i]);
        } else if i > k {
            assert(idx2[i] == idx[i - 1]);
        }
    }
    // Each follower is the element of the model at its position.
    assert forall|i: int| 0 <= i < s.len() implies s[i] != e.at() && m[#[trigger] s[i]]
        == es[idx[i] as int] by {
        assert(idx[i] < es.len());
        assert(m.dom().contains(es[idx[i] as int].at()));
    }
    assert(is_rank(m, s, e, k)) by {
        assert forall|j: int| 0 <= j < k implies outranks(m[#[trigger] s[j]], e) by {
            assert(outranks(es[idx[j] as int], e));
        }
        assert forall|j: int| k <= j < s.len() implies outranks(e, m[#[trigger] s[j]]) by {
            assert(m[s[k]] == es[idx[k] as int]);
            assert(m[s[k]].at() == s[k]) by {
                assert(idx[k] < es.len());
            }
            lemma_outranks_is_strict_total(e, m[s[k]], m[s[j]]);
            if j > k {
                assert(outranks(m[s[k]], m[s[j]]));
            }
        }
    }
    lemma_child_order_grows(m, q, s, e, k);
}

/// The elements stay stored when one with a new position arrives.
pub(crate) proof fn lemma_grown_stored(es: Seq<Element>, m: Map<int, Element>, e: Element)
    requires
        stored(es, m),
        !m.dom().contains(e.at()),
    ensures
        stored(es.push(e), m.insert(e.at(), e)),
{
    reveal(stored);
    let es2 = es.push(e);
    let m2 = m.insert(e.at(), e);
    assert forall|i: int| 0 <= i < es2.len() implies m2.dom().contains((#[trigger] es2[i]).at())
        && m2[es2[i].at()] == es2[i] by {
        if i < es.len() {
            assert(m.dom().contains(es[i].at()));
        }
    }
    assert forall|k: int| #[trigger] m2.dom().contains(k) implies exists|i: int|
        0 <= i < es2.len() && (#[trigger] es2[i]).at() == k by {
        if k == e.at() {
            assert(es2[es.len() as int].at() == k);
        } else {
            assert(m.dom().contains(k));
            let i = choose|i: int| 0 <= i < es.len() && (#[trigger] es[i]).at() == k;
            assert(es2[i].at() == k);
        }
    }
    assert forall|i: int, j: int| 0 <= i < j < es2.len() implies (#[trigger] es2[i]).at() != (
    #[trigger] es2[j]).at() by {
        assert(m.dom().contains(es[i].at()));
    }
}

/// How the lists of followers change when the element `e` arrives as the
/// `n`-th: it is put at index `k` into the list of its predecessor, which
/// is the root or the element of index `parent`, and gets an empty list of
/// its own.
#[verifier::opaque]
pub(crate) open spec fn grown(
    es: Seq<Element>,
    below: Seq<Vec<usize>>,
    top: Seq<usize>,
    e: Element,
    parent: Option<usize>,
    k: int,
    below2: Seq<Vec<usize>>,
    top2: Seq<usize>,
    n: usize,
) -> bool {
    &&& n == es.len()
    &&& below2.len() == n + 1
    &&& below2[n as int]@ == Seq::<usize>::empty()
    &&& forall|i: int|
        0 <= i < n && parent != Some(i as usize) ==> (#[trigger] below2[i])@ == below[i]@
    &&& match parent {
        None => {
            &&& e.after() == 0
            &&& 0 <= k <= top.len()
            &&& top2 == top.insert(k, n)
            &&& forall|j: int| 0 <= j < k ==> outranks(es[#[trigger] top[j] as int], e)
            &&& k < top.len() ==> !outranks(es[top[k] as int], e)
        },
        Some(i) => {
            &&& i < n
            &&& es[i as int].at() == e.after()
            &&& 0 <= k <= below[i as int]@.len()
            &&& top2 == top
            &&& below2[i as int]@ == below[i as int]@.insert(k, n)
            &&& forall|j: int|
                0 <= j < k ==> outranks(es[#[trigger] below[i as int]@[j] as int], e)
            &&& k < below[i as int]@.len() ==> !outranks(es[below[i as int]@[k] as int], e)
        },
    }
}

/// The list of followers of the root stays one when an element arrives.
pub(crate) proof fn lemma_grown_top(
    es: Seq<Element>,
    below: Seq<Vec<usize>>,
    top: Seq<usize>,
    m: Map<int, Element>,
    e: Element,
    parent: Option<usize>,
    k: int,
    below2: Seq<Vec<usize>>,
    top2: Seq<usize>,
    n: usize,
)
    requires
        stored(es, m),
        list_wf(es, m, top, 0),
        !m.dom().contains(e.at()),
        parent is Some ==> e.after() != 0,
        grown(es, below, top, e, parent, k, below2, top2, n),
    ensures
        list_wf(es.push(e), m.insert(e.at(), e), top2, 0),
{
    reveal(grown);
    if parent is None {
        lemma_list_grows(es, m, top, 0, e, k, n);
    } else {
        lemma_list_unchanged(es, m, top, 0, e);
    }
}

/// The list of followers of the element of index `i` stays one when an
/// element arrives.
pub(crate) proof fn lemma_grown_below(
    es: Seq<Element>,
    below: Seq<Vec<usize>>,
    top: Seq<usize>,
    m: Map<int, Element>,
    e: Element,
    parent: Option<usize>,
    k: int,
    below2: Seq<Vec<usize>>,
    top2: Seq<usize>,
    n: usize,
    i: int,
)
    requires
        stored(es, m),
        0 <= i < es.len(),
        list_wf(es, m, below[i]@, es[i].at()),
        es[i].at() != 0,
        !m.dom().contains(e.at()),
        grown(es, below, top, e, parent, k, below2, top2, n),
    ensures
        list_wf(es.push(e), m.insert(e.at(), e), below2[i]@, es[i].at()),
{
    reveal(grown);
    reveal(stored);
    if parent == Some(i as usize) {
        lemma_list_grows(es, m, below[i]@, es[i].at(), e, k, n);
    } else {
        assert(below2[i]@ == below[i]@);
        if parent is Some {
            let j = parent.unwrap() as int;
            assert(es[j].at() != es[i].at()) by {
                if j < i {
                    assert(es[j].at() != es[i].at());
                } else {
                    assert(es[i].at() != es[j].at());
                }
            }
        }
        lemma_list_unchanged(es, m, below[i]@, es[i].at(), e);
    }
}

/// The followers of every position are in a visiting order: the lists say
/// which.
pub(crate) proof fn lemma_parts_ordered(
    origin: Author,
    es: Seq<Element>,
    below: Seq<Vec<usize>>,
    top: Seq<usize>,
    next: int,
    m: Map<int, Element>,
)
    requires
        parts_wf(origin, es, below, top, next, m),
    ensures
        (DocumentView { origin, elements: m }).sound(),
{
    reveal(list_wf);
    reveal(stored);
    let v = DocumentView { origin, elements: m };
    assert(is_next_position(m, v.next_position()));
    assert forall|p: int| is_child_order(m, p, #[trigger] children_of(m, p)) by {
        if p == 0 {
            lemma_child_order_unique(m, p, positions(es, top));
        } else if exists|i: int| 0 <= i < es.len() && (#[trigger] es[i]).at() == p {
            let i = choose|i: int| 0 <= i < es.len() && (#[trigger] es[i]).at() == p;
            assert(list_wf(es, m, below[i]@, es[i].at()));
            lemma_child_order_unique(m, p, positions(es, below[i]@));
        } else {
            let none = Seq::<int>::empty();
            assert(is_child_order(m, p, none)) by {
                assert forall|x: int| #[trigger] m.dom().contains(x) && m[x].after()
                    == p implies none.contains(x) by {
                    assert(v.holds(m[x].after()));
                    assert(m.dom().contains(p));
                    let i = choose|i: int| 0 <= i < es.len() && (#[trigger] es[i]).at() == p;
                    assert(es[i].at() == p);
                }
            }
            lemma_child_order_unique(m, p, none);
        }
    }
}

/// What the growth of the lists says of their shape, and of where the
/// predecessor of the new element is.
pub(crate) proof fn lemma_grown_shape(
    origin: Author,
    es: Seq<Element>,
    below: Seq<Vec<usize>>,
    top: Seq<usize>,
    m: Map<int, Element>,
    e: Element,
    parent: Option<usize>,
    k: int,
    below2: Seq<Vec<usize>>,
    top2: Seq<usize>,
    n: usize,
)
    requires
        stored(es, m),
        (DocumentView { origin, elements: m }).causal(),
        grown(es, below, top, e, parent, k, below2, top2, n),
    ensures
        n == es.len(),
        below2.len() == es.len() + 1,
        below2[es.len() as int]@ == Seq::<usize>::empty(),
        (DocumentView { origin, elements: m }).holds(e.after()),
        forall|i: int| 0 <= i < es.len() ==> (#[trigger] es[i]).at() != 0,
        parent is Some ==> e.after() != 0,
{
    reveal(grown);
    reveal(stored);
    if parent is Some {
        assert(m.dom().contains(es[parent.unwrap() as int].at()));
    }
    assert forall|i: int| 0 <= i < es.len() implies (#[trigger] es[i]).at() != 0 by {
        assert(m.dom().contains(es[i].at()));
    }
}

/// The next position after an element was added.
pub(crate) proof fn lemma_grown_next(m: Map<int, Element>, next: int, e: Element)
    requires
        is_next_position(m, next),
        e.at() >= 1,
    ensures
        is_next_position(
            m.insert(e.at(), e),
            if e.at() >= next {
                e.at() + 1
            } else {
                next
            },
        ),
{
    if e.at() < next && next > 1 {
        assert(m.dom().contains(next - 1));
    }
}

/// The document's parts stay well-formed when an admitted element with a
/// new position is stored, and put at its rank among the followers of its
/// predecessor.
pub(crate) proof fn lemma_grown_parts_wf(
    origin: Author,
    es: Seq<Element>,
    below: Seq<Vec<usize>>,
    top: Seq<usize>,
    next: int,
    m: Map<int, Element>,
    e: Element,
    parent: Option<usize>,
    k: int,
    below2: Seq<Vec<usize>>,
    top2: Seq<usize>,
    n: usize,
)
    requires
        parts_wf(origin, es, below, top, next, m),
        !m.dom().contains(e.at()),
        0 <= e.after() < e.at(),
        grown(es, below, top, e, parent, k, below2, top2, n),
    ensures
        parts_wf(
            origin,
            es.push(e),
            below2,
            top2,
            if e.at() >= next {
                e.at() + 1
            } else {
                next
            },
            m.insert(e.at(), e),
        ),
{
    let es2 = es.push(e);
    let m2 = m.insert(e.at(), e);
    let v = DocumentView { origin, elements: m };
    lemma_grown_shape(origin, es, below, top, m, e, parent, k, below2, top2, n);
    lemma_grown_stored(es, m, e);
    lemma_grown_next(m, next, e);
    lemma_insert_keeps_causal(v, e);
    assert(v.insert(e) == DocumentView { origin, elements: m2 });
    lemma_grown_top(es, below, top, m, e, parent, k, below2, top2, n);
    assert forall|i: int| 0 <= i < es2.len() implies list_wf(
        es2,
        m2,
        (#[trigger] below2[i])@,
        es2[i].at(),
    ) by {
        if i < es.len() {
            assert(es[i].at() != 0);
            lemma_grown_below(es, below, top, m, e, parent, k, below2, top2, n, i);
        } else {
            lemma_list_starts(es2, m2, v, e);
        }
    }
}

/// A new element has no followers yet.
pub(crate) proof fn lemma_list_starts(
    es2: Seq<Element>,
    m2: Map<int, Element>,
    v: DocumentView,
    e: Element,
)
    requires
        v.causal(),
        !v.holds(e.at()),
        e.after() < e.at(),
        m2 == v.elements.insert(e.at(), e),
    ensures
        list_wf(es2, m2, Seq::<usize>::empty(), e.at()),
{
    reveal(list_wf);
    assert(positions(es2, Seq::<usize>::empty()) =~= Seq::<int>::empty());
    lemma_child_order_starts(v, e);
}

/// What holds between the steps of the walk that reads the text off: the
/// indices on the stack are those of elements, and the text is what is
/// written followed by the text of what is on the stack, the top first.
#[verifier::opaque]
pub(crate) open spec fn walking(
    es: Seq<Element>,
    below: Seq<Vec<usize>>,
    m: Map<int, Element>,
    stack: Seq<usize>,
    written: Seq<char>,
) -> bool {
    &&& stored(es, m)
    &&& forall|k: int| #[trigger] m.dom().contains(k) ==> m[k].at() == k && 0 <= m[k].after() < k
    &&& below.len() == es.len()
    &&& forall|i: int| 0 <= i < es.len() ==> list_wf(es, m, (#[trigger] below[i])@, es[i].at())
    &&& forall|k: int| 0 <= k < stack.len() ==> #[trigger] stack[k] < es.len()
    &&& linearize(m) == written + run_text(m, positions(es, stack).reverse(), 0)
}

/// The walk starts with the followers of the root on the stack and nothing
/// written.
pub(crate) proof fn lemma_walk_start(
    origin: Author,
    es: Seq<Element>,
    below: Seq<Vec<usize>>,
    top: Seq<usize>,
    next: int,
    m: Map<int, Element>,
)
    requires
        parts_wf(origin, es, below, top, next, m),
    ensures
        walking(es, below, m, Seq::<usize>::empty() + top.reverse(), Seq::empty()),
{
    reveal(list_wf);
    let stack = Seq::<usize>::empty() + top.reverse();
    assert(stack =~= top.reverse());
    lemma_positions_reverse(es, top);
    assert(positions(es, stack).reverse() == positions(es, top));
    lemma_child_order_unique(m, 0, positions(es, top));
    assert(linearize(m) == run_text(m, positions(es, top), 0));
    assert(Seq::<char>::empty() + run_text(m, positions(es, top), 0) =~= run_text(
        m,
        positions(es, top),
        0,
    ));
    assert forall|k: int| 0 <= k < stack.len() implies #[trigger] stack[k] < es.len() by {
        assert(stack[k] == top[top.len() - 1 - k]);
    }
    assert forall|k: int| #[trigger] m.dom().contains(k) implies m[k].at() == k && 0
        <= m[k].after() < k by {
        assert((DocumentView { origin, elements: m }).causal());
    }
    reveal(walking);
}

/// While the stack is not empty, its top is the index of an element, and
/// not all of the text is written.
pub(crate) proof fn lemma_walk_goes_on(
    es: Seq<Element>,
    below: Seq<Vec<usize>>,
    m: Map<int, Element>,
    stack: Seq<usize>,
    written: Seq<char>,
)
    requires
        walking(es, below, m, stack, written),
        stack.len() > 0,
    ensures
        stack.last() < es.len(),
        below.len() == es.len(),
        written.len() < linearize(m).len(),
{
    reveal(walking);
    let i = stack.last();
    let rest = stack.drop_last();
    assert(stack =~= rest.push(i));
    lemma_walk_step(es, below, m, rest, i, written);
    reveal(walking);
}

/// The text that is written and pending stays the same when the element
/// on top of the stack is written and its followers take its place.
pub(crate) proof fn lemma_walk_text(
    es: Seq<Element>,
    m: Map<int, Element>,
    rest: Seq<usize>,
    i: usize,
    list: Seq<usize>,
    written: Seq<char>,
    total: Seq<char>,
)
    requires
        stored(es, m),
        forall|k: int| #[trigger] m.dom().contains(k) ==> m[k].at() == k && 0 <= m[k].after() < k,
        i < es.len(),
        list_wf(es, m, list, es[i as int].at()),
        total == written + run_text(m, positions(es, rest.push(i)).reverse(), 0),
    ensures
        total == written.push(es[i as int].value) + run_text(
            m,
            positions(es, rest + list.reverse()).reverse(),
            0,
        ),
{
    reveal(list_wf);
    reveal(stored);
    let element = es[i as int];
    let c = element.at();
    let followers = positions(es, list);
    let pending = positions(es, rest).reverse();
    assert(m.dom().contains(c) && m[c] == element);
    assert(positions(es, rest.push(i)).reverse() == seq![c] + pending) by {
        assert(rest.push(i) =~= rest + seq![i]);
        lemma_positions_concat(es, rest, seq![i]);
        assert(positions(es, seq![i]) =~= seq![c]);
        assert(seq![c].reverse() =~= seq![c]);
    }
    assert((seq![c] + pending).drop_first() =~= pending);
    lemma_child_order_unique(m, c, followers);
    assert forall|k: int| 0 <= k < followers.len() implies c < #[trigger] followers[k] by {
        assert(m.dom().contains(followers[k]) && m[followers[k]].after() == c);
    }
    lemma_run_text_from_root(m, followers, c);
    lemma_run_text_concat(m, followers, pending, 0);
    assert(positions(es, rest + list.reverse()).reverse() == followers + pending) by {
        lemma_positions_concat(es, rest, list.reverse());
        lemma_positions_reverse(es, list);
    }
    assert(subtree_text(m, c) == run_text(m, followers, 0));
    assert(run_text(m, seq![c] + pending, 0) == (seq![element.value] + subtree_text(m, c))
        + run_text(m, pending, 0));
    assert(written.push(element.value) + run_text(m, followers + pending, 0) =~= written
        + run_text(m, seq![c] + pending, 0));
}

/// The indices on the stack stay those of elements when the followers of
/// an element take the place of the top.
pub(crate) proof fn lemma_walk_indices(n: nat, rest: Seq<usize>, i: usize, list: Seq<usize>)
    requires
        forall|k: int| 0 <= k < rest.push(i).len() ==> #[trigger] rest.push(i)[k] < n,
        forall|k: int| 0 <= k < list.len() ==> #[trigger] list[k] < n,
    ensures
        i < n,
        forall|k: int| 0 <= k < (rest + list.reverse()).len() ==> #[trigger] (rest + list.reverse())[k] < n,
{
    assert(rest.push(i)[rest.len() as int] == i);
    let stack2 = rest + list.reverse();
    assert forall|k: int| 0 <= k < stack2.len() implies #[trigger] stack2[k] < n by {
        if k >= rest.len() {
            assert(stack2[k] == list[list.len() - 1 - (k - rest.len())]);
        } else {
            assert(rest.push(i)[k] == rest[k]);
        }
    }
}

/// One step of the walk: with the element of index `i` on top of the
/// stack, writing its character and putting its followers on the stack in
/// its place leaves the walk where it should be.
pub(crate) proof fn lemma_walk_step(
    es: Seq<Element>,
    below: Seq<Vec<usize>>,
    m: Map<int, Element>,
    rest: Seq<usize>,
    i: usize,
    written: Seq<char>,
)
    requires
        walking(es, below, m, rest.push(i), written),
    ensures
        i < es.len(),
        walking(es, below, m, rest + below[i as int]@.reverse(), written.push(es[i as int].value)),
{
    reveal(list_wf);
    reveal(walking);
    assert(rest.push(i)[rest.len() as int] == i);
    assert(i < es.len());
    let list = below[i as int]@;
    assert(list_wf(es, m, list, es[i as int].at()));
    lemma_walk_indices(es.len(), rest, i, list);
    lemma_walk_text(es, m, rest, i, list, written, linearize(m));
}

/// What is written is never longer than the text.
pub(crate) proof fn lemma_walk_length(
    es: Seq<Element>,
    below: Seq<Vec<usize>>,
    m: Map<int, Element>,
    stack: Seq<usize>,
    written: Seq<char>,
)
    requires
        walking(es, below, m, stack, written),
    ensures
        written.len() <= linearize(m).len(),
{
    reveal(walking);
}

/// When the stack is empty, all of the text is written.
pub(crate) proof fn lemma_walk_end(
    es: Seq<Element>,
    below: Seq<Vec<usize>>,
    m: Map<int, Element>,
    written: Seq<char>,
)
    requires
        walking(es, below, m, Seq::empty(), written),
    ensures
        written == linearize(m),
{
    reveal(walking);
    assert(positions(es, Seq::<usize>::empty()).reverse() =~= Seq::<int>::empty());
    assert(written + Seq::<char>::empty() =~= written);
}

/// A set of elements has one next position only.
pub(crate) proof fn lemma_next_position_unique(m: Map<int, Element>, a: int, b: int)
    requires
        is_next_position(m, a),
    ensures
        is_next_position(m, b) ==> a == b,
        a == (DocumentView { origin: Author::Server, elements: m }).next_position(),
{
    let n = choose|n: int| is_next_position(m, n);
    assert(is_next_position(m, n));
}

} // verus!
