//! Where an insertion puts its character.

use crate::document::lemmas::{
    is_ranked, is_rank, lemma_child_order_grows, lemma_child_order_starts,
    lemma_child_order_unchanged, lemma_child_order_unique, lemma_outranks_is_strict_total,
    lemma_run_text_concat,
};
use crate::document::model::{
    children_of, is_child_order, outranks, run_text, subtree_text, DocumentView, Element,
};
use vstd::prelude::*;

verus! {

/// The number of elements at the front of `s` that are visited before `e`.
pub open spec fn rank_in(m: Map<int, Element>, s: Seq<int>, e: Element) -> int
    decreases s.len(),
{
    if s.len() == 0 || !outranks(m[s[0]], e) {
        0
    } else {
        1 + rank_in(m, s.drop_first(), e)
    }
}

/// The rank of `e` among the followers of its predecessor: the number of
/// them that are visited before it.
pub open spec fn rank_of(v: DocumentView, e: Element) -> int {
    rank_in(v.elements, children_of(v.elements, e.after()), e)
}

/// Whether `p` is `x`, or a position that `x` follows directly or through
/// other elements.
pub open spec fn reaches(m: Map<int, Element>, x: int, p: int) -> bool
    decreases x,
{
    x == p || (x > p && p >= 0 && m.dom().contains(x) && 0 <= m[x].after() < x && reaches(
        m,
        m[x].after(),
        p,
    ))
}

/// The follower of `p` on the way from `x` up to `p`.
pub open spec fn step_below(m: Map<int, Element>, x: int, p: int) -> int
    decreases x,
{
    if x > p && p >= 0 && m.dom().contains(x) && 0 <= m[x].after() < x && m[x].after() != p {
        step_below(m, m[x].after(), p)
    } else {
        x
    }
}

/// The length of the text of the first `j` of the followers `s` of `p`,
/// each with the text below it.
pub open spec fn text_before(m: Map<int, Element>, s: Seq<int>, p: int, j: int) -> int {
    run_text(m, s.take(j), p).len() as int
}

/// The index in the text below `p` at which the character of `e` goes,
/// where `p` is the predecessor of `e` or a position that the predecessor
/// follows.
///
/// Below its predecessor, the character goes after the followers that are
/// visited before it, and all that is below them. Below a position further
/// up, it goes where it goes below the follower of that position on the
/// way down to the predecessor, after that follower itself and all that is
/// visited before it.
pub open spec fn index_below(v: DocumentView, e: Element, p: int) -> int
    decreases crate::document::model::headroom(p),
{
    let m = v.elements;
    if p == e.after() || !(0 <= p < e.after() <= usize::MAX) {
        text_before(m, children_of(m, p), p, rank_of(v, e))
    } else {
        let c = step_below(m, e.after(), p);
        if p < c <= usize::MAX {
            text_before(m, children_of(m, p), p, children_of(m, p).index_of(c)) + 1 + index_below(
                v,
                e,
                c,
            )
        } else {
            0
        }
    }
}

/// The rank is one: the followers before it are visited before `e`, and
/// `e` before the others.
pub proof fn lemma_rank_in(m: Map<int, Element>, s: Seq<int>, e: Element)
    requires
        is_ranked(m, s),
        forall|i: int| 0 <= i < s.len() ==> m[#[trigger] s[i]].at() != e.at(),
    ensures
        is_rank(m, s, e, rank_in(m, s, e)),
    decreases s.len(),
{
    if s.len() > 0 {
        let t = s.drop_first();
        assert(m[s[0]].at() != e.at());
        if outranks(m[s[0]], e) {
            assert(is_ranked(m, t)) by {
                assert forall|a: int, b: int| 0 <= a < b < t.len() implies outranks(
                    m[#[trigger] t[a]],
                    m[#[trigger] t[b]],
                ) by {
                    assert(outranks(m[s[a + 1]], m[s[b + 1]]));
                }
            }
            assert forall|i: int| 0 <= i < t.len() implies m[#[trigger] t[i]].at() != e.at() by {
                assert(t[i] == s[i + 1]);
            }
            lemma_rank_in(m, t, e);
            let k = rank_in(m, t, e);
            assert forall|j: int| 0 <= j < k + 1 implies outranks(m[#[trigger] s[j]], e) by {
                if j > 0 {
                    assert(s[j] == t[j - 1]);
                }
            }
            assert forall|j: int| k + 1 <= j < s.len() implies outranks(e, m[#[trigger] s[j]]) by {
                assert(s[j] == t[j - 1]);
            }
        } else {
            assert forall|j: int| 0 <= j < s.len() implies outranks(e, m[#[trigger] s[j]]) by {
                lemma_outranks_is_strict_total(e, m[s[0]], m[s[j]]);
                if j > 0 {
                    assert(outranks(m[s[0]], m[s[j]]));
                }
            }
        }
    }
}

/// How the followers change when an element is added: those of its
/// predecessor gain it at its rank, and those of every other position stay
/// as they are. So the followers of every position stay in a visiting
/// order.
pub proof fn lemma_insert_children(v: DocumentView, e: Element, p: int)
    requires
        v.causal(),
        v.ordered(),
        !v.holds(e.at()),
        v.admits(e),
    ensures
        children_of(v.insert(e).elements, p) == if p == e.after() {
            children_of(v.elements, p).insert(rank_of(v, e), e.at())
        } else {
            children_of(v.elements, p)
        },
        0 <= rank_of(v, e) <= children_of(v.elements, e.after()).len(),
        is_child_order(v.insert(e).elements, p, children_of(v.insert(e).elements, p)),
{
    let m = v.elements;
    let m2 = v.insert(e).elements;
    let s = children_of(m, p);
    assert(is_child_order(m, p, s));
    let c = children_of(m, e.after());
    assert(is_child_order(m, e.after(), c));
    assert forall|i: int| 0 <= i < c.len() implies m[#[trigger] c[i]].at() != e.at() by {
        assert(m.dom().contains(c[i]));
    }
    lemma_rank_in(m, c, e);
    if p == e.after() {
        lemma_child_order_grows(m, p, s, e, rank_of(v, e));
        lemma_child_order_unique(m2, p, s.insert(rank_of(v, e), e.at()));
    } else if p == e.at() {
        lemma_child_order_starts(v, e);
        lemma_child_order_unique(m2, p, Seq::empty());
        assert(s =~= Seq::<int>::empty()) by {
            if s.len() > 0 {
                assert(m.dom().contains(s[0]) && m[s[0]].after() == p);
                assert(v.holds(m[s[0]].after()));
            }
        }
    } else {
        lemma_child_order_unchanged(m, p, s, e);
        lemma_child_order_unique(m2, p, s);
    }
}

/// Adding an element keeps the followers of every position in a visiting
/// order.
pub proof fn lemma_insert_keeps_ordered(v: DocumentView, e: Element)
    requires
        v.causal(),
        v.ordered(),
    ensures
        v.insert(e).ordered(),
{
    if v.takes(e) {
        assert forall|p: int|
            is_child_order(
                v.insert(e).elements,
                p,
                #[trigger] children_of(v.insert(e).elements, p),
            ) by {
            lemma_insert_children(v, e, p);
        }
    }
}

/// The empty document is sound, and its next position is the first.
pub proof fn lemma_empty_is_sound(origin: crate::author::Author)
    ensures
        DocumentView::empty(origin).sound(),
        DocumentView::empty(origin).next_position() == 1,
{
    let m = DocumentView::empty(origin).elements;
    assert forall|p: int| is_child_order(m, p, #[trigger] children_of(m, p)) by {
        assert(is_child_order(m, p, Seq::<int>::empty()));
    }
    assert(crate::document::model::is_next_position(m, 1));
}

/// The empty document has no text.
pub proof fn lemma_empty_text(origin: crate::author::Author)
    ensures
        DocumentView::empty(origin).text() == Seq::<char>::empty(),
{
    let m = DocumentView::empty(origin).elements;
    assert(is_child_order(m, 0, Seq::<int>::empty()));
    lemma_child_order_unique(m, 0, Seq::empty());
    assert(DocumentView::empty(origin).text() =~= Seq::<char>::empty());
}

/// Handing an element to a sound document leaves it sound.
pub proof fn lemma_insert_keeps_sound(v: DocumentView, e: Element)
    requires
        v.sound(),
    ensures
        v.insert(e).sound(),
{
    crate::document::lemmas::lemma_insert_keeps_causal(v, e);
    lemma_insert_keeps_ordered(v, e);
    if v.takes(e) {
        let n = v.next_position();
        let n2 = if e.at() >= n {
            e.at() + 1
        } else {
            n
        };
        if e.at() < n && n > 1 {
            assert(v.elements.dom().contains(n - 1));
        }
        assert(crate::document::model::is_next_position(v.insert(e).elements, n2));
    }
}

/// A position that is reached lies at or below where the way starts.
pub proof fn lemma_reaches_below(m: Map<int, Element>, x: int, p: int)
    requires
        reaches(m, x, p),
    ensures
        p <= x,
{
}

/// The way up goes on: what reaches an element reaches its predecessor.
pub proof fn lemma_reaches_on(m: Map<int, Element>, x: int, c: int)
    requires
        reaches(m, x, c),
        m.dom().contains(c),
        0 <= m[c].after() < c,
    ensures
        reaches(m, x, m[c].after()),
    decreases x,
{
    let p = m[c].after();
    if x != c {
        lemma_reaches_on(m, m[x].after(), c);
        lemma_reaches_below(m, m[x].after(), c);
        assert(reaches(m, m[x].after(), p));
    } else {
        assert(reaches(m, p, p));
    }
}

/// On the way from `x` up to a position `p` further up there is a follower
/// of `p`, and the way from `x` passes through it.
pub proof fn lemma_step_below(m: Map<int, Element>, x: int, p: int)
    requires
        reaches(m, x, p),
        x != p,
    ensures
        m.dom().contains(step_below(m, x, p)),
        m[step_below(m, x, p)].after() == p,
        p < step_below(m, x, p) <= x,
        reaches(m, x, step_below(m, x, p)),
    decreases x,
{
    if m[x].after() != p {
        lemma_step_below(m, m[x].after(), p);
    }
}

/// The way from `x` up to `p` passes through one follower of `p` only.
pub proof fn lemma_step_below_unique(m: Map<int, Element>, x: int, p: int, d: int)
    requires
        reaches(m, x, d),
        m.dom().contains(d),
        m[d].after() == p,
        0 <= p < d,
    ensures
        step_below(m, x, p) == d,
    decreases x,
{
    if x != d {
        lemma_reaches_below(m, m[x].after(), d);
        lemma_step_below_unique(m, m[x].after(), p, d);
    }
}

/// In a causal document every position that is present reaches the root.
pub proof fn lemma_reaches_root(v: DocumentView, q: int)
    requires
        v.causal(),
        v.holds(q),
    ensures
        reaches(v.elements, q, 0),
    decreases q,
{
    if q != 0 {
        assert(v.elements.dom().contains(q));
        assert(v.holds(v.elements[q].after()));
        lemma_reaches_root(v, v.elements[q].after());
    }
}

/// Two documents that agree on the elements of a run, and on the text
/// below each, agree on the text of the run.
pub proof fn lemma_run_text_agrees(
    m: Map<int, Element>,
    m2: Map<int, Element>,
    s: Seq<int>,
    p: int,
)
    requires
        forall|i: int|
            0 <= i < s.len() ==> m2[#[trigger] s[i]].value == m[s[i]].value && subtree_text(
                m2,
                s[i],
            ) == subtree_text(m, s[i]),
    ensures
        run_text(m2, s, p) == run_text(m, s, p),
    decreases s.len(),
{
    if s.len() > 0 {
        let t = s.drop_first();
        assert forall|i: int| 0 <= i < t.len() implies m2[#[trigger] t[i]].value == m[t[i]].value
            && subtree_text(m2, t[i]) == subtree_text(m, t[i]) by {
            assert(t[i] == s[i + 1]);
        }
        lemma_run_text_agrees(m, m2, t, p);
        assert(m2[s[0]].value == m[s[0]].value && subtree_text(m2, s[0]) == subtree_text(m, s[0]));
    }
}

/// An insertion changes nothing of the text below a position that the
/// predecessor of the new element does not reach.
pub proof fn lemma_insert_elsewhere(v: DocumentView, e: Element, p: int)
    requires
        v.causal(),
        v.ordered(),
        !v.holds(e.at()),
        v.admits(e),
        !reaches(v.elements, e.after(), p),
        0 <= p,
    ensures
        subtree_text(v.insert(e).elements, p) == subtree_text(v.elements, p),
    decreases crate::document::model::headroom(p),
{
    let m = v.elements;
    let m2 = v.insert(e).elements;
    let s = children_of(m, p);
    lemma_insert_children(v, e, p);
    assert(is_child_order(m, p, s));
    assert(children_of(m2, p) == s);
    if p <= usize::MAX {
        assert forall|i: int| 0 <= i < s.len() implies m2[#[trigger] s[i]].value == m[s[i]].value
            && subtree_text(m2, s[i]) == subtree_text(m, s[i]) by {
            let c = s[i];
            assert(m.dom().contains(c) && m[c].after() == p);
            assert(m[c].at() == c);
            if reaches(m, e.after(), c) {
                lemma_reaches_on(m, e.after(), c);
            }
            lemma_insert_elsewhere(v, e, c);
        }
        lemma_run_text_agrees(m, m2, s, p);
    } else {
        lemma_run_text_out_of_range(m, s, p);
        lemma_run_text_out_of_range(m2, s, p);
    }
}

/// Above the greatest position there is no text.
pub proof fn lemma_run_text_out_of_range(m: Map<int, Element>, s: Seq<int>, p: int)
    requires
        p >= usize::MAX,
    ensures
        run_text(m, s, p) == Seq::<char>::empty(),
    decreases s.len(),
{
    if s.len() > 0 {
        lemma_run_text_out_of_range(m, s.drop_first(), p);
        assert(run_text(m, s, p) =~= Seq::<char>::empty());
    }
}

/// The text of a run of one element.
pub proof fn lemma_run_text_single(m: Map<int, Element>, c: int, p: int)
    ensures
        run_text(m, seq![c], p) == if 0 <= p < c <= usize::MAX {
            seq![m[c].value] + subtree_text(m, c)
        } else {
            Seq::<char>::empty()
        },
{
    let s = seq![c];
    assert(s.drop_first() =~= Seq::<int>::empty());
    assert(run_text(m, s.drop_first(), p) =~= Seq::<char>::empty());
    let head = if 0 <= p < c <= usize::MAX {
        seq![m[c].value] + subtree_text(m, c)
    } else {
        Seq::<char>::empty()
    };
    assert(run_text(m, s, p) == head + run_text(m, s.drop_first(), p));
    assert(head + Seq::<char>::empty() =~= head);
}

/// The text of a run is the text of what is before one of its elements,
/// of that element, and of what is after it.
pub proof fn lemma_run_text_around(m: Map<int, Element>, s: Seq<int>, p: int, j: int)
    requires
        0 <= j < s.len(),
    ensures
        run_text(m, s, p) == run_text(m, s.take(j), p) + run_text(m, seq![s[j]], p) + run_text(
            m,
            s.skip(j + 1),
            p,
        ),
{
    assert(s =~= (s.take(j) + seq![s[j]]) + s.skip(j + 1));
    lemma_run_text_concat(m, s.take(j) + seq![s[j]], s.skip(j + 1), p);
    lemma_run_text_concat(m, s.take(j), seq![s[j]], p);
}

/// The text of a part of the followers of `p` is not touched by an
/// insertion whose way up to `p` passes through none of them.
proof fn lemma_insert_beside(v: DocumentView, e: Element, p: int, part: Seq<int>)
    requires
        v.causal(),
        v.ordered(),
        !v.holds(e.at()),
        v.admits(e),
        0 <= p,
        forall|i: int|
            0 <= i < part.len() ==> v.elements.dom().contains(#[trigger] part[i])
                && !reaches(v.elements, e.after(), part[i]),
    ensures
        run_text(v.insert(e).elements, part, p) == run_text(v.elements, part, p),
{
    let m = v.elements;
    let m2 = v.insert(e).elements;
    assert forall|i: int| 0 <= i < part.len() implies m2[#[trigger] part[i]].value
        == m[part[i]].value && subtree_text(m2, part[i]) == subtree_text(m, part[i]) by {
        assert(m.dom().contains(part[i]));
        assert(m[part[i]].at() == part[i]);
        lemma_insert_elsewhere(v, e, part[i]);
    }
    lemma_run_text_agrees(m, m2, part, p);
}

/// Below its predecessor, the character of a new element goes after the
/// text of the followers that are visited before it.
pub proof fn lemma_insert_below_predecessor(v: DocumentView, e: Element)
    requires
        v.causal(),
        v.ordered(),
        !v.holds(e.at()),
        v.admits(e),
    ensures
        0 <= index_below(v, e, e.after()) <= subtree_text(v.elements, e.after()).len(),
        subtree_text(v.insert(e).elements, e.after()) == subtree_text(
            v.elements,
            e.after(),
        ).insert(index_below(v, e, e.after()), e.value),
{
    let m = v.elements;
    let m2 = v.insert(e).elements;
    let q = e.after();
    let n = e.at();
    let c = children_of(m, q);
    let k = rank_of(v, e);
    lemma_insert_children(v, e, q);
    lemma_insert_children(v, e, n);
    assert(is_child_order(m, q, c));
    let a = c.take(k);
    let b = c.skip(k);
    assert(c =~= a + b);
    assert(c.insert(k, n) =~= (a + seq![n]) + b);
    // The new element has no followers.
    assert(children_of(m2, n) =~= Seq::<int>::empty()) by {
        let s = children_of(m, n);
        assert(is_child_order(m, n, s));
        if s.len() > 0 {
            assert(m.dom().contains(s[0]) && m[s[0]].after() == n);
            assert(v.holds(m[s[0]].after()));
        }
    }
    assert(subtree_text(m2, n) =~= Seq::<char>::empty());
    lemma_run_text_single(m2, n, q);
    assert(run_text(m2, seq![n], q) =~= seq![e.value]);
    // The followers of the predecessor lie above it, so the way up from
    // the predecessor passes through none of them.
    assert forall|i: int| 0 <= i < c.len() implies m.dom().contains(#[trigger] c[i]) && !reaches(
        m,
        q,
        c[i],
    ) by {
        assert(m.dom().contains(c[i]) && m[c[i]].after() == q);
        assert(m[c[i]].at() == c[i]);
        if reaches(m, q, c[i]) {
            lemma_reaches_below(m, q, c[i]);
        }
    }
    lemma_insert_beside(v, e, q, a);
    lemma_insert_beside(v, e, q, b);
    lemma_run_text_concat(m2, a + seq![n], b, q);
    lemma_run_text_concat(m2, a, seq![n], q);
    lemma_run_text_concat(m, a, b, q);
    let x = run_text(m, a, q);
    let y = run_text(m, b, q);
    assert(subtree_text(m2, q) == (x + seq![e.value]) + y);
    assert(subtree_text(m, q) == x + y);
    assert((x + seq![e.value]) + y =~= (x + y).insert(x.len() as int, e.value));
    assert(index_below(v, e, q) == x.len());
}

/// Of the followers of `p`, the way from the predecessor of `e` up to `p`
/// passes through the one at index `j` only.
proof fn lemma_way_passes_one(v: DocumentView, e: Element, p: int, j: int)
    requires
        v.causal(),
        v.ordered(),
        0 <= p,
        0 <= j < children_of(v.elements, p).len(),
        children_of(v.elements, p)[j] == step_below(v.elements, e.after(), p),
    ensures
        forall|i: int|
            0 <= i < children_of(v.elements, p).take(j).len() ==> v.elements.dom().contains(
                #[trigger] children_of(v.elements, p).take(j)[i],
            ) && !reaches(v.elements, e.after(), children_of(v.elements, p).take(j)[i]),
        forall|i: int|
            0 <= i < children_of(v.elements, p).skip(j + 1).len() ==> v.elements.dom().contains(
                #[trigger] children_of(v.elements, p).skip(j + 1)[i],
            ) && !reaches(v.elements, e.after(), children_of(v.elements, p).skip(j + 1)[i]),
{
    let m = v.elements;
    let q = e.after();
    let d = children_of(m, p);
    let c = d[j];
    assert(is_child_order(m, p, d));
    assert forall|i: int| 0 <= i < d.len() && i != j implies m.dom().contains(#[trigger] d[i])
        && !reaches(m, q, d[i]) by {
        assert(m.dom().contains(d[i]) && m[d[i]].after() == p);
        assert(m[d[i]].at() == d[i]);
        if reaches(m, q, d[i]) {
            lemma_step_below_unique(m, q, p, d[i]);
            lemma_outranks_is_strict_total(m[c], m[c], m[c]);
            if i < j {
                assert(outranks(m[d[i]], m[d[j]]));
            } else {
                assert(outranks(m[d[j]], m[d[i]]));
            }
        }
    }
    let before = d.take(j);
    let after = d.skip(j + 1);
    assert forall|i: int| 0 <= i < before.len() implies m.dom().contains(#[trigger] before[i])
        && !reaches(m, q, before[i]) by {
        assert(before[i] == d[i]);
    }
    assert forall|i: int| 0 <= i < after.len() implies m.dom().contains(#[trigger] after[i])
        && !reaches(m, q, after[i]) by {
        assert(after[i] == d[i + j + 1]);
    }
}

/// A character that goes into the middle part of a text at an index goes
/// into the whole text at that index, counted from the start of the whole.
proof fn lemma_splice(
    x: Seq<char>,
    head: Seq<char>,
    t: Seq<char>,
    y: Seq<char>,
    i: int,
    value: char,
)
    requires
        0 <= i <= t.len(),
    ensures
        (x + (head + t.insert(i, value))) + y == ((x + (head + t)) + y).insert(
            x.len() + head.len() + i,
            value,
        ),
{
    assert((x + (head + t.insert(i, value))) + y =~= ((x + (head + t)) + y).insert(
        x.len() + head.len() + i,
        value,
    ));
}

/// Below every position that its predecessor reaches, an insertion puts
/// the character of the new element into the text at `index_below`, and
/// changes nothing else.
pub proof fn lemma_insert_below(v: DocumentView, e: Element, p: int)
    requires
        v.causal(),
        v.ordered(),
        !v.holds(e.at()),
        v.admits(e),
        reaches(v.elements, e.after(), p),
        0 <= p,
    ensures
        0 <= index_below(v, e, p) <= subtree_text(v.elements, p).len(),
        subtree_text(v.insert(e).elements, p) == subtree_text(v.elements, p).insert(
            index_below(v, e, p),
            e.value,
        ),
    decreases crate::document::model::headroom(p),
{
    let m = v.elements;
    let m2 = v.insert(e).elements;
    let q = e.after();
    if p == q {
        lemma_insert_below_predecessor(v, e);
    } else {
        lemma_reaches_below(m, q, p);
        lemma_step_below(m, q, p);
        let c = step_below(m, q, p);
        let d = children_of(m, p);
        lemma_insert_children(v, e, p);
        assert(is_child_order(m, p, d));
        assert(d.contains(c));
        let j = d.index_of(c);
        assert(0 <= j < d.len() && d[j] == c);
        assert(m[c].at() == c);
        lemma_way_passes_one(v, e, p, j);
        lemma_insert_beside(v, e, p, d.take(j));
        lemma_insert_beside(v, e, p, d.skip(j + 1));
        lemma_insert_below(v, e, c);
        lemma_run_text_around(m, d, p, j);
        lemma_run_text_around(m2, d, p, j);
        lemma_run_text_single(m, c, p);
        lemma_run_text_single(m2, c, p);
        let x = run_text(m, d.take(j), p);
        let y = run_text(m, d.skip(j + 1), p);
        let t = subtree_text(m, c);
        let i = index_below(v, e, c);
        let head = seq![m[c].value];
        assert(m2[c].value == m[c].value);
        assert(subtree_text(m, p) == (x + (head + t)) + y);
        assert(subtree_text(m2, p) == (x + (head + t.insert(i, e.value))) + y);
        lemma_splice(x, head, t, y, i, e.value);
        assert(index_below(v, e, p) == x.len() + 1 + i);
    }
}

/// An insertion that is made adds the character of the new element to the
/// text at one place, and changes nothing else of the text.
pub proof fn lemma_insert_text(v: DocumentView, e: Element)
    requires
        v.causal(),
        v.ordered(),
        !v.holds(e.at()),
        v.admits(e),
    ensures
        0 <= index_below(v, e, 0) <= v.text().len(),
        v.insert(e).text() == v.text().insert(index_below(v, e, 0), e.value),
        v.insert(e).text().len() == v.text().len() + 1,
{
    lemma_reaches_root(v, e.after());
    lemma_insert_below(v, e, 0);
}

/// An insertion after a position that is present is the insertion of the
/// element that stands at the next position: it adds the character to the
/// text at one place, and changes nothing else of the text.
pub proof fn lemma_insert_after_text(
    v: DocumentView,
    author: crate::author::Author,
    predecessor: crate::document::model::LogPosition,
    value: char,
)
    requires
        v.sound(),
        v.holds(predecessor.0 as int),
        v.next_position() <= usize::MAX,
    ensures
        v.insert_after(author, predecessor, value) == v.insert(
            v.appended(author, predecessor, value),
        ),
        v.insert_after(author, predecessor, value).text() == v.text().insert(
            index_below(v, v.appended(author, predecessor, value), 0),
            value,
        ),
{
    let e = v.appended(author, predecessor, value);
    let n = v.next_position();
    assert(crate::document::model::is_next_position(v.elements, n));
    assert(!v.holds(e.at()));
    assert(v.admits(e)) by {
        if predecessor.0 != 0 {
            assert(v.elements.dom().contains(predecessor.0 as int));
        }
    }
    lemma_insert_text(v, e);
}

/// An insertion after the root by an element that is visited before every
/// other follower of the root puts its character at the start of the
/// text.
pub proof fn lemma_insert_at_start(v: DocumentView, e: Element)
    requires
        v.causal(),
        v.ordered(),
        !v.holds(e.at()),
        v.admits(e),
        e.after() == 0,
        v.leads(e),
    ensures
        v.insert(e).text() == seq![e.value] + v.text(),
{
    lemma_insert_text(v, e);
    let s = children_of(v.elements, 0);
    assert(is_child_order(v.elements, 0, s));
    if s.len() > 0 {
        assert(v.elements.dom().contains(s[0]) && v.elements[s[0]].after() == 0);
        lemma_outranks_is_strict_total(e, v.elements[s[0]], e);
    }
    assert(rank_of(v, e) == 0);
    assert(s.take(0) =~= Seq::<int>::empty());
    assert(index_below(v, e, 0) == 0);
    assert(v.text().insert(0, e.value) =~= seq![e.value] + v.text());
}

/// An insertion after the root by an element that is visited after every
/// other follower of the root puts its character at the end of the text.
pub proof fn lemma_insert_at_end(v: DocumentView, e: Element)
    requires
        v.causal(),
        v.ordered(),
        !v.holds(e.at()),
        v.admits(e),
        e.after() == 0,
        v.trails(e),
    ensures
        v.insert(e).text() == v.text().push(e.value),
{
    lemma_insert_text(v, e);
    let m = v.elements;
    let s = children_of(m, 0);
    assert(is_child_order(m, 0, s));
    assert forall|i: int| 0 <= i < s.len() implies m[#[trigger] s[i]].at() != e.at() by {
        assert(m.dom().contains(s[i]));
    }
    lemma_rank_in(m, s, e);
    let k = rank_of(v, e);
    if k < s.len() {
        assert(m.dom().contains(s[k]) && m[s[k]].after() == 0);
        assert(outranks(e, m[s[k]]));
        lemma_outranks_is_strict_total(e, m[s[k]], e);
    }
    assert(s.take(k) =~= s);
    assert(index_below(v, e, 0) == v.text().len());
    assert(v.text().insert(v.text().len() as int, e.value) =~= v.text().push(e.value));
}

/// Of two insertions after the root of an empty document by different
/// authors, the one by the smaller author comes first in the text,
/// whichever of the two was made first.
pub proof fn lemma_authors_in_order(origin: crate::author::Author, x: Element, y: Element)
    requires
        x.after() == 0,
        y.after() == 0,
        1 <= x.at(),
        1 <= y.at(),
        x.at() != y.at(),
        x.author.sorts_before(y.author),
    ensures
        DocumentView::empty(origin).insert(x).insert(y).text() == seq![x.value, y.value],
        DocumentView::empty(origin).insert(y).insert(x).text() == seq![x.value, y.value],
{
    let v = DocumentView::empty(origin);
    lemma_empty_is_sound(origin);
    lemma_empty_text(origin);
    lemma_insert_keeps_sound(v, x);
    lemma_insert_keeps_sound(v, y);
    lemma_insert_at_end(v, x);
    lemma_insert_at_end(v, y);
    assert(v.insert(x).text() =~= seq![x.value]);
    assert(v.insert(y).text() =~= seq![y.value]);
    lemma_insert_at_end(v.insert(x), y);
    lemma_insert_at_start(v.insert(y), x);
    assert(seq![x.value].push(y.value) =~= seq![x.value, y.value]);
    assert(seq![x.value] + seq![y.value] =~= seq![x.value, y.value]);
}

} // verus!
