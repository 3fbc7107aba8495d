//! What holds of every document, whatever the order in which its elements
//! arrived.

use crate::document::insertion::lemma_insert_keeps_sound;
use crate::document::lemmas::lemma_child_order_unique;
use crate::document::model::{
    is_chain, is_child_order, is_next_position, run_text, subtree_text, DocumentView, Element,
    LogPosition,
};
use vstd::prelude::*;

verus! {

/// The document after the elements of `s` were handed to `v` one after the
/// other.
pub open spec fn insert_all(v: DocumentView, s: Seq<Element>) -> DocumentView
    decreases s.len(),
{
    if s.len() == 0 {
        v
    } else {
        insert_all(v, s.drop_last()).insert(s.last())
    }
}

/// Every element of `s` has a valid causal predecessor when its turn comes:
/// the document admits it.
pub open spec fn causally_ordered(v: DocumentView, s: Seq<Element>) -> bool {
    forall|i: int| 0 <= i < s.len() ==> (#[trigger] insert_all(v, s.take(i))).admits(s[i])
}

/// No two different elements of `s` claim the same position.
pub open spec fn one_per_position(s: Seq<Element>) -> bool {
    forall|i: int, j: int|
        0 <= i < s.len() && 0 <= j < s.len() && (#[trigger] s[i]).at() == (#[trigger] s[j]).at()
            ==> s[i] == s[j]
}

/// Handing an element to a document twice is the same as handing it over
/// once, and an element whose position is taken changes nothing.
pub proof fn lemma_insert_idempotent(v: DocumentView, e: Element)
    ensures
        v.holds(e.at()) ==> v.insert(e) == v,
        v.insert(e).insert(e) == v.insert(e),
{
}

/// A sound document stays sound, whatever elements it is handed: every
/// element of it follows a position that is present, the root or another
/// element.
pub proof fn lemma_insert_all_sound(v: DocumentView, s: Seq<Element>)
    requires
        v.sound(),
    ensures
        insert_all(v, s).sound(),
    decreases s.len(),
{
    if s.len() > 0 {
        lemma_insert_all_sound(v, s.drop_last());
        lemma_insert_keeps_sound(insert_all(v, s.drop_last()), s.last());
    }
}

/// An empty document that was handed elements in causal order holds
/// exactly these elements, each at its position.
pub proof fn lemma_insert_all_holds_each(origin: crate::author::Author, s: Seq<Element>)
    requires
        causally_ordered(DocumentView::empty(origin), s),
        one_per_position(s),
    ensures
        insert_all(DocumentView::empty(origin), s).origin == origin,
        forall|k: int| #[trigger]
            insert_all(DocumentView::empty(origin), s).elements.dom().contains(k) <==> exists|
                i: int,
            |
                0 <= i < s.len() && (#[trigger] s[i]).at() == k,
        forall|i: int|
            0 <= i < s.len() ==> insert_all(DocumentView::empty(origin), s).elements[(
            #[trigger] s[i]).at()] == s[i],
    decreases s.len(),
{
    let start = DocumentView::empty(origin);
    if s.len() > 0 {
        let t = s.drop_last();
        let x = s.last();
        let before = insert_all(start, t);
        let after = insert_all(start, s);
        assert forall|i: int| 0 <= i < t.len() implies (#[trigger] insert_all(
            start,
            t.take(i),
        )).admits(t[i]) by {
            assert(t.take(i) =~= s.take(i));
            assert(insert_all(start, s.take(i)).admits(s[i]));
        }
        assert(one_per_position(t)) by {
            assert forall|i: int, j: int|
                0 <= i < t.len() && 0 <= j < t.len() && (#[trigger] t[i]).at() == (
                #[trigger] t[j]).at() implies t[i] == t[j] by {
                assert(s[i].at() == s[j].at());
            }
        }
        lemma_insert_all_holds_each(origin, t);
        assert(s.take(s.len() - 1) =~= t);
        assert(insert_all(start, s.take(s.len() - 1)).admits(s[s.len() - 1]));
        assert(before.admits(x));
        assert forall|k: int| #[trigger] after.elements.dom().contains(k) <==> exists|i: int|
            0 <= i < s.len() && (#[trigger] s[i]).at() == k by {
            if after.elements.dom().contains(k) {
                if before.elements.dom().contains(k) {
                    let i = choose|i: int| 0 <= i < t.len() && (#[trigger] t[i]).at() == k;
                    assert(s[i].at() == k);
                } else {
                    assert(s[s.len() - 1].at() == k);
                }
            }
            if exists|i: int| 0 <= i < s.len() && (#[trigger] s[i]).at() == k {
                let i = choose|i: int| 0 <= i < s.len() && (#[trigger] s[i]).at() == k;
                if i < t.len() {
                    assert(t[i].at() == k);
                    assert(before.elements.dom().contains(k));
                }
            }
        }
        assert forall|i: int| 0 <= i < s.len() implies after.elements[(#[trigger] s[i]).at()]
            == s[i] by {
            if i < t.len() {
                assert(t[i] == s[i]);
                assert(before.elements[t[i].at()] == t[i]);
                if s[i].at() == x.at() {
                    assert(s[i] == s[s.len() - 1]);
                }
            } else {
                if before.holds(x.at()) {
                    assert(before.elements.dom().contains(x.at()));
                    let j = choose|j: int| 0 <= j < t.len() && (#[trigger] t[j]).at() == x.at();
                    assert(s[j].at() == s[s.len() - 1].at());
                    assert(before.elements[t[j].at()] == t[j]);
                }
            }
        }
    }
}

/// The text of a chain below the position `p` is the characters of the
/// elements above `p`, in the order of their positions.
pub proof fn lemma_chain_text_below(m: Map<int, Element>, n: int, p: int)
    requires
        is_chain(m, n),
        0 <= p <= n,
    ensures
        subtree_text(m, p) == Seq::new((n - p) as nat, |i: int| m[p + 1 + i].value),
    decreases n - p,
{
    let expected = Seq::new((n - p) as nat, |i: int| m[p + 1 + i].value);
    if p == n {
        let none = Seq::<int>::empty();
        assert(is_child_order(m, p, none)) by {
            assert forall|q: int| #[trigger] m.dom().contains(q) && m[q].after() == p implies none.contains(
                q,
            ) by {
                assert(m[q].at() == q);
            }
        }
        lemma_child_order_unique(m, p, none);
        assert(subtree_text(m, p) =~= expected);
    } else {
        let one = seq![p + 1];
        assert(is_child_order(m, p, one)) by {
            assert(m[p + 1].at() == p + 1);
            assert forall|q: int| #[trigger] m.dom().contains(q) && m[q].after() == p implies one.contains(
                q,
            ) by {
                assert(m[q].at() == q);
                assert(one[0] == q);
            }
        }
        lemma_child_order_unique(m, p, one);
        lemma_chain_text_below(m, n, p + 1);
        assert(one.drop_first() =~= Seq::<int>::empty());
        assert(run_text(m, one.drop_first(), p) =~= Seq::<char>::empty());
        assert(run_text(m, one, p) == (seq![m[p + 1].value] + subtree_text(m, p + 1)) + run_text(
            m,
            one.drop_first(),
            p,
        ));
        assert(subtree_text(m, p) =~= expected);
    }
}

/// A document whose elements follow each other reads as their characters
/// in the order of their positions, whoever their authors are, and its
/// next position is the one after the last.
pub proof fn lemma_chain_text(v: DocumentView, n: int)
    requires
        is_chain(v.elements, n),
    ensures
        v.text() == Seq::new(n as nat, |i: int| v.elements[1 + i].value),
        v.next_position() == n + 1,
{
    lemma_chain_text_below(v.elements, n, 0);
    assert(v.text() =~= Seq::new(n as nat, |i: int| v.elements[1 + i].value));
    assert(is_next_position(v.elements, n + 1));
    let chosen = v.next_position();
    assert(is_next_position(v.elements, chosen));
    if n >= 1 {
        assert(v.elements.dom().contains(n));
    }
}

/// Inserting after the last element of a chain gives a chain that is
/// longer by one: a text that is typed from its start to its end reads as
/// it was typed.
pub proof fn lemma_chain_grows(v: DocumentView, n: int, author: crate::author::Author, value: char)
    requires
        is_chain(v.elements, n),
        n < usize::MAX,
    ensures
        is_chain(
            v.insert_after(
                author,
                LogPosition(n as usize),
                value,
            ).elements,
            n + 1,
        ),
        v.insert_after(author, LogPosition(n as usize), value).text()
            == v.text().push(value),
{
    let w = v.insert_after(author, LogPosition(n as usize), value);
    lemma_chain_text(v, n);
    if n >= 1 {
        assert(v.elements.dom().contains(n));
    }
    assert(v.holds(n));
    assert(is_chain(w.elements, n + 1));
    lemma_chain_text(w, n + 1);
    assert(w.text() =~= v.text().push(value));
}

/// Convergence: two empty documents with the same origin that are handed
/// the same set of elements, each in an order in which every element finds
/// its predecessor present, end up equal, and so have the same text.
pub proof fn lemma_convergence(origin: crate::author::Author, a: Seq<Element>, b: Seq<Element>)
    requires
        forall|e: Element| a.contains(e) <==> b.contains(e),
        one_per_position(a),
        causally_ordered(DocumentView::empty(origin), a),
        causally_ordered(DocumentView::empty(origin), b),
    ensures
        insert_all(DocumentView::empty(origin), a) == insert_all(DocumentView::empty(origin), b),
        insert_all(DocumentView::empty(origin), a).text() == insert_all(
            DocumentView::empty(origin),
            b,
        ).text(),
{
    let start = DocumentView::empty(origin);
    let x = insert_all(start, a);
    let y = insert_all(start, b);
    assert(one_per_position(b)) by {
        assert forall|i: int, j: int|
            0 <= i < b.len() && 0 <= j < b.len() && (#[trigger] b[i]).at() == (#[trigger] b[j]).at() implies b[i]
            == b[j] by {
            assert(b.contains(b[i]) && b.contains(b[j]));
            assert(a.contains(b[i]) && a.contains(b[j]));
            let i2 = choose|k: int| 0 <= k < a.len() && a[k] == b[i];
            let j2 = choose|k: int| 0 <= k < a.len() && a[k] == b[j];
            assert(a[i2].at() == a[j2].at());
        }
    }
    lemma_insert_all_holds_each(origin, a);
    lemma_insert_all_holds_each(origin, b);
    assert forall|k: int| x.elements.dom().contains(k) <==> y.elements.dom().contains(k) by {
        if x.elements.dom().contains(k) {
            let i = choose|i: int| 0 <= i < a.len() && (#[trigger] a[i]).at() == k;
            assert(a.contains(a[i]));
            assert(b.contains(a[i]));
            let j = choose|j: int| 0 <= j < b.len() && b[j] == a[i];
            assert(b[j].at() == k);
        }
        if y.elements.dom().contains(k) {
            let i = choose|i: int| 0 <= i < b.len() && (#[trigger] b[i]).at() == k;
            assert(b.contains(b[i]));
            assert(a.contains(b[i]));
            let j = choose|j: int| 0 <= j < a.len() && a[j] == b[i];
            assert(a[j].at() == k);
        }
    }
    assert forall|k: int| x.elements.dom().contains(k) implies x.elements[k] == y.elements[k] by {
        let i = choose|i: int| 0 <= i < a.len() && (#[trigger] a[i]).at() == k;
        assert(a.contains(a[i]));
        assert(b.contains(a[i]));
        let j = choose|j: int| 0 <= j < b.len() && b[j] == a[i];
        assert(x.elements[a[i].at()] == a[i]);
        assert(y.elements[b[j].at()] == b[j]);
    }
    assert(x.elements =~= y.elements);
}

} // verus!
