//! Facts about the model that the engine's proofs rest on.

use crate::author::lemma_author_order_is_strict_total;
use crate::document::model::{
    children_of, is_child_order, outranks, run_text, subtree_text, DocumentView, Element,
};
use vstd::prelude::*;

verus! {

/// The visiting order is a strict order on elements, and it decides between
/// any two elements at different positions.
pub proof fn lemma_outranks_is_strict_total(a: Element, b: Element, c: Element)
    ensures
        !outranks(a, a),
        !(outranks(a, b) && outranks(b, a)),
        outranks(a, b) && outranks(b, c) ==> outranks(a, c),
        a.at() != b.at() ==> outranks(a, b) || outranks(b, a),
{
    lemma_author_order_is_strict_total(a.author, b.author, c.author);
    lemma_author_order_is_strict_total(c.author, b.author, a.author);
    lemma_author_order_is_strict_total(b.author, a.author, c.author);
}

/// `s` is in visiting order.
pub open spec fn is_ranked(m: Map<int, Element>, s: Seq<int>) -> bool {
    forall|i: int, j: int|
        0 <= i < j < s.len() ==> outranks(m[#[trigger] s[i]], m[#[trigger] s[j]])
}

/// Two sequences in visiting order that hold the same positions are equal.
pub proof fn lemma_ranked_unique(m: Map<int, Element>, s1: Seq<int>, s2: Seq<int>)
    requires
        is_ranked(m, s1),
        is_ranked(m, s2),
        forall|x: int| s1.contains(x) <==> s2.contains(x),
    ensures
        s1 == s2,
    decreases s1.len(),
{
    if s1.len() == 0 {
        if s2.len() > 0 {
            assert(s2.contains(s2[0]));
        }
        assert(s1 =~= s2);
    } else {
        assert(s1.contains(s1[0]));
        assert(s2.contains(s1[0]));
        let j = choose|j: int| 0 <= j < s2.len() && s2[j] == s1[0];
        assert(s2.contains(s2[0]));
        let i = choose|i: int| 0 <= i < s1.len() && s1[i] == s2[0];
        lemma_outranks_is_strict_total(m[s1[0]], m[s2[0]], m[s1[0]]);
        if i > 0 && j > 0 {
            assert(outranks(m[s1[0]], m[s1[i]]));
            assert(outranks(m[s2[0]], m[s2[j]]));
        }
        if i > 0 && j == 0 {
            assert(outranks(m[s1[0]], m[s1[i]]));
        }
        if j > 0 && i == 0 {
            assert(outranks(m[s2[0]], m[s2[j]]));
        }
        assert(s1[0] == s2[0]);
        let t1 = s1.drop_first();
        let t2 = s2.drop_first();
        assert forall|x: int| t1.contains(x) <==> t2.contains(x) by {
            if t1.contains(x) {
                let a = choose|a: int| 0 <= a < t1.len() && t1[a] == x;
                assert(s1[a + 1] == x);
                assert(s1.contains(x));
                let b = choose|b: int| 0 <= b < s2.len() && s2[b] == x;
                if b == 0 {
                    assert(outranks(m[s1[0]], m[s1[a + 1]]));
                    lemma_outranks_is_strict_total(m[x], m[x], m[x]);
                }
                assert(t2[b - 1] == x);
            }
            if t2.contains(x) {
                let a = choose|a: int| 0 <= a < t2.len() && t2[a] == x;
                assert(s2[a + 1] == x);
                assert(s2.contains(x));
                let b = choose|b: int| 0 <= b < s1.len() && s1[b] == x;
                if b == 0 {
                    assert(outranks(m[s2[0]], m[s2[a + 1]]));
                    lemma_outranks_is_strict_total(m[x], m[x], m[x]);
                }
                assert(t1[b - 1] == x);
            }
        }
        assert(is_ranked(m, t1)) by {
            assert forall|a: int, b: int| 0 <= a < b < t1.len() implies outranks(
                m[#[trigger] t1[a]],
                m[#[trigger] t1[b]],
            ) by {
                assert(outranks(m[s1[a + 1]], m[s1[b + 1]]));
            }
        }
        assert(is_ranked(m, t2)) by {
            assert forall|a: int, b: int| 0 <= a < b < t2.len() implies outranks(
                m[#[trigger] t2[a]],
                m[#[trigger] t2[b]],
            ) by {
                assert(outranks(m[s2[a + 1]], m[s2[b + 1]]));
            }
        }
        lemma_ranked_unique(m, t1, t2);
        assert(s1 =~= seq![s1[0]] + t1);
        assert(s2 =~= seq![s2[0]] + t2);
    }
}

/// A position has one child order only, so any child order of `p` is
/// `children_of(m, p)`.
pub proof fn lemma_child_order_unique(m: Map<int, Element>, p: int, s: Seq<int>)
    requires
        is_child_order(m, p, s),
    ensures
        children_of(m, p) == s,
{
    let t = children_of(m, p);
    assert(is_child_order(m, p, t));
    assert forall|x: int| s.contains(x) <==> t.contains(x) by {
        if s.contains(x) {
            let i = choose|i: int| 0 <= i < s.len() && s[i] == x;
            assert(m.dom().contains(s[i]) && m[s[i]].after() == p);
            assert(t.contains(x));
        }
        if t.contains(x) {
            let i = choose|i: int| 0 <= i < t.len() && t[i] == x;
            assert(m.dom().contains(t[i]) && m[t[i]].after() == p);
            assert(s.contains(x));
        }
    }
    lemma_ranked_unique(m, t, s);
}

/// `k` is the rank of `e` among the elements at the positions `s`: those
/// before index `k` are visited before `e`, and `e` before the others.
pub open spec fn is_rank(m: Map<int, Element>, s: Seq<int>, e: Element, k: int) -> bool {
    &&& 0 <= k <= s.len()
    &&& forall|j: int| 0 <= j < k ==> outranks(m[#[trigger] s[j]], e)
    &&& forall|j: int| k <= j < s.len() ==> outranks(e, m[#[trigger] s[j]])
}

/// The followers of a position stay its followers, in their order, when an
/// element that follows another position is added.
pub proof fn lemma_child_order_unchanged(m: Map<int, Element>, p: int, s: Seq<int>, e: Element)
    requires
        is_child_order(m, p, s),
        !m.dom().contains(e.at()),
        e.after() != p,
    ensures
        is_child_order(m.insert(e.at(), e), p, s),
{
    let m2 = m.insert(e.at(), e);
    assert forall|i: int| 0 <= i < s.len() implies m2.dom().contains(#[trigger] s[i]) && m2[s[i]].after()
        == p by {
        assert(m.dom().contains(s[i]) && m[s[i]].after() == p);
    }
    assert forall|x: int| #[trigger] m2.dom().contains(x) && m2[x].after() == p implies s.contains(
        x,
    ) by {
        assert(x != e.at());
        assert(m.dom().contains(x) && m[x].after() == p);
    }
    assert forall|i: int, j: int| 0 <= i < j < s.len() implies outranks(
        m2[#[trigger] s[i]],
        m2[#[trigger] s[j]],
    ) by {
        assert(m.dom().contains(s[i]));
        assert(m.dom().contains(s[j]));
        assert(outranks(m[s[i]], m[s[j]]));
    }
}

/// The followers of a position, with a new follower put at its rank, are
/// the followers of the position once the new one is added.
pub proof fn lemma_child_order_grows(
    m: Map<int, Element>,
    p: int,
    s: Seq<int>,
    e: Element,
    k: int,
)
    requires
        is_child_order(m, p, s),
        !m.dom().contains(e.at()),
        e.after() == p,
        is_rank(m, s, e, k),
    ensures
        is_child_order(m.insert(e.at(), e), p, s.insert(k, e.at())),
{
    let m2 = m.insert(e.at(), e);
    let s2 = s.insert(k, e.at());
    assert forall|i: int| 0 <= i < s.len() implies s[i] != e.at() && m2[#[trigger] s[i]] == m[s[i]] by {
        assert(m.dom().contains(s[i]));
    }
    assert forall|i: int| 0 <= i < s2.len() implies m2.dom().contains(#[trigger] s2[i])
        && m2[s2[i]].after() == p by {
        if i < k {
            assert(s2[i] == s[i]);
            assert(m.dom().contains(s[i]) && m[s[i]].after() == p);
        } else if i > k {
            assert(s2[i] == s[i - 1]);
            assert(m.dom().contains(s[i - 1]) && m[s[i - 1]].after() == p);
        }
    }
    assert forall|x: int| #[trigger] m2.dom().contains(x) && m2[x].after() == p implies s2.contains(
        x,
    ) by {
        if x == e.at() {
            assert(s2[k] == x);
        } else {
            assert(m.dom().contains(x) && m[x].after() == p);
            assert(s.contains(x));
            let i = choose|i: int| 0 <= i < s.len() && s[i] == x;
            if i < k {
                assert(s2[i] == x);
            } else {
                assert(s2[i + 1] == x);
            }
        }
    }
    assert forall|i: int, j: int| 0 <= i < j < s2.len() implies outranks(
        m2[#[trigger] s2[i]],
        m2[#[trigger] s2[j]],
    ) by {
        if j < k {
            assert(s2[i] == s[i] && s2[j] == s[j]);
            assert(outranks(m[s[i]], m[s[j]]));
        } else if j == k {
            assert(s2[i] == s[i]);
            assert(outranks(m[s[i]], e));
        } else if i < k {
            assert(s2[i] == s[i] && s2[j] == s[j - 1]);
            assert(outranks(m[s[i]], m[s[j - 1]]));
        } else if i == k {
            assert(s2[j] == s[j - 1]);
            assert(outranks(e, m[s[j - 1]]));
        } else {
            assert(s2[i] == s[i - 1] && s2[j] == s[j - 1]);
            assert(outranks(m[s[i - 1]], m[s[j - 1]]));
        }
    }
}

/// An element that is added has no followers yet.
pub proof fn lemma_child_order_starts(v: DocumentView, e: Element)
    requires
        v.causal(),
        !v.holds(e.at()),
        e.after() < e.at(),
    ensures
        is_child_order(v.elements.insert(e.at(), e), e.at(), Seq::empty()),
{
    let m2 = v.elements.insert(e.at(), e);
    assert forall|x: int| #[trigger] m2.dom().contains(x) && m2[x].after() == e.at() implies false by {
        if x != e.at() {
            assert(v.elements.dom().contains(x));
            assert(v.holds(v.elements[x].after()));
        }
    }
}

/// The text of a run is the text of its front followed by that of its back.
pub proof fn lemma_run_text_concat(m: Map<int, Element>, a: Seq<int>, b: Seq<int>, p: int)
    ensures
        run_text(m, a + b, p) == run_text(m, a, p) + run_text(m, b, p),
    decreases a.len(),
{
    if a.len() == 0 {
        assert(a + b =~= b);
        assert(run_text(m, a, p) =~= Seq::<char>::empty());
        assert(run_text(m, a, p) + run_text(m, b, p) =~= run_text(m, b, p));
    } else {
        assert((a + b).drop_first() =~= a.drop_first() + b);
        assert((a + b)[0] == a[0]);
        lemma_run_text_concat(m, a.drop_first(), b, p);
        let head = if 0 <= p < a[0] <= usize::MAX {
            seq![m[a[0]].value] + subtree_text(m, a[0])
        } else {
            Seq::<char>::empty()
        };
        assert(run_text(m, a + b, p) == head + run_text(m, a.drop_first() + b, p));
        assert(run_text(m, a, p) == head + run_text(m, a.drop_first(), p));
        assert(head + (run_text(m, a.drop_first(), p) + run_text(m, b, p)) =~= (head + run_text(
            m,
            a.drop_first(),
            p,
        )) + run_text(m, b, p));
    }
}

/// The text of a run does not depend on the position it is measured from,
/// as long as the whole run lies above that position.
pub proof fn lemma_run_text_from_root(m: Map<int, Element>, s: Seq<int>, p: int)
    requires
        0 <= p,
        forall|i: int| 0 <= i < s.len() ==> p < #[trigger] s[i],
    ensures
        run_text(m, s, p) == run_text(m, s, 0),
    decreases s.len(),
{
    if s.len() > 0 {
        assert(p < s[0]);
        assert forall|i: int| 0 <= i < s.drop_first().len() implies p < #[trigger] s.drop_first()[i] by {
            assert(s.drop_first()[i] == s[i + 1]);
        }
        lemma_run_text_from_root(m, s.drop_first(), p);
    }
}

/// Adding an admitted element keeps a document causal.
pub proof fn lemma_insert_keeps_causal(v: DocumentView, e: Element)
    requires
        v.causal(),
    ensures
        v.insert(e).causal(),
{
    let w = v.insert(e);
    if !v.holds(e.at()) && v.admits(e) {
        assert forall|k: int| #[trigger] w.elements.dom().contains(k) implies ({
            let x = w.elements[k];
            &&& x.at() == k
            &&& 0 <= x.after() < k
            &&& w.holds(x.after())
        }) by {
            if k != e.at() {
                assert(v.elements.dom().contains(k));
                assert(v.holds(v.elements[k].after()));
            }
        }
    }
}

} // verus!
