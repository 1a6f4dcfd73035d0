use vstd::prelude::*;
use crate::element::{Element, ElementId, preorder, forest, match_ids, id_set, keep_all};

verus! {

broadcast use vstd::std_specs::vec::group_vec_axioms;

/// `at` is the first position of `s` whose element satisfies `pred`.
pub open spec fn first_match_at(s: Seq<Element>, pred: spec_fn(Element) -> bool, at: int) -> bool {
    &&& 0 <= at < s.len()
    &&& pred(s[at])
    &&& forall|j: int| 0 <= j < at ==> !pred(#[trigger] s[j])
}

/// No element of `s` satisfies `pred`.
pub open spec fn no_match(s: Seq<Element>, pred: spec_fn(Element) -> bool) -> bool {
    forall|j: int| 0 <= j < s.len() ==> !pred(#[trigger] s[j])
}

/// The first element of `s` that satisfies `pred`, if any.
pub open spec fn first_match(s: Seq<Element>, pred: spec_fn(Element) -> bool) -> Option<Element> {
    if exists|at: int| first_match_at(s, pred, at) {
        Some(s[choose|at: int| first_match_at(s, pred, at)])
    } else {
        None
    }
}

/// Any match implies a first match.
pub proof fn lemma_first_match_exists(s: Seq<Element>, pred: spec_fn(Element) -> bool, j: int)
    requires
        0 <= j < s.len(),
        pred(s[j]),
    ensures
        exists|at: int| first_match_at(s, pred, at),
    decreases j,
{
    if exists|k: int| 0 <= k < j && pred(#[trigger] s[k]) {
        let k = choose|k: int| 0 <= k < j && pred(#[trigger] s[k]);
        lemma_first_match_exists(s, pred, k);
    } else {
        assert(first_match_at(s, pred, j));
    }
}

/// Either no element matches, or there is a first match.
pub proof fn lemma_match_cases(s: Seq<Element>, pred: spec_fn(Element) -> bool)
    ensures
        no_match(s, pred) || exists|at: int| first_match_at(s, pred, at),
{
    if !no_match(s, pred) {
        let j = choose|j: int| 0 <= j < s.len() && pred(#[trigger] s[j]);
        lemma_first_match_exists(s, pred, j);
    }
}

/// The runtime id of the first element of `s` that satisfies `pred`, if any.
pub open spec fn first_match_id(s: Seq<Element>, pred: spec_fn(Element) -> bool) -> Option<ElementId> {
    match first_match(s, pred) {
        Some(e) => Some(e.runtime_id),
        None => None,
    }
}

pub proof fn lemma_first_match_unique(s: Seq<Element>, pred: spec_fn(Element) -> bool, a: int, b: int)
    requires
        first_match_at(s, pred, a),
        first_match_at(s, pred, b),
    ensures
        a == b,
{
    if a < b {
        assert(!pred(s[a]));
    } else if b < a {
        assert(!pred(s[b]));
    }
}

/// Characterises `first_match` by a position.
pub proof fn lemma_first_match_is(s: Seq<Element>, pred: spec_fn(Element) -> bool, at: int)
    requires
        first_match_at(s, pred, at),
    ensures
        first_match(s, pred) == Some(s[at]),
{
    let c = choose|c: int| first_match_at(s, pred, c);
    lemma_first_match_unique(s, pred, c, at);
}

pub proof fn lemma_first_match_none(s: Seq<Element>, pred: spec_fn(Element) -> bool)
    requires
        no_match(s, pred),
    ensures
        first_match(s, pred) == None::<Element>,
{
    if exists|at: int| first_match_at(s, pred, at) {
        let at = choose|at: int| first_match_at(s, pred, at);
        assert(pred(s[at]));
    }
}

/// The first `m` children's forest is a prefix of the first `n` children's forest.
pub proof fn lemma_forest_prefix(e: Element, m: int, n: int, keep: spec_fn(Element) -> bool)
    requires
        0 <= m <= n <= e.children.len(),
    ensures
        forest(e, n, keep).len() >= forest(e, m, keep).len(),
        forest(e, n, keep).subrange(0, forest(e, m, keep).len() as int) == forest(e, m, keep),
    decreases n - m,
{
    if m < n {
        lemma_forest_prefix(e, m, n - 1, keep);
        let a = forest(e, n - 1, keep);
        assert(forest(e, n, keep) == a + preorder(e.children[n - 1], keep));
        assert(forest(e, n, keep).subrange(0, a.len() as int) == a);
        assert(forest(e, n, keep).subrange(0, forest(e, m, keep).len() as int)
            == a.subrange(0, forest(e, m, keep).len() as int));
    }
}



/// Position of the `x`-th element of child `c`'s pruned subtree inside its parent's sequence.
pub proof fn lemma_preorder_child_index(e: Element, c: int, x: int, keep: spec_fn(Element) -> bool)
    requires
        keep(e),
        0 <= c < e.children.len(),
        0 <= x < preorder(e.children[c], keep).len(),
    ensures
        1 + forest(e, c, keep).len() + x < preorder(e, keep).len(),
        preorder(e, keep)[1 + forest(e, c, keep).len() + x] == preorder(e.children[c], keep)[x],
{
    let f = forest(e, e.children.len() as int, keep);
    let p = forest(e, c, keep);
    let q = forest(e, c + 1, keep);
    assert(q == p + preorder(e.children[c], keep));
    lemma_forest_prefix(e, c + 1, e.children.len() as int, keep);
    assert(f.subrange(0, q.len() as int)[p.len() + x] == f[p.len() + x]);
    assert(preorder(e, keep) == seq![e] + f);
}

/// Position of the `x`-th element of the first `c` children's forest inside the parent's sequence.
pub proof fn lemma_preorder_forest_index(e: Element, c: int, x: int, keep: spec_fn(Element) -> bool)
    requires
        keep(e),
        0 <= c <= e.children.len(),
        0 <= x < forest(e, c, keep).len(),
    ensures
        1 + x < preorder(e, keep).len(),
        preorder(e, keep)[1 + x] == forest(e, c, keep)[x],
{
    let f = forest(e, e.children.len() as int, keep);
    lemma_forest_prefix(e, c, e.children.len() as int, keep);
    assert(f.subrange(0, forest(e, c, keep).len() as int)[x] == f[x]);
    assert(preorder(e, keep) == seq![e] + f);
}

/// When the node itself and the first `c` children's subtrees hold no match, a first match at
/// `k` in child `c`'s subtree is the first match of the node's whole sequence.
pub proof fn lemma_first_match_in_child(
    e: Element,
    c: int,
    k: int,
    keep: spec_fn(Element) -> bool,
    pred: spec_fn(Element) -> bool,
)
    requires
        keep(e),
        !pred(e),
        0 <= c < e.children.len(),
        no_match(forest(e, c, keep), pred),
        first_match_at(preorder(e.children[c], keep), pred, k),
    ensures
        first_match_at(preorder(e, keep), pred, 1 + forest(e, c, keep).len() + k),
{
    let whole = preorder(e, keep);
    let prev = forest(e, c, keep);
    let sub = preorder(e.children[c], keep);
    lemma_preorder_child_index(e, c, k, keep);
    assert forall|j: int| 0 <= j < 1 + prev.len() + k implies !pred(#[trigger] whole[j]) by {
        if j == 0 {
            assert(whole == seq![e] + forest(e, e.children.len() as int, keep));
        } else if j - 1 < prev.len() {
            lemma_preorder_forest_index(e, c, j - 1, keep);
        } else {
            lemma_preorder_child_index(e, c, j - 1 - prev.len(), keep);
        }
    }
}

/// Extends "no match" over one more child.
pub proof fn lemma_no_match_step(
    e: Element,
    c: int,
    keep: spec_fn(Element) -> bool,
    pred: spec_fn(Element) -> bool,
)
    requires
        0 <= c < e.children.len(),
        no_match(forest(e, c, keep), pred),
        no_match(preorder(e.children[c], keep), pred),
    ensures
        no_match(forest(e, c + 1, keep), pred),
{
    let a = forest(e, c, keep);
    let b = preorder(e.children[c], keep);
    assert(forest(e, c + 1, keep) == a + b);
    assert forall|j: int| 0 <= j < (a + b).len() implies !pred(#[trigger] (a + b)[j]) by {
        if j < a.len() {
            assert((a + b)[j] == a[j]);
        } else {
            assert((a + b)[j] == b[j - a.len()]);
        }
    }
}

/// A node without a match whose children's forest has no match has no match at all.
pub proof fn lemma_no_match_whole(e: Element, keep: spec_fn(Element) -> bool, pred: spec_fn(Element) -> bool)
    requires
        !keep(e) || (!pred(e) && no_match(forest(e, e.children.len() as int, keep), pred)),
    ensures
        no_match(preorder(e, keep), pred),
{
    if keep(e) {
        let f = forest(e, e.children.len() as int, keep);
        assert(preorder(e, keep) == seq![e] + f);
        assert forall|j: int| 0 <= j < preorder(e, keep).len()
            implies !pred(#[trigger] preorder(e, keep)[j]) by {
            if j > 0 {
                assert(preorder(e, keep)[j] == f[j - 1]);
            }
        }
    }
}

/// A kept node that matches is its own sequence's first match.
pub proof fn lemma_first_match_self(e: Element, keep: spec_fn(Element) -> bool, pred: spec_fn(Element) -> bool)
    requires
        keep(e),
        pred(e),
    ensures
        first_match_at(preorder(e, keep), pred, 0),
{
    assert(preorder(e, keep) == seq![e] + forest(e, e.children.len() as int, keep));
}

pub proof fn lemma_match_ids_concat(a: Seq<Element>, b: Seq<Element>, pred: spec_fn(Element) -> bool)
    ensures
        match_ids(a + b, pred) == match_ids(a, pred).union(match_ids(b, pred)),
{
    assert forall|id: ElementId| match_ids(a + b, pred).contains(id)
        implies match_ids(a, pred).union(match_ids(b, pred)).contains(id) by {
        let i = choose|i: int| 0 <= i < (a + b).len() && pred(#[trigger] (a + b)[i]) && (a + b)[i].runtime_id == id;
        if i < a.len() {
            assert((a + b)[i] == a[i]);
        } else {
            assert((a + b)[i] == b[i - a.len()]);
        }
    }
    assert forall|id: ElementId| match_ids(a, pred).union(match_ids(b, pred)).contains(id)
        implies match_ids(a + b, pred).contains(id) by {
        if match_ids(a, pred).contains(id) {
            let i = choose|i: int| 0 <= i < a.len() && pred(#[trigger] a[i]) && a[i].runtime_id == id;
            assert((a + b)[i] == a[i]);
        } else {
            let i = choose|i: int| 0 <= i < b.len() && pred(#[trigger] b[i]) && b[i].runtime_id == id;
            assert((a + b)[a.len() + i] == b[i]);
        }
    }
    assert(match_ids(a + b, pred) =~= match_ids(a, pred).union(match_ids(b, pred)));
}

pub proof fn lemma_match_ids_single(e: Element, pred: spec_fn(Element) -> bool)
    ensures
        pred(e) ==> match_ids(seq![e], pred) == set![e.runtime_id],
        !pred(e) ==> match_ids(seq![e], pred) == Set::<ElementId>::empty(),
{
    assert(seq![e][0] == e);
    if pred(e) {
        assert(match_ids(seq![e], pred) =~= set![e.runtime_id]);
    } else {
        assert(match_ids(seq![e], pred) =~= Set::<ElementId>::empty());
    }
}

pub proof fn lemma_match_ids_empty(pred: spec_fn(Element) -> bool)
    ensures
        match_ids(Seq::<Element>::empty(), pred) == Set::<ElementId>::empty(),
{
    assert(match_ids(Seq::<Element>::empty(), pred) =~= Set::<ElementId>::empty());
}

/// One more child's subtree adds its matching ids.
pub proof fn lemma_match_ids_forest_step(
    e: Element,
    c: int,
    keep: spec_fn(Element) -> bool,
    pred: spec_fn(Element) -> bool,
)
    requires
        0 <= c < e.children.len(),
    ensures
        match_ids(forest(e, c + 1, keep), pred)
            == match_ids(forest(e, c, keep), pred).union(match_ids(preorder(e.children[c], keep), pred)),
{
    lemma_match_ids_concat(forest(e, c, keep), preorder(e.children[c], keep), pred);
}

/// The matching ids of a kept node's sequence: its own (when it matches) and its children's.
pub proof fn lemma_match_ids_preorder(e: Element, keep: spec_fn(Element) -> bool, pred: spec_fn(Element) -> bool)
    ensures
        !keep(e) ==> match_ids(preorder(e, keep), pred) == Set::<ElementId>::empty(),
        keep(e) && pred(e) ==> match_ids(preorder(e, keep), pred)
            == set![e.runtime_id].union(match_ids(forest(e, e.children.len() as int, keep), pred)),
        keep(e) && !pred(e) ==> match_ids(preorder(e, keep), pred)
            == match_ids(forest(e, e.children.len() as int, keep), pred),
{
    if keep(e) {
        lemma_match_ids_concat(seq![e], forest(e, e.children.len() as int, keep), pred);
        lemma_match_ids_single(e, pred);
        assert(Set::<ElementId>::empty().union(match_ids(forest(e, e.children.len() as int, keep), pred))
            =~= match_ids(forest(e, e.children.len() as int, keep), pred));
    } else {
        lemma_match_ids_empty(pred);
    }
}

pub proof fn lemma_forest_zero(e: Element, keep: spec_fn(Element) -> bool)
    ensures
        forest(e, 0, keep) == Seq::<Element>::empty(),
{
}


/// The matching ids of the first `m` children's forest are among those of the first `n`.
pub proof fn lemma_match_ids_forest_prefix(
    e: Element,
    m: int,
    n: int,
    keep: spec_fn(Element) -> bool,
    pred: spec_fn(Element) -> bool,
)
    requires
        0 <= m <= n <= e.children.len(),
    ensures
        match_ids(forest(e, m, keep), pred).subset_of(match_ids(forest(e, n, keep), pred)),
    decreases n - m,
{
    if m < n {
        lemma_match_ids_forest_prefix(e, m, n - 1, keep, pred);
        lemma_match_ids_forest_step(e, n - 1, keep, pred);
    }
}


/// A kept node's sequence is the node with its first `c` children's forest, then the rest.
pub proof fn lemma_preorder_split(e: Element, c: int, keep: spec_fn(Element) -> bool)
    requires
        keep(e),
        0 <= c <= e.children.len(),
    ensures
        1 + forest(e, c, keep).len() <= preorder(e, keep).len(),
        preorder(e, keep) == (seq![e] + forest(e, c, keep)) + preorder(e, keep).subrange(
            1 + forest(e, c, keep).len() as int,
            preorder(e, keep).len() as int,
        ),
{
    let f = forest(e, e.children.len() as int, keep);
    lemma_forest_prefix(e, c, e.children.len() as int, keep);
    let p = forest(e, c, keep);
    assert(preorder(e, keep) == seq![e] + f);
    assert(f == p + f.subrange(p.len() as int, f.len() as int));
    assert(preorder(e, keep).subrange(1 + p.len() as int, preorder(e, keep).len() as int)
        == f.subrange(p.len() as int, f.len() as int));
}


/// The first match of a concatenation is the first match of its left part, if any, else of its
/// right part.
pub proof fn lemma_first_match_concat(a: Seq<Element>, b: Seq<Element>, pred: spec_fn(Element) -> bool)
    ensures
        first_match(a + b, pred) == (if first_match(a, pred) is Some { first_match(a, pred) } else { first_match(b, pred) }),
{
    lemma_match_cases(a, pred);
    if exists|at: int| first_match_at(a, pred, at) {
        let at = choose|at: int| first_match_at(a, pred, at);
        lemma_first_match_is(a, pred, at);
        assert((a + b)[at] == a[at]);
        assert forall|j: int| 0 <= j < at implies !pred(#[trigger] (a + b)[j]) by {
            assert((a + b)[j] == a[j]);
        }
        lemma_first_match_is(a + b, pred, at);
    } else {
        lemma_first_match_none(a, pred);
        lemma_match_cases(b, pred);
        if exists|k: int| first_match_at(b, pred, k) {
            let k = choose|k: int| first_match_at(b, pred, k);
            lemma_first_match_is(b, pred, k);
            assert((a + b)[a.len() + k] == b[k]);
            assert forall|j: int| 0 <= j < a.len() + k implies !pred(#[trigger] (a + b)[j]) by {
                if j < a.len() {
                    assert((a + b)[j] == a[j]);
                } else {
                    assert((a + b)[j] == b[j - a.len()]);
                }
            }
            lemma_first_match_is(a + b, pred, a.len() + k);
        } else {
            lemma_first_match_none(b, pred);
            assert forall|j: int| 0 <= j < (a + b).len() implies !pred(#[trigger] (a + b)[j]) by {
                if j < a.len() {
                    assert((a + b)[j] == a[j]);
                } else {
                    assert((a + b)[j] == b[j - a.len()]);
                }
            }
            lemma_first_match_none(a + b, pred);
        }
    }
}

pub proof fn lemma_first_match_single(e: Element, pred: spec_fn(Element) -> bool)
    ensures
        first_match(seq![e], pred) == (if pred(e) { Some(e) } else { None::<Element> }),
{
    if pred(e) {
        assert(first_match_at(seq![e], pred, 0));
        lemma_first_match_is(seq![e], pred, 0);
    } else {
        assert(no_match(seq![e], pred));
        lemma_first_match_none(seq![e], pred);
    }
}

pub proof fn lemma_first_match_empty(pred: spec_fn(Element) -> bool)
    ensures
        first_match(Seq::<Element>::empty(), pred) is None,
{
    lemma_first_match_none(Seq::<Element>::empty(), pred);
}


/// Pruning by a stricter filter keeps fewer ids: the first `n` children's forest.
pub proof fn lemma_forest_ids_narrow(
    e: Element,
    n: int,
    strict: spec_fn(Element) -> bool,
    loose: spec_fn(Element) -> bool,
)
    requires
        forall|x: Element| #[trigger] strict(x) ==> loose(x),
        0 <= n <= e.children.len(),
    ensures
        id_set(forest(e, n, strict)).subset_of(id_set(forest(e, n, loose))),
    decreases e, n,
{
    if n > 0 {
        lemma_forest_ids_narrow(e, n - 1, strict, loose);
        lemma_preorder_ids_narrow(e.children[n - 1], strict, loose);
        lemma_match_ids_forest_step(e, n - 1, strict, keep_all());
        lemma_match_ids_forest_step(e, n - 1, loose, keep_all());
    } else {
        lemma_match_ids_empty(keep_all());
    }
}

/// Pruning by a stricter filter keeps fewer ids: a whole subtree.
pub proof fn lemma_preorder_ids_narrow(e: Element, strict: spec_fn(Element) -> bool, loose: spec_fn(Element) -> bool)
    requires
        forall|x: Element| #[trigger] strict(x) ==> loose(x),
    ensures
        id_set(preorder(e, strict)).subset_of(id_set(preorder(e, loose))),
    decreases e, e.children.len() + 1,
{
    lemma_match_ids_preorder(e, strict, keep_all());
    lemma_match_ids_preorder(e, loose, keep_all());
    if strict(e) {
        lemma_forest_ids_narrow(e, e.children.len() as int, strict, loose);
    }
}

} // verus!
