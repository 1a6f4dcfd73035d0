use vstd::prelude::*;
use std::collections::{HashMap, HashSet};
use crate::element::{
    Element, ElementId, ElementKind, Tooltip, preorder, forest, keep_all, keep_shown,
};
use crate::traverse::{lemma_forest_zero, lemma_preorder_split};

verus! {

broadcast use {vstd::std_specs::vec::group_vec_axioms, vstd::std_specs::hash::group_hash_axioms};

/// Node id reserved for the root of the accessibility tree.
pub const ACCESSIBILITY_ROOT_ID: u64 = 0xffff_ffff_ffff_ffff;

/// Why a view cannot be mounted.
#[derive(Clone, Copy, Debug, PartialEq, Eq, Structural)]
pub enum UiError {
    DuplicateId(ElementId),
    ReservedId(ElementId),
    DuplicateAnimationId(ElementId),
    TooManyDeclarativeAnimations,
    TooManyStyleTransitions,
    MissingAnchor { element: ElementId, anchor: ElementId },
    TooManyTooltips,
    TooManyContainerQueries,
    ContainerQueryDepthExceeded,
    ContainerQueryDidNotConverge,
}

// ----- explicit ids -----

/// The explicit ids declared by the elements of `s`, in order.
pub open spec fn explicit_ids(s: Seq<Element>) -> Seq<ElementId>
    decreases s.len(),
{
    if s.len() == 0 {
        Seq::empty()
    } else {
        let rest = explicit_ids(s.drop_last());
        match s.last().explicit_id {
            Some(id) => rest.push(id),
            None => rest,
        }
    }
}

/// Registers `xs` in order into `seen`; stops at the first id already registered and reports it.
pub open spec fn register_ids(seen: Set<ElementId>, xs: Seq<ElementId>) -> (Set<ElementId>, Option<ElementId>)
    decreases xs.len(),
{
    if xs.len() == 0 {
        (seen, None)
    } else {
        let (set, duplicate) = register_ids(seen, xs.drop_last());
        if duplicate is Some {
            (set, duplicate)
        } else if set.contains(xs.last()) {
            (set, Some(xs.last()))
        } else {
            (set.insert(xs.last()), None)
        }
    }
}

pub proof fn lemma_explicit_ids_concat(a: Seq<Element>, b: Seq<Element>)
    ensures
        explicit_ids(a + b) == explicit_ids(a) + explicit_ids(b),
    decreases b.len(),
{
    if b.len() == 0 {
        assert(a + b == a);
        assert(explicit_ids(a) + explicit_ids(b) == explicit_ids(a));
    } else {
        lemma_explicit_ids_concat(a, b.drop_last());
        assert((a + b).drop_last() == a + b.drop_last());
        assert((a + b).last() == b.last());
        match b.last().explicit_id {
            Some(id) => {
                assert(explicit_ids(a) + explicit_ids(b.drop_last()).push(id)
                    == (explicit_ids(a) + explicit_ids(b.drop_last())).push(id));
            },
            None => {},
        }
    }
}

pub proof fn lemma_register_ids_concat(seen: Set<ElementId>, a: Seq<ElementId>, b: Seq<ElementId>)
    ensures
        register_ids(seen, a + b) == (if register_ids(seen, a).1 is Some {
            register_ids(seen, a)
        } else {
            register_ids(register_ids(seen, a).0, b)
        }),
    decreases b.len(),
{
    if b.len() == 0 {
        assert(a + b == a);
    } else {
        lemma_register_ids_concat(seen, a, b.drop_last());
        assert((a + b).drop_last() == a + b.drop_last());
        assert((a + b).last() == b.last());
    }
}

pub proof fn lemma_explicit_ids_single(e: Element)
    ensures
        explicit_ids(seq![e]) == (match e.explicit_id { Some(id) => seq![id], None => Seq::<ElementId>::empty() }),
{
    assert(seq![e].drop_last() == Seq::<Element>::empty());
    assert(seq![e].last() == e);
    assert(explicit_ids(Seq::<Element>::empty()) == Seq::<ElementId>::empty());
    match e.explicit_id {
        Some(id) => assert(Seq::<ElementId>::empty().push(id) == seq![id]),
        None => {},
    }
}

/// The outcome of registering every explicit id of the subtree (document order) into `seen`.
pub open spec fn spec_register_subtree(seen: Set<ElementId>, e: Element) -> (Set<ElementId>, Option<ElementId>) {
    register_ids(seen, explicit_ids(preorder(e, keep_all())))
}

/// Registers every explicit id of the subtree in document order, rejecting the first id that is
/// already registered: the accessibility root's id is reserved, any other is a duplicate.
pub fn collect_explicit_ids(element: &Element, ids: &mut HashSet<ElementId>) -> (result: Result<(), UiError>)
    ensures
        final(ids)@ == spec_register_subtree(old(ids)@, *element).0,
        match result {
            Ok(()) => spec_register_subtree(old(ids)@, *element).1 is None,
            Err(UiError::ReservedId(id)) => spec_register_subtree(old(ids)@, *element).1 == Some(id)
                && id == ACCESSIBILITY_ROOT_ID,
            Err(UiError::DuplicateId(id)) => spec_register_subtree(old(ids)@, *element).1 == Some(id)
                && id != ACCESSIBILITY_ROOT_ID,
            Err(_) => false,
        },
    decreases element,
{
    let ghost keep = keep_all();
    let ghost own = match element.explicit_id { Some(id) => seq![id], None => Seq::<ElementId>::empty() };
    proof {
        lemma_explicit_ids_single(*element);
        lemma_forest_zero(*element, keep);
        assert(seq![*element] + forest(*element, 0, keep) == seq![*element]);
    }
    if let Some(id) = element.explicit_id {
        if !ids.insert(id) {
            proof {
                assert(register_ids(old(ids)@, own) == (old(ids)@, Some(id))) by {
                    assert(own.drop_last() == Seq::<ElementId>::empty());
                    assert(own.last() == id);
                    assert(register_ids(old(ids)@, Seq::<ElementId>::empty()) == (old(ids)@, None::<ElementId>));
                }
                lemma_explicit_ids_concat(seq![*element], forest(*element, element.children.len() as int, keep));
                lemma_register_ids_concat(old(ids)@, own,
                    explicit_ids(forest(*element, element.children.len() as int, keep)));
            }
            if id == ACCESSIBILITY_ROOT_ID {
                return Err(UiError::ReservedId(id));
            }
            return Err(UiError::DuplicateId(id));
        }
        proof {
            assert(register_ids(old(ids)@, own) == (old(ids)@.insert(id), None::<ElementId>)) by {
                assert(own.drop_last() == Seq::<ElementId>::empty());
                assert(own.last() == id);
                assert(register_ids(old(ids)@, Seq::<ElementId>::empty()) == (old(ids)@, None::<ElementId>));
            }
        }
    } else {
        assert(register_ids(old(ids)@, own) == (old(ids)@, None::<ElementId>));
    }
    let mut i: usize = 0;
    while i < element.children.len()
        invariant
            i <= element.children.len(),
            keep == keep_all(),
            register_ids(old(ids)@, explicit_ids(seq![*element] + forest(*element, i as int, keep)))
                == (ids@, None::<ElementId>),
        decreases element.children.len() - i,
    {
        let ghost before = ids@;
        let ghost prev = seq![*element] + forest(*element, i as int, keep);
        let ghost sub = preorder(element.children[i as int], keep);
        let ghost rest_after = forest(*element, element.children.len() as int, keep);
        proof {
            assert(forest(*element, i + 1, keep) == forest(*element, i as int, keep) + sub);
            assert(prev + sub == seq![*element] + forest(*element, i + 1, keep));
            lemma_explicit_ids_concat(prev, sub);
            lemma_register_ids_concat(old(ids)@, explicit_ids(prev), explicit_ids(sub));
        }
        let child = collect_explicit_ids(&element.children[i], ids);
        if child.is_err() {
            proof {
                let whole = preorder(*element, keep);
                lemma_preorder_split(*element, i as int + 1, keep);
                let post = whole.subrange((prev + sub).len() as int, whole.len() as int);
                assert(whole == (prev + sub) + post);
                lemma_explicit_ids_concat(prev + sub, post);
                lemma_register_ids_concat(old(ids)@, explicit_ids(prev + sub), explicit_ids(post));
            }
            return child;
        }
        i += 1;
    }
    proof {
        assert(preorder(*element, keep) == seq![*element] + forest(*element, element.children.len() as int, keep));
    }
    Ok(())
}

// ----- counted registries -----

/// Number of elements of `s` that declare a style transition.
pub open spec fn transition_count(s: Seq<Element>) -> nat
    decreases s.len(),
{
    if s.len() == 0 {
        0
    } else {
        transition_count(s.drop_last()) + if s.last().has_transition { 1nat } else { 0nat }
    }
}

pub proof fn lemma_transition_count_concat(a: Seq<Element>, b: Seq<Element>)
    ensures
        transition_count(a + b) == transition_count(a) + transition_count(b),
    decreases b.len(),
{
    if b.len() == 0 {
        assert(a + b == a);
    } else {
        lemma_transition_count_concat(a, b.drop_last());
        assert((a + b).drop_last() == a + b.drop_last());
        assert((a + b).last() == b.last());
    }
}

/// Counts the shown style transitions of the subtree onto `count`, failing as soon as one more
/// would exceed `limit`.
pub fn validate_style_transition_count(element: &Element, count: &mut usize, limit: usize) -> (result: Result<(), UiError>)
    requires
        *old(count) <= limit,
    ensures
        ({
            let total = *old(count) + transition_count(preorder(*element, keep_shown()));
            &&& (result is Ok <==> total <= limit)
            &&& (result is Ok ==> *final(count) == total)
            &&& (result is Err ==> result == Err::<(), UiError>(UiError::TooManyStyleTransitions)
                && *final(count) == limit)
        }),
    decreases element,
{
    let ghost keep = keep_shown();
    if element.display_none || element.visibility_hidden {
        assert(preorder(*element, keep) == Seq::<Element>::empty());
        return Ok(());
    }
    proof {
        lemma_forest_zero(*element, keep);
        assert(seq![*element] + forest(*element, 0, keep) == seq![*element]);
        assert(seq![*element].drop_last() == Seq::<Element>::empty());
        assert(seq![*element].last() == *element);
        assert(transition_count(Seq::<Element>::empty()) == 0);
        assert(transition_count(seq![*element]) == if element.has_transition { 1nat } else { 0nat });
    }
    if element.has_transition {
        if *count == limit {
            proof {
                let whole = preorder(*element, keep);
                assert(whole == seq![*element] + forest(*element, element.children.len() as int, keep));
                lemma_transition_count_concat(seq![*element], forest(*element, element.children.len() as int, keep));
            }
            return Err(UiError::TooManyStyleTransitions);
        }
        *count += 1;
    }
    let mut i: usize = 0;
    while i < element.children.len()
        invariant
            i <= element.children.len(),
            keep == keep_shown(),
            keep(*element),
            *count <= limit,
            *count == *old(count) + transition_count(seq![*element] + forest(*element, i as int, keep)),
        decreases element.children.len() - i,
    {
        let ghost prev = seq![*element] + forest(*element, i as int, keep);
        let ghost sub = preorder(element.children[i as int], keep);
        proof {
            assert(forest(*element, i + 1, keep) == forest(*element, i as int, keep) + sub);
            assert(prev + sub == seq![*element] + forest(*element, i + 1, keep));
            lemma_transition_count_concat(prev, sub);
        }
        let child = validate_style_transition_count(&element.children[i], count, limit);
        if child.is_err() {
            proof {
                let whole = preorder(*element, keep);
                lemma_preorder_split(*element, i as int + 1, keep);
                let post = whole.subrange((prev + sub).len() as int, whole.len() as int);
                assert(whole == (prev + sub) + post);
                lemma_transition_count_concat(prev + sub, post);
            }
            return child;
        }
        i += 1;
    }
    assert(preorder(*element, keep) == seq![*element] + forest(*element, element.children.len() as int, keep));
    Ok(())
}

impl Tooltip {
    /// A copy of this tooltip.
    pub fn duplicate(&self) -> (copy: Tooltip)
        ensures
            copy == *self,
    {
        Tooltip { text: self.text.clone(), delay: self.delay }
    }
}

/// The tooltip an element registers: its declared tooltip, unless it is disabled.
pub open spec fn registered_tooltip(e: Element) -> Option<Tooltip> {
    if e.tooltip is Some && !e.accessibility.disabled { e.tooltip } else { None }
}

/// Registers the tooltips of `s` in order into `m`; fails when a tooltip arrives while `m`
/// already holds `limit` entries.
pub open spec fn register_tooltips(m: Map<ElementId, Tooltip>, s: Seq<Element>, limit: nat)
    -> (Map<ElementId, Tooltip>, bool)
    decreases s.len(),
{
    if s.len() == 0 {
        (m, true)
    } else {
        let (map, ok) = register_tooltips(m, s.drop_last(), limit);
        if !ok {
            (map, false)
        } else {
            match registered_tooltip(s.last()) {
                Some(t) => if map.len() >= limit { (map, false) } else { (map.insert(s.last().runtime_id, t), true) },
                None => (map, true),
            }
        }
    }
}

pub proof fn lemma_register_tooltips_concat(m: Map<ElementId, Tooltip>, a: Seq<Element>, b: Seq<Element>, limit: nat)
    ensures
        register_tooltips(m, a + b, limit) == (if !register_tooltips(m, a, limit).1 {
            register_tooltips(m, a, limit)
        } else {
            register_tooltips(register_tooltips(m, a, limit).0, b, limit)
        }),
    decreases b.len(),
{
    if b.len() == 0 {
        assert(a + b == a);
    } else {
        lemma_register_tooltips_concat(m, a, b.drop_last(), limit);
        assert((a + b).drop_last() == a + b.drop_last());
        assert((a + b).last() == b.last());
    }
}

/// Registers the tooltips of the shown subtree in document order, refusing to hold more than
/// `limit` of them.
pub fn collect_tooltips(element: &Element, tooltips: &mut HashMap<ElementId, Tooltip>, limit: usize)
    -> (result: Result<(), UiError>)
    ensures
        ({
            let (map, ok) = register_tooltips(old(tooltips)@, preorder(*element, keep_shown()), limit as nat);
            &&& final(tooltips)@ == map
            &&& (result is Ok <==> ok)
            &&& (result is Err ==> result == Err::<(), UiError>(UiError::TooManyTooltips))
        }),
    decreases element,
{
    let ghost keep = keep_shown();
    if element.display_none || element.visibility_hidden {
        assert(preorder(*element, keep) == Seq::<Element>::empty());
        return Ok(());
    }
    proof {
        lemma_forest_zero(*element, keep);
        assert(seq![*element] + forest(*element, 0, keep) == seq![*element]);
        assert(seq![*element].drop_last() == Seq::<Element>::empty());
        assert(seq![*element].last() == *element);
        assert(register_tooltips(old(tooltips)@, Seq::<Element>::empty(), limit as nat) == (old(tooltips)@, true));
    }
    if let Some(tooltip) = &element.tooltip {
        if !element.accessibility.disabled {
            if tooltips.len() >= limit {
                proof {
                    assert(register_tooltips(old(tooltips)@, seq![*element], limit as nat) == (old(tooltips)@, false));
                    let whole = preorder(*element, keep);
                    assert(whole == seq![*element] + forest(*element, element.children.len() as int, keep));
                    lemma_register_tooltips_concat(old(tooltips)@, seq![*element],
                        forest(*element, element.children.len() as int, keep), limit as nat);
                }
                return Err(UiError::TooManyTooltips);
            }
            tooltips.insert(element.runtime_id, tooltip.duplicate());
        }
    }
    let mut i: usize = 0;
    while i < element.children.len()
        invariant
            i <= element.children.len(),
            keep == keep_shown(),
            keep(*element),
            register_tooltips(old(tooltips)@, seq![*element] + forest(*element, i as int, keep), limit as nat)
                == (tooltips@, true),
        decreases element.children.len() - i,
    {
        let ghost prev = seq![*element] + forest(*element, i as int, keep);
        let ghost sub = preorder(element.children[i as int], keep);
        proof {
            assert(forest(*element, i + 1, keep) == forest(*element, i as int, keep) + sub);
            assert(prev + sub == seq![*element] + forest(*element, i + 1, keep));
            lemma_register_tooltips_concat(old(tooltips)@, prev, sub, limit as nat);
        }
        let child = collect_tooltips(&element.children[i], tooltips, limit);
        if child.is_err() {
            proof {
                let whole = preorder(*element, keep);
                lemma_preorder_split(*element, i as int + 1, keep);
                let post = whole.subrange((prev + sub).len() as int, whole.len() as int);
                assert(whole == (prev + sub) + post);
                lemma_register_tooltips_concat(old(tooltips)@, prev + sub, post, limit as nat);
            }
            return child;
        }
        i += 1;
    }
    assert(preorder(*element, keep) == seq![*element] + forest(*element, element.children.len() as int, keep));
    Ok(())
}

} // verus!
