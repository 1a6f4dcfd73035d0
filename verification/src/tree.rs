use vstd::prelude::*;
use std::collections::HashSet;
use crate::element::{
    Element, ElementId, ElementKind, preorder, forest, keep_all, keep_displayed, keep_shown, keep_accessible,
    match_ids, id_set,
};
use crate::traverse::{
    first_match, first_match_at, first_match_id, no_match, lemma_first_match_is, lemma_first_match_none,
    lemma_first_match_in_child, lemma_match_cases, lemma_no_match_step, lemma_no_match_whole, lemma_first_match_self, lemma_preorder_child_index, lemma_match_ids_forest_step,
    lemma_match_ids_preorder, lemma_preorder_ids_narrow,
};

verus! {

broadcast use {vstd::std_specs::vec::group_vec_axioms, vstd::std_specs::hash::group_hash_axioms};

/// Elements whose runtime id is `id`.
pub open spec fn has_id(id: ElementId) -> spec_fn(Element) -> bool {
    |e: Element| e.runtime_id == id
}

/// First element of the subtree, in document order, whose runtime id is `id`.
pub fn find_element(element: &Element, id: ElementId) -> (found: Option<&Element>)
    ensures
        match found {
            Some(e) => first_match(preorder(*element, keep_all()), has_id(id)) == Some(*e),
            None => first_match(preorder(*element, keep_all()), has_id(id)) is None,
        },
    decreases element,
{
    let ghost keep = keep_all();
    let ghost pred = has_id(id);
    if element.runtime_id == id {
        proof {
            lemma_first_match_self(*element, keep, pred);
            lemma_first_match_is(preorder(*element, keep), pred, 0);
        }
        return Some(element);
    }
    let mut i: usize = 0;
    while i < element.children.len()
        invariant
            i <= element.children.len(),
            element.runtime_id != id,
            keep == keep_all(),
            pred == has_id(id),
            no_match(forest(*element, i as int, keep), pred),
        decreases element.children.len() - i,
    {
        let found = find_element(&element.children[i], id);
        let ghost sub = preorder(element.children[i as int], keep);
        if found.is_some() {
            proof {
                let k = choose|k: int| first_match_at(sub, pred, k);
                lemma_first_match_is(sub, pred, k);
                lemma_first_match_in_child(*element, i as int, k, keep, pred);
                lemma_preorder_child_index(*element, i as int, k, keep);
                lemma_first_match_is(preorder(*element, keep), pred,
                    1 + forest(*element, i as int, keep).len() + k);
            }
            return found;
        }
        proof {
            lemma_match_cases(sub, pred);
            if !no_match(sub, pred) {
                let k = choose|k: int| first_match_at(sub, pred, k);
                lemma_first_match_is(sub, pred, k);
            }
            lemma_no_match_step(*element, i as int, keep, pred);
        }
        i += 1;
    }
    proof {
        lemma_no_match_whole(*element, keep, pred);
        lemma_first_match_none(preorder(*element, keep), pred);
    }
    None
}


/// Elements that request initial focus and can take it.
pub open spec fn wants_auto_focus() -> spec_fn(Element) -> bool {
    |e: Element| e.auto_focus && e.focusable && !e.accessibility.disabled
}

/// The first shown element, in document order, that requests initial focus and can take it.
pub fn find_auto_focus(element: &Element) -> (found: Option<ElementId>)
    ensures
        found == first_match_id(preorder(*element, keep_shown()), wants_auto_focus()),
    decreases element,
{
    let ghost keep = keep_shown();
    let ghost pred = wants_auto_focus();
    if element.display_none || element.visibility_hidden {
        proof {
            lemma_no_match_whole(*element, keep, pred);
            lemma_first_match_none(preorder(*element, keep), pred);
        }
        return None;
    }
    if element.auto_focus && element.focusable && !element.accessibility.disabled {
        proof {
            lemma_first_match_self(*element, keep, pred);
            lemma_first_match_is(preorder(*element, keep), pred, 0);
        }
        return Some(element.runtime_id);
    }
    let mut i: usize = 0;
    while i < element.children.len()
        invariant
            i <= element.children.len(),
            keep == keep_shown(),
            pred == wants_auto_focus(),
            keep(*element),
            !pred(*element),
            no_match(forest(*element, i as int, keep), pred),
        decreases element.children.len() - i,
    {
        let found = find_auto_focus(&element.children[i]);
        let ghost sub = preorder(element.children[i as int], keep);
        proof {
            lemma_match_cases(sub, pred);
        }
        if found.is_some() {
            proof {
                let k = choose|k: int| first_match_at(sub, pred, k);
                lemma_first_match_is(sub, pred, k);
                lemma_first_match_in_child(*element, i as int, k, keep, pred);
                lemma_preorder_child_index(*element, i as int, k, keep);
                lemma_first_match_is(preorder(*element, keep), pred,
                    1 + forest(*element, i as int, keep).len() + k);
            }
            return found;
        }
        proof {
            if !no_match(sub, pred) {
                let k = choose|k: int| first_match_at(sub, pred, k);
                lemma_first_match_is(sub, pred, k);
            }
            lemma_no_match_step(*element, i as int, keep, pred);
        }
        i += 1;
    }
    proof {
        lemma_no_match_whole(*element, keep, pred);
        lemma_first_match_none(preorder(*element, keep), pred);
    }
    None
}

/// Inserts the ids of every element whose whole ancestor chain is displayed (`display != none`).
pub fn collect_displayed_ids(element: &Element, ids: &mut HashSet<ElementId>)
    ensures
        final(ids)@ == old(ids)@.union(id_set(preorder(*element, keep_displayed()))),
    decreases element,
{
    let ghost keep = keep_displayed();
    let ghost pred = keep_all();
    proof {
        lemma_match_ids_preorder(*element, keep, pred);
    }
    if element.display_none {
        assert(ids@ =~= old(ids)@.union(id_set(preorder(*element, keep))));
        return;
    }
    ids.insert(element.runtime_id);
    let mut i: usize = 0;
    while i < element.children.len()
        invariant
            i <= element.children.len(),
            keep == keep_displayed(),
            pred == keep_all(),
            ids@ == old(ids)@.union(set![element.runtime_id]).union(
                match_ids(forest(*element, i as int, keep), pred)),
        decreases element.children.len() - i,
    {
        collect_displayed_ids(&element.children[i], ids);
        proof {
            lemma_match_ids_forest_step(*element, i as int, keep, pred);
            assert(ids@ =~= old(ids)@.union(set![element.runtime_id]).union(
                match_ids(forest(*element, i + 1, keep), pred)));
        }
        i += 1;
    }
    assert(ids@ =~= old(ids)@.union(id_set(preorder(*element, keep))));
}

/// Inserts the ids of every element whose whole ancestor chain is shown.
pub fn collect_visible_ids(element: &Element, ids: &mut HashSet<ElementId>)
    ensures
        final(ids)@ == old(ids)@.union(id_set(preorder(*element, keep_shown()))),
    decreases element,
{
    let ghost keep = keep_shown();
    let ghost pred = keep_all();
    proof {
        lemma_match_ids_preorder(*element, keep, pred);
    }
    if element.display_none || element.visibility_hidden {
        assert(ids@ =~= old(ids)@.union(id_set(preorder(*element, keep))));
        return;
    }
    ids.insert(element.runtime_id);
    let mut i: usize = 0;
    while i < element.children.len()
        invariant
            i <= element.children.len(),
            keep == keep_shown(),
            pred == keep_all(),
            ids@ == old(ids)@.union(set![element.runtime_id]).union(
                match_ids(forest(*element, i as int, keep), pred)),
        decreases element.children.len() - i,
    {
        collect_visible_ids(&element.children[i], ids);
        proof {
            lemma_match_ids_forest_step(*element, i as int, keep, pred);
            assert(ids@ =~= old(ids)@.union(set![element.runtime_id]).union(
                match_ids(forest(*element, i + 1, keep), pred)));
        }
        i += 1;
    }
    assert(ids@ =~= old(ids)@.union(id_set(preorder(*element, keep))));
}

/// Inserts the ids of every element whose whole ancestor chain is shown and not hidden from
/// assistive technology.
pub fn collect_accessible_ids(element: &Element, ids: &mut HashSet<ElementId>)
    ensures
        final(ids)@ == old(ids)@.union(id_set(preorder(*element, keep_accessible()))),
    decreases element,
{
    let ghost keep = keep_accessible();
    let ghost pred = keep_all();
    proof {
        lemma_match_ids_preorder(*element, keep, pred);
    }
    if element.display_none || element.visibility_hidden || element.accessibility.hidden {
        assert(ids@ =~= old(ids)@.union(id_set(preorder(*element, keep))));
        return;
    }
    ids.insert(element.runtime_id);
    let mut i: usize = 0;
    while i < element.children.len()
        invariant
            i <= element.children.len(),
            keep == keep_accessible(),
            pred == keep_all(),
            ids@ == old(ids)@.union(set![element.runtime_id]).union(
                match_ids(forest(*element, i as int, keep), pred)),
        decreases element.children.len() - i,
    {
        collect_accessible_ids(&element.children[i], ids);
        proof {
            lemma_match_ids_forest_step(*element, i as int, keep, pred);
            assert(ids@ =~= old(ids)@.union(set![element.runtime_id]).union(
                match_ids(forest(*element, i + 1, keep), pred)));
        }
        i += 1;
    }
    assert(ids@ =~= old(ids)@.union(id_set(preorder(*element, keep))));
}

/// Elements that declare a style transition.
pub open spec fn has_transition() -> spec_fn(Element) -> bool {
    |e: Element| e.has_transition
}

/// Inserts the ids of the shown elements that declare a style transition.
pub fn collect_style_transition_ids(element: &Element, ids: &mut HashSet<ElementId>)
    ensures
        final(ids)@ == old(ids)@.union(match_ids(preorder(*element, keep_shown()), has_transition())),
    decreases element,
{
    let ghost keep = keep_shown();
    let ghost pred = has_transition();
    proof {
        lemma_match_ids_preorder(*element, keep, pred);
    }
    if element.display_none || element.visibility_hidden {
        assert(ids@ =~= old(ids)@.union(match_ids(preorder(*element, keep), pred)));
        return;
    }
    if element.has_transition {
        ids.insert(element.runtime_id);
    }
    let ghost own = if element.has_transition { set![element.runtime_id] } else { Set::<ElementId>::empty() };
    assert(ids@ =~= old(ids)@.union(own).union(match_ids(forest(*element, 0, keep), pred)));
    let mut i: usize = 0;
    while i < element.children.len()
        invariant
            i <= element.children.len(),
            keep == keep_shown(),
            pred == has_transition(),
            own == (if element.has_transition { set![element.runtime_id] } else { Set::<ElementId>::empty() }),
            ids@ == old(ids)@.union(own).union(match_ids(forest(*element, i as int, keep), pred)),
        decreases element.children.len() - i,
    {
        collect_style_transition_ids(&element.children[i], ids);
        proof {
            lemma_match_ids_forest_step(*element, i as int, keep, pred);
            assert(ids@ =~= old(ids)@.union(own).union(match_ids(forest(*element, i + 1, keep), pred)));
        }
        i += 1;
    }
    assert(ids@ =~= old(ids)@.union(match_ids(preorder(*element, keep), pred)));
}

/// Elements that are text inputs.
pub open spec fn is_text_input() -> spec_fn(Element) -> bool {
    |e: Element| e.kind is TextInput
}

/// Inserts the ids of the text inputs of the displayed subtree (a `visibility: hidden` input keeps
/// its editing state).
pub fn collect_text_input_ids(element: &Element, ids: &mut HashSet<ElementId>)
    ensures
        final(ids)@ == old(ids)@.union(match_ids(preorder(*element, keep_displayed()), is_text_input())),
    decreases element,
{
    let ghost keep = keep_displayed();
    let ghost pred = is_text_input();
    proof {
        lemma_match_ids_preorder(*element, keep, pred);
    }
    if element.display_none {
        assert(ids@ =~= old(ids)@.union(match_ids(preorder(*element, keep), pred)));
        return;
    }
    let input = match &element.kind {
        ElementKind::TextInput { .. } => true,
        _ => false,
    };
    if input {
        ids.insert(element.runtime_id);
    }
    let ghost own = if input { set![element.runtime_id] } else { Set::<ElementId>::empty() };
    assert(ids@ =~= old(ids)@.union(own).union(match_ids(forest(*element, 0, keep), pred)));
    let mut i: usize = 0;
    while i < element.children.len()
        invariant
            i <= element.children.len(),
            keep == keep_displayed(),
            pred == is_text_input(),
            input == pred(*element),
            own == (if input { set![element.runtime_id] } else { Set::<ElementId>::empty() }),
            ids@ == old(ids)@.union(own).union(match_ids(forest(*element, i as int, keep), pred)),
        decreases element.children.len() - i,
    {
        collect_text_input_ids(&element.children[i], ids);
        proof {
            lemma_match_ids_forest_step(*element, i as int, keep, pred);
            assert(ids@ =~= old(ids)@.union(own).union(match_ids(forest(*element, i + 1, keep), pred)));
        }
        i += 1;
    }
    assert(ids@ =~= old(ids)@.union(match_ids(preorder(*element, keep), pred)));
}

/// Whether `target` is the id of an element of the semantic (accessible) subtree.
pub fn accessibility_tree_contains(element: &Element, target: ElementId) -> (found: bool)
    ensures
        found == id_set(preorder(*element, keep_accessible())).contains(target),
    decreases element,
{
    let ghost keep = keep_accessible();
    let ghost pred = keep_all();
    proof {
        lemma_match_ids_preorder(*element, keep, pred);
    }
    if element.display_none || element.visibility_hidden || element.accessibility.hidden {
        return false;
    }
    if element.runtime_id == target {
        return true;
    }
    let mut i: usize = 0;
    while i < element.children.len()
        invariant
            i <= element.children.len(),
            keep == keep_accessible(),
            pred == keep_all(),
            element.runtime_id != target,
            keep(*element),
            !match_ids(forest(*element, i as int, keep), pred).contains(target),
        decreases element.children.len() - i,
    {
        let found = accessibility_tree_contains(&element.children[i], target);
        proof {
            lemma_match_ids_forest_step(*element, i as int, keep, pred);
            lemma_match_ids_forest_step(*element, i as int, keep, pred);
        }
        if found {
            proof {
                super::traverse::lemma_match_ids_forest_prefix(*element, i as int + 1, element.children.len() as int, keep, pred);
                assert(match_ids(preorder(element.children[i as int], keep), pred).contains(target));
                assert(match_ids(forest(*element, i + 1, keep), pred).contains(target));
                assert(match_ids(forest(*element, element.children.len() as int, keep), pred).contains(target));
                lemma_match_ids_preorder(*element, keep, pred);
                assert(match_ids(preorder(*element, keep), pred).contains(target));
            }
            return true;
        }
        i += 1;
    }
    false
}

/// The semantic tree lies inside the shown tree, and the shown tree inside the displayed
/// tree: every id that `collect_accessible_ids` gathers from a root is one that
/// `collect_visible_ids` gathers from it, and every one of those is gathered by
/// `collect_displayed_ids`.
pub proof fn lemma_accessible_within_visible_within_displayed(root: Element)
    ensures
        id_set(preorder(root, keep_accessible())).subset_of(id_set(preorder(root, keep_shown()))),
        id_set(preorder(root, keep_shown())).subset_of(id_set(preorder(root, keep_displayed()))),
{
    assert forall|x: Element| #[trigger] keep_accessible()(x) implies keep_shown()(x) by {}
    assert forall|x: Element| #[trigger] keep_shown()(x) implies keep_displayed()(x) by {}
    lemma_preorder_ids_narrow(root, keep_accessible(), keep_shown());
    lemma_preorder_ids_narrow(root, keep_shown(), keep_displayed());
}

} // verus!
