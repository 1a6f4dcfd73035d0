use vstd::prelude::*;
use crate::tree::{find_element, has_id};
use crate::element::{keep_all, 
    AccessibilityRole, Element, ElementId, ToggleState, preorder, forest, postorder, post_forest,
    keep_shown, match_ids, is_shown,
};
use crate::traverse::{
    first_match, first_match_id, lemma_first_match_concat, lemma_first_match_single,
    lemma_first_match_empty, lemma_forest_zero, lemma_match_ids_concat, lemma_match_ids_single,
    lemma_match_ids_empty, first_match_at, lemma_first_match_is, lemma_first_match_none, no_match,
};

verus! {

broadcast use vstd::std_specs::vec::group_vec_axioms;

/// The two kinds of single-tab-stop widget groups.
#[derive(Clone, Copy, Debug, PartialEq, Eq, Structural)]
pub enum Grouping {
    Tabs,
    Radios,
}

pub open spec fn group_role(g: Grouping) -> AccessibilityRole {
    match g {
        Grouping::Tabs => AccessibilityRole::TabList,
        Grouping::Radios => AccessibilityRole::RadioGroup,
    }
}

pub open spec fn item_role(g: Grouping) -> AccessibilityRole {
    match g {
        Grouping::Tabs => AccessibilityRole::Tab,
        Grouping::Radios => AccessibilityRole::RadioButton,
    }
}

/// The item a group's tab stop prefers: the selected tab, or the checked radio button.
pub open spec fn item_chosen(g: Grouping, e: Element) -> bool {
    match g {
        Grouping::Tabs => e.accessibility.selected,
        Grouping::Radios => e.accessibility.toggled == Some(ToggleState::On),
    }
}

fn group_role_of(g: Grouping) -> (role: AccessibilityRole)
    ensures
        role == group_role(g),
{
    match g {
        Grouping::Tabs => AccessibilityRole::TabList,
        Grouping::Radios => AccessibilityRole::RadioGroup,
    }
}

fn item_role_of(g: Grouping) -> (role: AccessibilityRole)
    ensures
        role == item_role(g),
{
    match g {
        Grouping::Tabs => AccessibilityRole::Tab,
        Grouping::Radios => AccessibilityRole::RadioButton,
    }
}

fn is_chosen(g: Grouping, e: &Element) -> (chosen: bool)
    ensures
        chosen == item_chosen(g, *e),
{
    match g {
        Grouping::Tabs => e.accessibility.selected,
        Grouping::Radios => e.accessibility.toggled == Some(ToggleState::On),
    }
}

/// The part of a group's subtree that belongs to it: shown elements, not inside a nested group
/// of the same kind.
pub open spec fn keep_group_scope(g: Grouping, group_id: ElementId) -> spec_fn(Element) -> bool {
    |e: Element| is_shown(e) && !(e.runtime_id != group_id && e.accessibility.role == group_role(g))
}

/// Enabled items that can be tab stops.
pub open spec fn stop_candidate(g: Grouping) -> spec_fn(Element) -> bool {
    |e: Element| e.accessibility.role == item_role(g) && e.focusable && !e.accessibility.disabled && e.tab_index >= 0
}

pub open spec fn chosen_stop_candidate(g: Grouping) -> spec_fn(Element) -> bool {
    |e: Element| stop_candidate(g)(e) && item_chosen(g, e)
}

pub open spec fn or_else(a: Option<ElementId>, b: Option<ElementId>) -> Option<ElementId> {
    if a is Some { a } else { b }
}

/// The single tab stop of a tab list or radio group: its first selected (checked) enabled item,
/// else its first enabled item, in document order.
pub open spec fn spec_group_tab_stop(g: Grouping, group: Element) -> Option<ElementId> {
    let s = preorder(group, keep_group_scope(g, group.runtime_id));
    or_else(first_match_id(s, chosen_stop_candidate(g)), first_match_id(s, stop_candidate(g)))
}

proof fn lemma_first_match_id_concat(a: Seq<Element>, b: Seq<Element>, pred: spec_fn(Element) -> bool)
    ensures
        first_match_id(a + b, pred) == or_else(first_match_id(a, pred), first_match_id(b, pred)),
{
    lemma_first_match_concat(a, b, pred);
}

proof fn lemma_first_match_id_single(e: Element, pred: spec_fn(Element) -> bool)
    ensures
        first_match_id(seq![e], pred) == (if pred(e) { Some(e.runtime_id) } else { None::<ElementId> }),
{
    lemma_first_match_single(e, pred);
}

fn visit_group_stops(
    element: &Element,
    g: Grouping,
    group_id: ElementId,
    first: &mut Option<ElementId>,
    selected: &mut Option<ElementId>,
)
    ensures
        *final(first) == or_else(*old(first), first_match_id(preorder(*element, keep_group_scope(g, group_id)), stop_candidate(g))),
        *final(selected) == or_else(*old(selected), first_match_id(preorder(*element, keep_group_scope(g, group_id)), chosen_stop_candidate(g))),
    decreases element,
{
    let ghost keep = keep_group_scope(g, group_id);
    let ghost cand = stop_candidate(g);
    let ghost chosen = chosen_stop_candidate(g);
    if element.display_none || element.visibility_hidden
        || (element.runtime_id != group_id && element.accessibility.role == group_role_of(g)) {
        proof {
            lemma_first_match_empty(cand);
            lemma_first_match_empty(chosen);
        }
        return;
    }
    if element.accessibility.role == item_role_of(g) && element.focusable && !element.accessibility.disabled
        && element.tab_index >= 0 {
        if first.is_none() {
            *first = Some(element.runtime_id);
        }
        if selected.is_none() && is_chosen(g, element) {
            *selected = Some(element.runtime_id);
        }
    }
    proof {
        lemma_forest_zero(*element, keep);
        assert(seq![*element] + forest(*element, 0, keep) == seq![*element]);
        lemma_first_match_id_single(*element, cand);
        lemma_first_match_id_single(*element, chosen);
    }
    let mut i: usize = 0;
    while i < element.children.len()
        invariant
            i <= element.children.len(),
            keep == keep_group_scope(g, group_id),
            cand == stop_candidate(g),
            chosen == chosen_stop_candidate(g),
            *first == or_else(*old(first), first_match_id(seq![*element] + forest(*element, i as int, keep), cand)),
            *selected == or_else(*old(selected), first_match_id(seq![*element] + forest(*element, i as int, keep), chosen)),
        decreases element.children.len() - i,
    {
        let ghost prev = seq![*element] + forest(*element, i as int, keep);
        let ghost sub = preorder(element.children[i as int], keep);
        visit_group_stops(&element.children[i], g, group_id, first, selected);
        proof {
            assert(forest(*element, i + 1, keep) == forest(*element, i as int, keep) + sub);
            assert(prev + sub == seq![*element] + forest(*element, i + 1, keep));
            lemma_first_match_id_concat(prev, sub, cand);
            lemma_first_match_id_concat(prev, sub, chosen);
        }
        i += 1;
    }
    assert(preorder(*element, keep) == seq![*element] + forest(*element, element.children.len() as int, keep));
}

fn group_tab_stop(group: &Element, g: Grouping) -> (stop: Option<ElementId>)
    ensures
        stop == spec_group_tab_stop(g, *group),
{
    let mut first: Option<ElementId> = None;
    let mut selected: Option<ElementId> = None;
    visit_group_stops(group, g, group.runtime_id, &mut first, &mut selected);
    match selected {
        Some(id) => Some(id),
        None => first,
    }
}

/// The single tab stop of a tab list: its first selected enabled tab, else its first enabled tab.
pub fn tab_list_tab_stop(list: &Element) -> (stop: Option<ElementId>)
    ensures
        stop == spec_group_tab_stop(Grouping::Tabs, *list),
{
    group_tab_stop(list, Grouping::Tabs)
}

/// The single tab stop of a radio group: its first checked enabled radio, else its first enabled
/// radio.
pub fn radio_group_tab_stop(group: &Element) -> (stop: Option<ElementId>)
    ensures
        stop == spec_group_tab_stop(Grouping::Radios, *group),
{
    group_tab_stop(group, Grouping::Radios)
}

/// Whether the shown subtree of `e` holds an element with id `id`.
pub open spec fn shown_subtree_contains(e: Element, id: ElementId) -> bool {
    match_ids(postorder(e, keep_shown()), |x: Element| true).contains(id)
}

/// Groups of kind `g` whose shown subtree holds the focused element.
pub open spec fn group_containing(g: Grouping, focused: ElementId) -> spec_fn(Element) -> bool {
    |e: Element| e.accessibility.role == group_role(g) && shown_subtree_contains(e, focused)
}

proof fn lemma_contains_concat(a: Seq<Element>, b: Seq<Element>, id: ElementId)
    ensures
        match_ids(a + b, |x: Element| true).contains(id)
            == (match_ids(a, |x: Element| true).contains(id) || match_ids(b, |x: Element| true).contains(id)),
{
    lemma_match_ids_concat(a, b, |x: Element| true);
}

fn visit_group_for_focused<'a>(element: &'a Element, g: Grouping, focused: ElementId) -> (result: (bool, Option<&'a Element>))
    ensures
        match result.1 {
            Some(found) => first_match(postorder(*element, keep_shown()), group_containing(g, focused)) == Some(*found)
                && result.0,
            None => first_match(postorder(*element, keep_shown()), group_containing(g, focused)) is None
                && result.0 == shown_subtree_contains(*element, focused),
        },
    decreases element,
{
    let ghost keep = keep_shown();
    let ghost pred = group_containing(g, focused);
    let ghost all = |x: Element| true;
    if element.display_none || element.visibility_hidden {
        proof {
            lemma_first_match_empty(pred);
            lemma_match_ids_empty(all);
        }
        return (false, None);
    }
    let mut contains = element.runtime_id == focused;
    proof {
        assert(post_forest(*element, 0, keep) == Seq::<Element>::empty());
        lemma_first_match_empty(pred);
        lemma_match_ids_empty(all);
    }
    let mut i: usize = 0;
    while i < element.children.len()
        invariant
            i <= element.children.len(),
            keep == keep_shown(),
            keep(*element),
            pred == group_containing(g, focused),
            all == (|x: Element| true),
            first_match(post_forest(*element, i as int, keep), pred) is None,
            contains == (element.runtime_id == focused || match_ids(post_forest(*element, i as int, keep), all).contains(focused)),
        decreases element.children.len() - i,
    {
        let ghost prev = post_forest(*element, i as int, keep);
        let ghost sub = postorder(element.children[i as int], keep);
        let (child_contains, child_group) = visit_group_for_focused(&element.children[i], g, focused);
        proof {
            assert(post_forest(*element, i + 1, keep) == prev + sub);
            lemma_first_match_concat(prev, sub, pred);
            lemma_contains_concat(prev, sub, focused);
        }
        if let Some(group) = child_group {
            proof {
                let rest = post_forest(*element, element.children.len() as int, keep);
                lemma_post_forest_prefix(*element, i as int + 1, element.children.len() as int, keep);
                let head = post_forest(*element, i as int + 1, keep);
                let tail = rest.subrange(head.len() as int, rest.len() as int);
                assert(rest == head + tail);
                lemma_first_match_concat(head, tail, pred);
                assert(postorder(*element, keep) == rest + seq![*element]);
                lemma_first_match_concat(rest, seq![*element], pred);
            }
            return (true, Some(group));
        }
        contains = contains || child_contains;
        i += 1;
    }
    proof {
        let rest = post_forest(*element, element.children.len() as int, keep);
        assert(postorder(*element, keep) == rest + seq![*element]);
        lemma_first_match_concat(rest, seq![*element], pred);
        lemma_first_match_single(*element, pred);
        lemma_contains_concat(rest, seq![*element], focused);
        lemma_match_ids_single(*element, all);
    }
    if contains && element.accessibility.role == group_role_of(g) {
        (true, Some(element))
    } else {
        (contains, None)
    }
}

proof fn lemma_post_forest_prefix(e: Element, m: int, n: int, keep: spec_fn(Element) -> bool)
    requires
        0 <= m <= n <= e.children.len(),
    ensures
        post_forest(e, n, keep).len() >= post_forest(e, m, keep).len(),
        post_forest(e, n, keep).subrange(0, post_forest(e, m, keep).len() as int) == post_forest(e, m, keep),
    decreases n - m,
{
    if m < n {
        lemma_post_forest_prefix(e, m, n - 1, keep);
        let a = post_forest(e, n - 1, keep);
        assert(post_forest(e, n, keep) == a + postorder(e.children[n - 1], keep));
        assert(post_forest(e, n, keep).subrange(0, a.len() as int) == a);
        assert(post_forest(e, n, keep).subrange(0, post_forest(e, m, keep).len() as int)
            == a.subrange(0, post_forest(e, m, keep).len() as int));
    }
}

/// The innermost shown tab list that holds the focused element (the first such list in
/// post-order, so nested lists win over their ancestors).
pub fn tab_list_for_focused<'a>(element: &'a Element, focused: ElementId) -> (list: Option<&'a Element>)
    ensures
        match list {
            Some(l) => first_match(postorder(*element, keep_shown()), group_containing(Grouping::Tabs, focused)) == Some(*l),
            None => first_match(postorder(*element, keep_shown()), group_containing(Grouping::Tabs, focused)) is None,
        },
{
    visit_group_for_focused(element, Grouping::Tabs, focused).1
}

/// The innermost shown radio group that holds the focused element.
pub fn radio_group_for_focused<'a>(element: &'a Element, focused: ElementId) -> (group: Option<&'a Element>)
    ensures
        match group {
            Some(l) => first_match(postorder(*element, keep_shown()), group_containing(Grouping::Radios, focused)) == Some(*l),
            None => first_match(postorder(*element, keep_shown()), group_containing(Grouping::Radios, focused)) is None,
        },
{
    visit_group_for_focused(element, Grouping::Radios, focused).1
}


/// Keyboard-navigation neighbours of the focused item inside its group.
#[derive(Clone, Copy, Debug, PartialEq, Eq, Structural)]
pub struct GroupNeighbors {
    pub first: Option<ElementId>,
    pub previous: Option<ElementId>,
    pub next: Option<ElementId>,
    pub last: Option<ElementId>,
    pub found_focus: bool,
}

impl GroupNeighbors {
    /// No items seen yet.
    pub fn new() -> (n: GroupNeighbors)
        ensures
            n == (GroupNeighbors { first: None, previous: None, next: None, last: None, found_focus: false }),
    {
        GroupNeighbors { first: None, previous: None, next: None, last: None, found_focus: false }
    }
}

/// Enabled, clickable items that arrow keys can move to.
pub open spec fn navigable_item(g: Grouping) -> spec_fn(Element) -> bool {
    |e: Element| e.accessibility.role == item_role(g) && e.focusable && e.clickable && !e.accessibility.disabled
}

/// Records one navigable item: the first item ever, the item after the focused one, the focus
/// itself, the last item before it, and the last item overall.
pub open spec fn neighbor_step(n: GroupNeighbors, id: ElementId, focused: ElementId) -> GroupNeighbors {
    let n1 = GroupNeighbors { first: if n.first is Some { n.first } else { Some(id) }, ..n };
    let n2 = if n1.found_focus && n1.next is None {
        GroupNeighbors { next: Some(id), ..n1 }
    } else if id == focused {
        GroupNeighbors { found_focus: true, ..n1 }
    } else if !n1.found_focus {
        GroupNeighbors { previous: Some(id), ..n1 }
    } else {
        n1
    };
    GroupNeighbors { last: Some(id), ..n2 }
}

/// `neighbor_step` applied to the navigable items of `s`, in order.
pub open spec fn neighbor_fold(n: GroupNeighbors, s: Seq<Element>, g: Grouping, focused: ElementId) -> GroupNeighbors
    decreases s.len(),
{
    if s.len() == 0 {
        n
    } else {
        let m = neighbor_fold(n, s.drop_last(), g, focused);
        if navigable_item(g)(s.last()) { neighbor_step(m, s.last().runtime_id, focused) } else { m }
    }
}

proof fn lemma_neighbor_fold_concat(n: GroupNeighbors, a: Seq<Element>, b: Seq<Element>, g: Grouping, focused: ElementId)
    ensures
        neighbor_fold(n, a + b, g, focused) == neighbor_fold(neighbor_fold(n, a, g, focused), b, g, focused),
    decreases b.len(),
{
    if b.len() == 0 {
        assert(a + b == a);
    } else {
        lemma_neighbor_fold_concat(n, a, b.drop_last(), g, focused);
        assert((a + b).drop_last() == a + b.drop_last());
        assert((a + b).last() == b.last());
    }
}

proof fn lemma_neighbor_fold_single(n: GroupNeighbors, e: Element, g: Grouping, focused: ElementId)
    ensures
        neighbor_fold(n, seq![e], g, focused) == (if navigable_item(g)(e) { neighbor_step(n, e.runtime_id, focused) } else { n }),
{
    assert(seq![e].drop_last() == Seq::<Element>::empty());
    assert(seq![e].last() == e);
    assert(neighbor_fold(n, Seq::<Element>::empty(), g, focused) == n);
}

fn collect_group_neighbors(
    element: &Element,
    g: Grouping,
    group_id: ElementId,
    focused: ElementId,
    neighbors: &mut GroupNeighbors,
)
    ensures
        *final(neighbors) == neighbor_fold(*old(neighbors), preorder(*element, keep_group_scope(g, group_id)), g, focused),
    decreases element,
{
    let ghost keep = keep_group_scope(g, group_id);
    if element.display_none || element.visibility_hidden
        || (element.runtime_id != group_id && element.accessibility.role == group_role_of(g)) {
        return;
    }
    if element.accessibility.role == item_role_of(g) && element.focusable && element.clickable
        && !element.accessibility.disabled {
        let id = element.runtime_id;
        if neighbors.first.is_none() {
            neighbors.first = Some(id);
        }
        if neighbors.found_focus && neighbors.next.is_none() {
            neighbors.next = Some(id);
        } else if id == focused {
            neighbors.found_focus = true;
        } else if !neighbors.found_focus {
            neighbors.previous = Some(id);
        }
        neighbors.last = Some(id);
    }
    proof {
        lemma_forest_zero(*element, keep);
        assert(seq![*element] + forest(*element, 0, keep) == seq![*element]);
        lemma_neighbor_fold_single(*old(neighbors), *element, g, focused);
    }
    let mut i: usize = 0;
    while i < element.children.len()
        invariant
            i <= element.children.len(),
            keep == keep_group_scope(g, group_id),
            *neighbors == neighbor_fold(*old(neighbors), seq![*element] + forest(*element, i as int, keep), g, focused),
        decreases element.children.len() - i,
    {
        let ghost prev = seq![*element] + forest(*element, i as int, keep);
        let ghost sub = preorder(element.children[i as int], keep);
        collect_group_neighbors(&element.children[i], g, group_id, focused, neighbors);
        proof {
            assert(forest(*element, i + 1, keep) == forest(*element, i as int, keep) + sub);
            assert(prev + sub == seq![*element] + forest(*element, i + 1, keep));
            lemma_neighbor_fold_concat(*old(neighbors), prev, sub, g, focused);
        }
        i += 1;
    }
    assert(preorder(*element, keep) == seq![*element] + forest(*element, element.children.len() as int, keep));
}

/// Records the enabled tabs of the tab list `list_id` (not those of nested lists) around `focused`.
pub fn collect_tab_neighbors(element: &Element, list_id: ElementId, focused: ElementId, neighbors: &mut GroupNeighbors)
    ensures
        *final(neighbors) == neighbor_fold(*old(neighbors), preorder(*element, keep_group_scope(Grouping::Tabs, list_id)),
            Grouping::Tabs, focused),
{
    collect_group_neighbors(element, Grouping::Tabs, list_id, focused, neighbors)
}

/// Records the enabled radios of the radio group `group_id` (not those of nested groups) around
/// `focused`.
pub fn collect_radio_neighbors(element: &Element, group_id: ElementId, focused: ElementId, neighbors: &mut GroupNeighbors)
    ensures
        *final(neighbors) == neighbor_fold(*old(neighbors), preorder(*element, keep_group_scope(Grouping::Radios, group_id)),
            Grouping::Radios, focused),
{
    collect_group_neighbors(element, Grouping::Radios, group_id, focused, neighbors)
}

/// The tab stop of the tab list around a focused tab; nothing when the focus is not a tab.
pub open spec fn spec_tab_stop_for_focused_tab(root: Element, focused: ElementId) -> Option<ElementId> {
    match first_match(preorder(root, keep_all()), has_id(focused)) {
        None => None,
        Some(f) => if f.accessibility.role != AccessibilityRole::Tab {
            None
        } else {
            match first_match(postorder(root, keep_shown()), group_containing(Grouping::Tabs, focused)) {
                None => None,
                Some(list) => spec_group_tab_stop(Grouping::Tabs, list),
            }
        },
    }
}

/// Resolves the tab stop that stands for a focused tab in the tab order.
pub fn tab_stop_for_focused_tab(root: &Element, focused: ElementId) -> (stop: Option<ElementId>)
    ensures
        stop == spec_tab_stop_for_focused_tab(*root, focused),
{
    let focused_element = match find_element(root, focused) {
        Some(e) => e,
        None => return None,
    };
    if focused_element.accessibility.role != AccessibilityRole::Tab {
        return None;
    }
    match tab_list_for_focused(root, focused) {
        Some(list) => tab_list_tab_stop(list),
        None => None,
    }
}


/// Enabled items of a group that can hold its tab stop (focusable, not removed from the tab order).
pub open spec fn tab_stop_item(g: Grouping, e: Element) -> bool {
    e.accessibility.role == item_role(g) && e.focusable && !e.accessibility.disabled && e.tab_index >= 0
}

/// A group's tab stop is its chosen item when it has one: when the group (in document order,
/// outside nested groups of its kind) holds an enabled item that is checked (for tabs: selected),
/// the tab stop is the first such item, whichever unchosen items come before it.
pub proof fn lemma_tab_stop_is_the_first_chosen_item(g: Grouping, group: Element, k: int)
    requires
        ({
            let s = preorder(group, keep_group_scope(g, group.runtime_id));
            &&& 0 <= k < s.len()
            &&& tab_stop_item(g, s[k]) && item_chosen(g, s[k])
            &&& forall|j: int| 0 <= j < k ==> !(tab_stop_item(g, #[trigger] s[j]) && item_chosen(g, s[j]))
        }),
    ensures
        spec_group_tab_stop(g, group) == Some(preorder(group, keep_group_scope(g, group.runtime_id))[k].runtime_id),
{
    let s = preorder(group, keep_group_scope(g, group.runtime_id));
    assert(first_match_at(s, chosen_stop_candidate(g), k));
    lemma_first_match_is(s, chosen_stop_candidate(g), k);
}

/// Only when no item of the group is chosen is its tab stop the first enabled item in document
/// order; a group without enabled items has no tab stop.
pub proof fn lemma_tab_stop_without_chosen_item(g: Grouping, group: Element, k: int)
    requires
        ({
            let s = preorder(group, keep_group_scope(g, group.runtime_id));
            &&& forall|j: int| 0 <= j < s.len() ==> !(tab_stop_item(g, #[trigger] s[j]) && item_chosen(g, s[j]))
            &&& (0 <= k < s.len() ==> tab_stop_item(g, s[k])
                && forall|j: int| 0 <= j < k ==> !tab_stop_item(g, #[trigger] s[j]))
            &&& (k < 0 ==> forall|j: int| 0 <= j < s.len() ==> !tab_stop_item(g, #[trigger] s[j]))
            &&& k < s.len()
        }),
    ensures
        k >= 0 ==> spec_group_tab_stop(g, group) == Some(preorder(group, keep_group_scope(g, group.runtime_id))[k].runtime_id),
        k < 0 ==> spec_group_tab_stop(g, group) is None,
{
    let s = preorder(group, keep_group_scope(g, group.runtime_id));
    assert(no_match(s, chosen_stop_candidate(g)));
    lemma_first_match_none(s, chosen_stop_candidate(g));
    if k >= 0 {
        assert(first_match_at(s, stop_candidate(g), k));
        lemma_first_match_is(s, stop_candidate(g), k);
    } else {
        assert(no_match(s, stop_candidate(g)));
        lemma_first_match_none(s, stop_candidate(g));
    }
}


/// The ids of the arrow-key navigable items of `s`, in order.
pub open spec fn navigable_ids(s: Seq<Element>, g: Grouping) -> Seq<ElementId>
    decreases s.len(),
{
    if s.len() == 0 {
        Seq::empty()
    } else {
        let rest = navigable_ids(s.drop_last(), g);
        if navigable_item(g)(s.last()) { rest.push(s.last().runtime_id) } else { rest }
    }
}

/// `p` is the first position of `f` in `ids`.
pub open spec fn first_position_at(ids: Seq<ElementId>, f: ElementId, p: int) -> bool {
    &&& 0 <= p < ids.len()
    &&& ids[p] == f
    &&& forall|j: int| 0 <= j < p ==> ids[j] != f
}

/// `n` records, for the items `ids` and the focus `f`: the first and last item, whether the focus
/// is an item, and the items just before and just after the focus (before it: the last item).
pub open spec fn neighbors_of(n: GroupNeighbors, ids: Seq<ElementId>, f: ElementId) -> bool {
    &&& n.first == (if ids.len() > 0 { Some(ids[0]) } else { None::<ElementId> })
    &&& n.last == (if ids.len() > 0 { Some(ids[ids.len() - 1]) } else { None::<ElementId> })
    &&& n.found_focus == ids.contains(f)
    &&& !ids.contains(f) ==> n.previous == n.last && n.next is None
    &&& forall|p: int| #[trigger] first_position_at(ids, f, p) ==> {
        &&& n.previous == (if p > 0 { Some(ids[p - 1]) } else { None::<ElementId> })
        &&& n.next == (if p + 1 < ids.len() { Some(ids[p + 1]) } else { None::<ElementId> })
    }
}

proof fn lemma_first_position_unique(ids: Seq<ElementId>, f: ElementId, p: int, q: int)
    requires
        first_position_at(ids, f, p),
        first_position_at(ids, f, q),
    ensures
        p == q,
{
    if p < q {
        assert(ids[p] != f);
    } else if q < p {
        assert(ids[q] != f);
    }
}

/// Folding the navigable items of `s` from no neighbours records their neighbours of the focus.
pub proof fn lemma_neighbor_fold_records_neighbors(s: Seq<Element>, g: Grouping, f: ElementId)
    ensures
        neighbors_of(
            neighbor_fold(GroupNeighbors { first: None, previous: None, next: None, last: None, found_focus: false }, s, g, f),
            navigable_ids(s, g),
            f,
        ),
    decreases s.len(),
{
    let n0 = GroupNeighbors { first: None, previous: None, next: None, last: None, found_focus: false };
    if s.len() == 0 {
        assert(!navigable_ids(s, g).contains(f));
    } else {
        let t = s.drop_last();
        lemma_neighbor_fold_records_neighbors(t, g, f);
        let m = neighbor_fold(n0, t, g, f);
        let l = navigable_ids(t, g);
        if navigable_item(g)(s.last()) {
            let x = s.last().runtime_id;
            let l2 = l.push(x);
            let n = neighbor_step(m, x, f);
            assert(navigable_ids(s, g) == l2);
            assert(neighbor_fold(n0, s, g, f) == n);
            assert(l2[l2.len() - 1] == x);
            if l.len() > 0 {
                assert(l2[0] == l[0]);
            }
            if l.contains(f) {
                let p = choose|i: int| 0 <= i < l.len() && l[i] == f;
                lemma_first_occurrence(l, f, p);
                let q = choose|q: int| first_position_at(l, f, q);
                assert(first_position_at(l2, f, q)) by {
                    assert(l2[q] == l[q]);
                    assert forall|j: int| 0 <= j < q implies l2[j] != f by {
                        assert(l2[j] == l[j]);
                    }
                }
                assert(l2.contains(f)) by { assert(l2[q] == f); }
                assert forall|r: int| #[trigger] first_position_at(l2, f, r) implies {
                    &&& n.previous == (if r > 0 { Some(l2[r - 1]) } else { None::<ElementId> })
                    &&& n.next == (if r + 1 < l2.len() { Some(l2[r + 1]) } else { None::<ElementId> })
                } by {
                    lemma_first_position_unique(l2, f, q, r);
                    assert(first_position_at(l, f, q));
                    if q > 0 {
                        assert(l2[q - 1] == l[q - 1]);
                    }
                    if q + 1 < l.len() {
                        assert(l2[q + 1] == l[q + 1]);
                    }
                }
            } else {
                if x == f {
                    let q = l.len() as int;
                    assert(first_position_at(l2, f, q)) by {
                        assert forall|j: int| 0 <= j < q implies l2[j] != f by {
                            assert(l2[j] == l[j]);
                            assert(!l.contains(f));
                        }
                    }
                    assert(l2.contains(f));
                    assert forall|r: int| #[trigger] first_position_at(l2, f, r) implies {
                        &&& n.previous == (if r > 0 { Some(l2[r - 1]) } else { None::<ElementId> })
                        &&& n.next == (if r + 1 < l2.len() { Some(l2[r + 1]) } else { None::<ElementId> })
                    } by {
                        lemma_first_position_unique(l2, f, q, r);
                        if q > 0 {
                            assert(l2[q - 1] == l[q - 1]);
                        }
                    }
                } else {
                    assert(!l2.contains(f)) by {
                        if l2.contains(f) {
                            let i = choose|i: int| 0 <= i < l2.len() && l2[i] == f;
                            assert(i < l.len());
                            assert(l[i] == f);
                        }
                    }
                    assert forall|r: int| #[trigger] first_position_at(l2, f, r) implies false by {
                        assert(l2[r] == f);
                    }
                }
            }
        } else {
            assert(navigable_ids(s, g) == l);
            assert(neighbor_fold(n0, s, g, f) == m);
        }
    }
}

proof fn lemma_first_occurrence(ids: Seq<ElementId>, f: ElementId, i: int)
    requires
        0 <= i < ids.len(),
        ids[i] == f,
    ensures
        exists|q: int| first_position_at(ids, f, q),
    decreases i,
{
    if exists|j: int| 0 <= j < i && ids[j] == f {
        let j = choose|j: int| 0 <= j < i && ids[j] == f;
        lemma_first_occurrence(ids, f, j);
    } else {
        assert(first_position_at(ids, f, i));
    }
}

} // verus!
