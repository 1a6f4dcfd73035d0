use vstd::prelude::*;
use vstd::relations::sorted_by;
use std::collections::HashSet;
use crate::element::{AccessibilityRole, Element, ElementId, is_shown};
use crate::focus::{Grouping, spec_group_tab_stop, radio_group_tab_stop, tab_list_tab_stop};

verus! {

broadcast use {vstd::std_specs::vec::group_vec_axioms, vstd::std_specs::hash::group_hash_axioms};

/// What an element inherits from its ancestors when the tab order is collected.
#[derive(Clone, Copy, Debug, PartialEq, Eq, Structural)]
pub struct FocusContext {
    pub inside_radio_group: bool,
    pub radio_tab_stop: Option<ElementId>,
    pub inside_tab_list: bool,
    pub tab_stop: Option<ElementId>,
    pub inside_active_focus_trap: bool,
}

/// One tab-order candidate; `order` is its position among the candidates in document order.
#[derive(Clone, Copy, Debug, PartialEq, Eq, Structural)]
pub struct FocusCandidate {
    pub id: ElementId,
    pub tab_index: i16,
    pub order: usize,
}

/// The context an element is visited with once the focus trap is taken into account.
pub open spec fn context_here(e: Element, ctx: FocusContext, active_trap: Option<ElementId>) -> FocusContext {
    FocusContext {
        inside_active_focus_trap: ctx.inside_active_focus_trap || active_trap is None
            || active_trap == Some(e.runtime_id),
        ..ctx
    }
}

/// The context an element passes to its children: entering a radio group or tab list makes that
/// group's single tab stop the one that counts.
pub open spec fn context_for_children(e: Element, ctx: FocusContext, active_trap: Option<ElementId>) -> FocusContext {
    let here = context_here(e, ctx, active_trap);
    FocusContext {
        inside_radio_group: if e.accessibility.role == AccessibilityRole::RadioGroup { true } else { here.inside_radio_group },
        radio_tab_stop: if e.accessibility.role == AccessibilityRole::RadioGroup {
            spec_group_tab_stop(Grouping::Radios, e)
        } else {
            here.radio_tab_stop
        },
        inside_tab_list: if e.accessibility.role == AccessibilityRole::TabList { true } else { here.inside_tab_list },
        tab_stop: if e.accessibility.role == AccessibilityRole::TabList {
            spec_group_tab_stop(Grouping::Tabs, e)
        } else {
            here.tab_stop
        },
        inside_active_focus_trap: here.inside_active_focus_trap,
    }
}

/// Every shown element of the subtree in document order, with the context it is visited in.
pub open spec fn focus_entries(e: Element, ctx: FocusContext, active_trap: Option<ElementId>) -> Seq<(Element, FocusContext)>
    decreases e, e.children.len() + 1,
{
    if !is_shown(e) {
        Seq::empty()
    } else {
        seq![(e, context_here(e, ctx, active_trap))]
            + focus_forest(e, e.children.len() as int, context_for_children(e, ctx, active_trap), active_trap)
    }
}

pub open spec fn focus_forest(e: Element, n: int, ctx: FocusContext, active_trap: Option<ElementId>) -> Seq<(Element, FocusContext)>
    decreases e, n,
{
    if n <= 0 || n > e.children.len() {
        Seq::empty()
    } else {
        focus_forest(e, n - 1, ctx, active_trap) + focus_entries(e.children[n - 1], ctx, active_trap)
    }
}

/// An enabled focusable element inside the active focus trap (if any) takes focus.
pub open spec fn takes_focus(entry: (Element, FocusContext)) -> bool {
    entry.1.inside_active_focus_trap && entry.0.focusable && !entry.0.accessibility.disabled
}

/// A focusable element is a tab stop unless its tab index is negative or it is a radio button
/// (tab) that is not its group's (list's) single tab stop.
pub open spec fn is_tab_candidate(entry: (Element, FocusContext)) -> bool {
    let e = entry.0;
    let ctx = entry.1;
    &&& takes_focus(entry)
    &&& e.tab_index >= 0
    &&& (e.accessibility.role != AccessibilityRole::RadioButton || !ctx.inside_radio_group
        || ctx.radio_tab_stop == Some(e.runtime_id))
    &&& (e.accessibility.role != AccessibilityRole::Tab || !ctx.inside_tab_list || ctx.tab_stop == Some(e.runtime_id))
}

pub open spec fn is_enabled_clickable(entry: (Element, FocusContext)) -> bool {
    entry.0.clickable && !entry.0.accessibility.disabled
}

/// The ids of the entries that satisfy `pred`.
pub open spec fn entry_ids(s: Seq<(Element, FocusContext)>, pred: spec_fn((Element, FocusContext)) -> bool) -> Set<ElementId> {
    Set::new(|id: ElementId| exists|i: int| 0 <= i < s.len() && pred(#[trigger] s[i]) && s[i].0.runtime_id == id)
}

/// The tab-order candidates of `s` in order, numbered from `base`.
pub open spec fn candidate_list(s: Seq<(Element, FocusContext)>, base: int) -> Seq<FocusCandidate>
    decreases s.len(),
{
    if s.len() == 0 {
        Seq::empty()
    } else {
        let rest = candidate_list(s.drop_last(), base);
        if is_tab_candidate(s.last()) {
            rest.push(FocusCandidate {
                id: s.last().0.runtime_id,
                tab_index: s.last().0.tab_index,
                order: (base + rest.len()) as usize,
            })
        } else {
            rest
        }
    }
}

proof fn lemma_entry_ids_concat(a: Seq<(Element, FocusContext)>, b: Seq<(Element, FocusContext)>, pred: spec_fn((Element, FocusContext)) -> bool)
    ensures
        entry_ids(a + b, pred) == entry_ids(a, pred).union(entry_ids(b, pred)),
{
    assert forall|id: ElementId| entry_ids(a + b, pred).contains(id) implies entry_ids(a, pred).union(entry_ids(b, pred)).contains(id) by {
        let i = choose|i: int| 0 <= i < (a + b).len() && pred(#[trigger] (a + b)[i]) && (a + b)[i].0.runtime_id == id;
        if i < a.len() {
            assert((a + b)[i] == a[i]);
        } else {
            assert((a + b)[i] == b[i - a.len()]);
        }
    }
    assert forall|id: ElementId| entry_ids(a, pred).union(entry_ids(b, pred)).contains(id) implies entry_ids(a + b, pred).contains(id) by {
        if entry_ids(a, pred).contains(id) {
            let i = choose|i: int| 0 <= i < a.len() && pred(#[trigger] a[i]) && a[i].0.runtime_id == id;
            assert((a + b)[i] == a[i]);
        } else {
            let i = choose|i: int| 0 <= i < b.len() && pred(#[trigger] b[i]) && b[i].0.runtime_id == id;
            assert((a + b)[a.len() + i] == b[i]);
        }
    }
    assert(entry_ids(a + b, pred) =~= entry_ids(a, pred).union(entry_ids(b, pred)));
}

proof fn lemma_entry_ids_single(x: (Element, FocusContext), pred: spec_fn((Element, FocusContext)) -> bool)
    ensures
        entry_ids(seq![x], pred) == (if pred(x) { set![x.0.runtime_id] } else { Set::<ElementId>::empty() }),
{
    assert(seq![x][0] == x);
    if pred(x) {
        assert(entry_ids(seq![x], pred) =~= set![x.0.runtime_id]);
    } else {
        assert(entry_ids(seq![x], pred) =~= Set::<ElementId>::empty());
    }
}

proof fn lemma_candidate_list_concat(a: Seq<(Element, FocusContext)>, b: Seq<(Element, FocusContext)>, base: int)
    ensures
        candidate_list(a + b, base) == candidate_list(a, base) + candidate_list(b, base + candidate_list(a, base).len()),
    decreases b.len(),
{
    if b.len() == 0 {
        assert(a + b == a);
        assert(candidate_list(a, base) + candidate_list(b, base + candidate_list(a, base).len()) == candidate_list(a, base));
    } else {
        lemma_candidate_list_concat(a, b.drop_last(), base);
        assert((a + b).drop_last() == a + b.drop_last());
        assert((a + b).last() == b.last());
        let ra = candidate_list(a, base);
        let rb = candidate_list(b.drop_last(), base + ra.len());
        if is_tab_candidate(b.last()) {
            assert((ra + rb).push(FocusCandidate {
                id: b.last().0.runtime_id,
                tab_index: b.last().0.tab_index,
                order: (base + (ra + rb).len()) as usize,
            }) == ra + rb.push(FocusCandidate {
                id: b.last().0.runtime_id,
                tab_index: b.last().0.tab_index,
                order: (base + ra.len() + rb.len()) as usize,
            }));
        }
    }
}

proof fn lemma_candidate_list_single(x: (Element, FocusContext), base: int)
    ensures
        candidate_list(seq![x], base) == (if is_tab_candidate(x) {
            seq![FocusCandidate { id: x.0.runtime_id, tab_index: x.0.tab_index, order: base as usize }]
        } else {
            Seq::<FocusCandidate>::empty()
        }),
{
    assert(seq![x].drop_last() == Seq::<(Element, FocusContext)>::empty());
    assert(seq![x].last() == x);
    assert(candidate_list(Seq::<(Element, FocusContext)>::empty(), base) == Seq::<FocusCandidate>::empty());
}

pub open spec fn takes_focus_pred() -> spec_fn((Element, FocusContext)) -> bool {
    |x: (Element, FocusContext)| takes_focus(x)
}

pub open spec fn clickable_pred() -> spec_fn((Element, FocusContext)) -> bool {
    |x: (Element, FocusContext)| is_enabled_clickable(x)
}

/// Collects, for the shown subtree in document order, the elements that take focus, the enabled
/// clickable elements, and the tab-order candidates (numbered after those already collected).
pub fn collect_focus_candidates(
    element: &Element,
    focusable_ids: &mut HashSet<ElementId>,
    clickable_ids: &mut HashSet<ElementId>,
    candidates: &mut Vec<FocusCandidate>,
    active_trap: Option<ElementId>,
    inside_radio_group: bool,
    radio_tab_stop: Option<ElementId>,
    inside_tab_list: bool,
    tab_stop: Option<ElementId>,
    inside_active_focus_trap: bool,
)
    ensures
        ({
            let ctx = FocusContext { inside_radio_group, radio_tab_stop, inside_tab_list, tab_stop, inside_active_focus_trap };
            let entries = focus_entries(*element, ctx, active_trap);
            &&& final(focusable_ids)@ == old(focusable_ids)@.union(entry_ids(entries, takes_focus_pred()))
            &&& final(clickable_ids)@ == old(clickable_ids)@.union(entry_ids(entries, clickable_pred()))
            &&& final(candidates)@ == old(candidates)@ + candidate_list(entries, old(candidates)@.len() as int)
        }),
    decreases element,
{
    let ghost ctx = FocusContext { inside_radio_group, radio_tab_stop, inside_tab_list, tab_stop, inside_active_focus_trap };
    if element.display_none || element.visibility_hidden {
        proof {
            assert(entry_ids(Seq::<(Element, FocusContext)>::empty(), takes_focus_pred()) =~= Set::<ElementId>::empty());
            assert(entry_ids(Seq::<(Element, FocusContext)>::empty(), clickable_pred()) =~= Set::<ElementId>::empty());
            assert(focusable_ids@ =~= old(focusable_ids)@.union(Set::<ElementId>::empty()));
            assert(clickable_ids@ =~= old(clickable_ids)@.union(Set::<ElementId>::empty()));
            assert(candidates@ =~= old(candidates)@ + Seq::<FocusCandidate>::empty());
        }
        return;
    }
    let id = element.runtime_id;
    let inside_active_focus_trap = inside_active_focus_trap || active_trap.is_none() || active_trap == Some(id);
    let ghost here = context_here(*element, ctx, active_trap);
    let ghost head = seq![(*element, here)];
    if inside_active_focus_trap && element.focusable && !element.accessibility.disabled {
        focusable_ids.insert(id);
        let radio_is_tab_stop = element.accessibility.role != AccessibilityRole::RadioButton || !inside_radio_group
            || radio_tab_stop == Some(id);
        let tab_is_tab_stop = element.accessibility.role != AccessibilityRole::Tab || !inside_tab_list
            || tab_stop == Some(id);
        if element.tab_index >= 0 && radio_is_tab_stop && tab_is_tab_stop {
            let order = candidates.len();
            candidates.push(FocusCandidate { id, tab_index: element.tab_index, order });
        }
    }
    if element.clickable && !element.accessibility.disabled {
        clickable_ids.insert(id);
    }
    let (child_radio, child_radio_stop) = if element.accessibility.role == AccessibilityRole::RadioGroup {
        (true, radio_group_tab_stop(element))
    } else {
        (inside_radio_group, radio_tab_stop)
    };
    let (child_tabs, child_tab_stop) = if element.accessibility.role == AccessibilityRole::TabList {
        (true, tab_list_tab_stop(element))
    } else {
        (inside_tab_list, tab_stop)
    };
    let ghost child_ctx = context_for_children(*element, ctx, active_trap);
    assert(child_ctx == FocusContext {
        inside_radio_group: child_radio,
        radio_tab_stop: child_radio_stop,
        inside_tab_list: child_tabs,
        tab_stop: child_tab_stop,
        inside_active_focus_trap,
    });
    proof {
        lemma_entry_ids_single((*element, here), takes_focus_pred());
        lemma_entry_ids_single((*element, here), clickable_pred());
        lemma_candidate_list_single((*element, here), old(candidates)@.len() as int);
        assert(focus_forest(*element, 0, child_ctx, active_trap) == Seq::<(Element, FocusContext)>::empty());
        assert(head + focus_forest(*element, 0, child_ctx, active_trap) == head);
        assert(focusable_ids@ =~= old(focusable_ids)@.union(entry_ids(head, takes_focus_pred())));
        assert(clickable_ids@ =~= old(clickable_ids)@.union(entry_ids(head, clickable_pred())));
        assert(candidates@ =~= old(candidates)@ + candidate_list(head, old(candidates)@.len() as int));
    }
    let mut i: usize = 0;
    while i < element.children.len()
        invariant
            i <= element.children.len(),
            child_ctx == (FocusContext {
                inside_radio_group: child_radio,
                radio_tab_stop: child_radio_stop,
                inside_tab_list: child_tabs,
                tab_stop: child_tab_stop,
                inside_active_focus_trap,
            }),
            focusable_ids@ == old(focusable_ids)@.union(entry_ids(head + focus_forest(*element, i as int, child_ctx, active_trap), takes_focus_pred())),
            clickable_ids@ == old(clickable_ids)@.union(entry_ids(head + focus_forest(*element, i as int, child_ctx, active_trap), clickable_pred())),
            candidates@ == old(candidates)@ + candidate_list(head + focus_forest(*element, i as int, child_ctx, active_trap), old(candidates)@.len() as int),
        decreases element.children.len() - i,
    {
        let ghost prev = head + focus_forest(*element, i as int, child_ctx, active_trap);
        let ghost sub = focus_entries(element.children[i as int], child_ctx, active_trap);
        let ghost before = candidates@;
        collect_focus_candidates(&element.children[i], focusable_ids, clickable_ids, candidates, active_trap,
            child_radio, child_radio_stop, child_tabs, child_tab_stop, inside_active_focus_trap);
        proof {
            assert(focus_forest(*element, i + 1, child_ctx, active_trap) == focus_forest(*element, i as int, child_ctx, active_trap) + sub);
            assert(prev + sub == head + focus_forest(*element, i + 1, child_ctx, active_trap));
            lemma_entry_ids_concat(prev, sub, takes_focus_pred());
            lemma_entry_ids_concat(prev, sub, clickable_pred());
            lemma_candidate_list_concat(prev, sub, old(candidates)@.len() as int);
            assert(focusable_ids@ =~= old(focusable_ids)@.union(entry_ids(prev + sub, takes_focus_pred())));
            assert(clickable_ids@ =~= old(clickable_ids)@.union(entry_ids(prev + sub, clickable_pred())));
            assert(candidates@ =~= old(candidates)@ + candidate_list(prev + sub, old(candidates)@.len() as int));
        }
        i += 1;
    }
    assert(focus_entries(*element, ctx, active_trap) == head + focus_forest(*element, element.children.len() as int, child_ctx, active_trap));
}

/// Tab order: elements with a positive tab index first, by increasing tab index; then the
/// others; document order breaks ties.
pub open spec fn focus_key_le(a: FocusCandidate, b: FocusCandidate) -> bool {
    let group_a: int = if a.tab_index > 0 { 0 } else { 1 };
    let group_b: int = if b.tab_index > 0 { 0 } else { 1 };
    let index_a: int = if a.tab_index > 0 { a.tab_index as int } else { 0 };
    let index_b: int = if b.tab_index > 0 { b.tab_index as int } else { 0 };
    group_a < group_b || (group_a == group_b && (index_a < index_b || (index_a == index_b && a.order <= b.order)))
}

pub open spec fn focus_key_order() -> spec_fn(FocusCandidate, FocusCandidate) -> bool {
    |a: FocusCandidate, b: FocusCandidate| focus_key_le(a, b)
}

fn focus_key_le_exec(a: FocusCandidate, b: FocusCandidate) -> (le: bool)
    ensures
        le == focus_key_le(a, b),
{
    let group_a: u8 = if a.tab_index > 0 { 0 } else { 1 };
    let group_b: u8 = if b.tab_index > 0 { 0 } else { 1 };
    let index_a: i16 = if a.tab_index > 0 { a.tab_index } else { 0 };
    let index_b: i16 = if b.tab_index > 0 { b.tab_index } else { 0 };
    group_a < group_b || (group_a == group_b && (index_a < index_b || (index_a == index_b && a.order <= b.order)))
}

/// Sorts the tab-order candidates by tab order, keeping document order among equals.
pub fn sort_focus_candidates(candidates: &Vec<FocusCandidate>) -> (sorted: Vec<FocusCandidate>)
    ensures
        sorted_by(sorted@, focus_key_order()),
        sorted@.to_multiset() == candidates@.to_multiset(),
{
    broadcast use vstd::seq_lib::group_to_multiset_ensures;
    let mut sorted: Vec<FocusCandidate> = Vec::new();
    let mut i: usize = 0;
    while i < candidates.len()
        invariant
            i <= candidates.len(),
            sorted_by(sorted@, focus_key_order()),
            sorted@.to_multiset() == candidates@.take(i as int).to_multiset(),
        decreases candidates.len() - i,
    {
        let c = candidates[i];
        let mut j = sorted.len();
        while j > 0 && !focus_key_le_exec(sorted[j - 1], c)
            invariant
                j <= sorted.len(),
                sorted_by(sorted@, focus_key_order()),
                forall|k: int| j <= k < sorted.len() ==> !focus_key_le(#[trigger] sorted@[k], c),
            decreases j,
        {
            j -= 1;
        }
        let ghost before = sorted@;
        sorted.insert(j, c);
        proof {
            assert forall|a: int, b: int| 0 <= a < b < sorted@.len() implies #[trigger] focus_key_order()(sorted@[a], sorted@[b]) by {
                if a < j && b < j {
                    assert(focus_key_order()(before[a], before[b]));
                } else if a < j && b == j {
                    if a < j - 1 {
                        assert(focus_key_order()(before[a], before[j - 1]));
                    }
                } else if a < j && b > j {
                    assert(focus_key_order()(before[a], before[b - 1]));
                } else if a == j {
                    assert(!focus_key_le(before[b - 1], c));
                } else {
                    assert(focus_key_order()(before[a - 1], before[b - 1]));
                }
            }
            assert(candidates@.take(i + 1) == candidates@.take(i as int).push(c));
            vstd::seq_lib::to_multiset_insert(before, j as int, c);
            vstd::seq_lib::to_multiset_build(candidates@.take(i as int), c);
            assert(sorted@ == before.insert(j as int, c));
        }
        i += 1;
    }
    assert(candidates@.take(candidates.len() as int) == candidates@);
    sorted
}

} // verus!
