use vstd::prelude::*;
use std::collections::{HashMap, HashSet};
use crate::element::{Element, ElementId, is_shown};
use crate::listeners::{ActionListenerBinding, KeyListenerBinding, ListenerIndex, MouseListenerBinding, record_listeners};

verus! {

broadcast use {vstd::std_specs::vec::group_vec_axioms, vstd::std_specs::hash::group_hash_axioms};

/// Every shown element of the subtree in document order, with its parent (none for the root of
/// the walk).
pub open spec fn dispatch_entries(e: Element, parent: Option<ElementId>) -> Seq<(Element, Option<ElementId>)>
    decreases e, e.children.len() + 1,
{
    if !is_shown(e) {
        Seq::empty()
    } else {
        seq![(e, parent)] + dispatch_forest(e, e.children.len() as int)
    }
}

pub open spec fn dispatch_forest(e: Element, n: int) -> Seq<(Element, Option<ElementId>)>
    decreases e, n,
{
    if n <= 0 || n > e.children.len() {
        Seq::empty()
    } else {
        dispatch_forest(e, n - 1) + dispatch_entries(e.children[n - 1], Some(e.runtime_id))
    }
}

/// The parent of each element of `s` (a later entry overwrites an earlier one with its id).
pub open spec fn parent_map(m: Map<ElementId, ElementId>, s: Seq<(Element, Option<ElementId>)>) -> Map<ElementId, ElementId>
    decreases s.len(),
{
    if s.len() == 0 {
        m
    } else {
        let prev = parent_map(m, s.drop_last());
        match s.last().1 {
            Some(p) => prev.insert(s.last().0.runtime_id, p),
            None => prev,
        }
    }
}

/// The activation target of each enabled element of `s` that names one other than itself.
pub open spec fn activation_map(m: Map<ElementId, ElementId>, s: Seq<(Element, Option<ElementId>)>) -> Map<ElementId, ElementId>
    decreases s.len(),
{
    if s.len() == 0 {
        m
    } else {
        let prev = activation_map(m, s.drop_last());
        let e = s.last().0;
        match e.activation_target {
            Some(t) => if !e.accessibility.disabled && t != e.runtime_id { prev.insert(e.runtime_id, t) } else { prev },
            None => prev,
        }
    }
}

/// The ids of the elements of `s` that satisfy `pred`.
pub open spec fn entry_match_ids(s: Seq<(Element, Option<ElementId>)>, pred: spec_fn(Element) -> bool) -> Set<ElementId> {
    Set::new(|id: ElementId| exists|i: int| 0 <= i < s.len() && pred(#[trigger] s[i].0) && s[i].0.runtime_id == id)
}

pub open spec fn is_invalid() -> spec_fn(Element) -> bool { |e: Element| e.accessibility.invalid }
pub open spec fn is_form() -> spec_fn(Element) -> bool { |e: Element| e.form }
pub open spec fn is_form_submitter() -> spec_fn(Element) -> bool { |e: Element| e.form_submitter && !e.accessibility.disabled }
pub open spec fn has_context_menu() -> spec_fn(Element) -> bool { |e: Element| e.context_menu_listener && !e.accessibility.disabled }
pub open spec fn has_scroll_wheel() -> spec_fn(Element) -> bool { |e: Element| e.scroll_wheel_listener && !e.accessibility.disabled }
pub open spec fn has_touch() -> spec_fn(Element) -> bool { |e: Element| e.touch_listener && !e.accessibility.disabled }
pub open spec fn has_mouse_pressure() -> spec_fn(Element) -> bool { |e: Element| e.mouse_pressure_listener && !e.accessibility.disabled }
pub open spec fn has_pinch() -> spec_fn(Element) -> bool { |e: Element| e.pinch_listener && !e.accessibility.disabled }
pub open spec fn has_rotation() -> spec_fn(Element) -> bool { |e: Element| e.rotation_listener && !e.accessibility.disabled }
pub open spec fn has_smart_magnify() -> spec_fn(Element) -> bool { |e: Element| e.smart_magnify_listener && !e.accessibility.disabled }

/// What `f` gives for each element of `s`, recorded over `m` (a later entry overwrites an earlier
/// one with its id).
pub open spec fn listener_map<T>(m: Map<ElementId, T>, s: Seq<(Element, Option<ElementId>)>, f: spec_fn(Element) -> Option<T>)
    -> Map<ElementId, T>
    decreases s.len(),
{
    if s.len() == 0 {
        m
    } else {
        let prev = listener_map(m, s.drop_last(), f);
        match f(s.last().0) {
            Some(v) => prev.insert(s.last().0.runtime_id, v),
            None => prev,
        }
    }
}

/// A map of vectors, seen through the vectors' contents.
pub open spec fn vec_values<T>(m: Map<ElementId, Vec<T>>) -> Map<ElementId, Seq<T>> {
    m.map_values(|v: Vec<T>| v@)
}

pub open spec fn enabled_mouse_listeners() -> spec_fn(Element) -> Option<Seq<MouseListenerBinding>> {
    |e: Element| match e.mouse_listeners {
        Some(v) => if e.accessibility.disabled { None } else { Some(v@) },
        None => None,
    }
}

pub open spec fn enabled_key_listeners() -> spec_fn(Element) -> Option<Seq<KeyListenerBinding>> {
    |e: Element| match e.key_listeners {
        Some(v) => if e.accessibility.disabled { None } else { Some(v@) },
        None => None,
    }
}

pub open spec fn enabled_action_listeners() -> spec_fn(Element) -> Option<Seq<ActionListenerBinding>> {
    |e: Element| match e.action_listeners {
        Some(v) => if e.accessibility.disabled { None } else { Some(v@) },
        None => None,
    }
}

pub open spec fn declared_key_context() -> spec_fn(Element) -> Option<String> {
    |e: Element| e.key_context
}

/// The id of an enabled element that declares mouse listeners.
pub open spec fn mouse_listener_owner() -> spec_fn((Element, Option<ElementId>)) -> Option<ElementId> {
    |x: (Element, Option<ElementId>)|
        if x.0.mouse_listeners is Some && !x.0.accessibility.disabled { Some(x.0.runtime_id) } else { None }
}

/// The listeners after recording `s` into `old`.
pub open spec fn listeners_indexed(old: ListenerIndex, new: ListenerIndex, s: Seq<(Element, Option<ElementId>)>) -> bool {
    &&& vec_values(new.mouse@) == listener_map(vec_values(old.mouse@), s, enabled_mouse_listeners())
    &&& new.mouse_elements@ == old.mouse_elements@ + s.filter_map(mouse_listener_owner())
    &&& vec_values(new.key@) == listener_map(vec_values(old.key@), s, enabled_key_listeners())
    &&& vec_values(new.action@) == listener_map(vec_values(old.action@), s, enabled_action_listeners())
    &&& new.key_contexts@ == listener_map(old.key_contexts@, s, declared_key_context())
}

proof fn lemma_listener_map_concat<T>(m: Map<ElementId, T>, a: Seq<(Element, Option<ElementId>)>, b: Seq<(Element, Option<ElementId>)>, f: spec_fn(Element) -> Option<T>)
    ensures
        listener_map(m, a + b, f) == listener_map(listener_map(m, a, f), b, f),
    decreases b.len(),
{
    if b.len() == 0 {
        assert(a + b == a);
    } else {
        lemma_listener_map_concat(m, a, b.drop_last(), f);
        assert((a + b).drop_last() == a + b.drop_last());
        assert((a + b).last() == b.last());
    }
}

proof fn lemma_filter_map_concat<A, B>(a: Seq<A>, b: Seq<A>, f: spec_fn(A) -> Option<B>)
    ensures
        (a + b).filter_map(f) == a.filter_map(f) + b.filter_map(f),
    decreases b.len(),
{
    if b.len() == 0 {
        assert(a + b == a);
        assert(a.filter_map(f) + b.filter_map(f) =~= a.filter_map(f));
    } else {
        lemma_filter_map_concat(a, b.drop_last(), f);
        assert((a + b).drop_last() == a + b.drop_last());
        assert((a + b).last() == b.last());
        match f(b.last()) {
            Some(y) => {
                assert(a.filter_map(f) + b.drop_last().filter_map(f) + seq![y]
                    =~= a.filter_map(f) + (b.drop_last().filter_map(f) + seq![y]));
            },
            None => {},
        }
    }
}

proof fn lemma_listeners_indexed_concat(
    i0: ListenerIndex, i1: ListenerIndex, i2: ListenerIndex,
    a: Seq<(Element, Option<ElementId>)>, b: Seq<(Element, Option<ElementId>)>,
)
    requires
        listeners_indexed(i0, i1, a),
        listeners_indexed(i1, i2, b),
    ensures
        listeners_indexed(i0, i2, a + b),
{
    lemma_listener_map_concat(vec_values(i0.mouse@), a, b, enabled_mouse_listeners());
    lemma_listener_map_concat(vec_values(i0.key@), a, b, enabled_key_listeners());
    lemma_listener_map_concat(vec_values(i0.action@), a, b, enabled_action_listeners());
    lemma_listener_map_concat(i0.key_contexts@, a, b, declared_key_context());
    lemma_filter_map_concat(a, b, mouse_listener_owner());
    assert(i2.mouse_elements@ =~= i0.mouse_elements@ + (a + b).filter_map(mouse_listener_owner()));
}

/// Parent links and per-element event metadata of the shown tree.
pub struct DispatchIndex {
    pub parents: HashMap<ElementId, ElementId>,
    pub activation_targets: HashMap<ElementId, ElementId>,
    pub invalid_ids: HashSet<ElementId>,
    pub form_ids: HashSet<ElementId>,
    pub form_submitter_ids: HashSet<ElementId>,
    pub context_menu_ids: HashSet<ElementId>,
    pub scroll_wheel_ids: HashSet<ElementId>,
    pub touch_ids: HashSet<ElementId>,
    pub mouse_pressure_ids: HashSet<ElementId>,
    pub pinch_ids: HashSet<ElementId>,
    pub rotation_ids: HashSet<ElementId>,
    pub smart_magnify_ids: HashSet<ElementId>,
    pub listeners: ListenerIndex,
}

/// The index's contents after recording `s` into `old`.
pub open spec fn indexed(old: DispatchIndex, new: DispatchIndex, s: Seq<(Element, Option<ElementId>)>) -> bool {
    &&& new.parents@ == parent_map(old.parents@, s)
    &&& new.activation_targets@ == activation_map(old.activation_targets@, s)
    &&& new.invalid_ids@ == old.invalid_ids@.union(entry_match_ids(s, is_invalid()))
    &&& new.form_ids@ == old.form_ids@.union(entry_match_ids(s, is_form()))
    &&& new.form_submitter_ids@ == old.form_submitter_ids@.union(entry_match_ids(s, is_form_submitter()))
    &&& new.context_menu_ids@ == old.context_menu_ids@.union(entry_match_ids(s, has_context_menu()))
    &&& new.scroll_wheel_ids@ == old.scroll_wheel_ids@.union(entry_match_ids(s, has_scroll_wheel()))
    &&& new.touch_ids@ == old.touch_ids@.union(entry_match_ids(s, has_touch()))
    &&& new.mouse_pressure_ids@ == old.mouse_pressure_ids@.union(entry_match_ids(s, has_mouse_pressure()))
    &&& new.pinch_ids@ == old.pinch_ids@.union(entry_match_ids(s, has_pinch()))
    &&& new.rotation_ids@ == old.rotation_ids@.union(entry_match_ids(s, has_rotation()))
    &&& new.smart_magnify_ids@ == old.smart_magnify_ids@.union(entry_match_ids(s, has_smart_magnify()))
    &&& listeners_indexed(old.listeners, new.listeners, s)
}

proof fn lemma_parent_map_concat(m: Map<ElementId, ElementId>, a: Seq<(Element, Option<ElementId>)>, b: Seq<(Element, Option<ElementId>)>)
    ensures
        parent_map(m, a + b) == parent_map(parent_map(m, a), b),
    decreases b.len(),
{
    if b.len() == 0 {
        assert(a + b == a);
    } else {
        lemma_parent_map_concat(m, a, b.drop_last());
        assert((a + b).drop_last() == a + b.drop_last());
        assert((a + b).last() == b.last());
    }
}

proof fn lemma_activation_map_concat(m: Map<ElementId, ElementId>, a: Seq<(Element, Option<ElementId>)>, b: Seq<(Element, Option<ElementId>)>)
    ensures
        activation_map(m, a + b) == activation_map(activation_map(m, a), b),
    decreases b.len(),
{
    if b.len() == 0 {
        assert(a + b == a);
    } else {
        lemma_activation_map_concat(m, a, b.drop_last());
        assert((a + b).drop_last() == a + b.drop_last());
        assert((a + b).last() == b.last());
    }
}

proof fn lemma_entry_match_ids_concat(a: Seq<(Element, Option<ElementId>)>, b: Seq<(Element, Option<ElementId>)>, pred: spec_fn(Element) -> bool)
    ensures
        entry_match_ids(a + b, pred) == entry_match_ids(a, pred).union(entry_match_ids(b, pred)),
{
    assert forall|id: ElementId| entry_match_ids(a + b, pred).contains(id) implies entry_match_ids(a, pred).union(entry_match_ids(b, pred)).contains(id) by {
        let i = choose|i: int| 0 <= i < (a + b).len() && pred(#[trigger] (a + b)[i].0) && (a + b)[i].0.runtime_id == id;
        if i < a.len() {
            assert((a + b)[i] == a[i]);
        } else {
            assert((a + b)[i] == b[i - a.len()]);
        }
    }
    assert forall|id: ElementId| entry_match_ids(a, pred).union(entry_match_ids(b, pred)).contains(id) implies entry_match_ids(a + b, pred).contains(id) by {
        if entry_match_ids(a, pred).contains(id) {
            let i = choose|i: int| 0 <= i < a.len() && pred(#[trigger] a[i].0) && a[i].0.runtime_id == id;
            assert((a + b)[i] == a[i]);
        } else {
            let i = choose|i: int| 0 <= i < b.len() && pred(#[trigger] b[i].0) && b[i].0.runtime_id == id;
            assert((a + b)[a.len() + i] == b[i]);
        }
    }
    assert(entry_match_ids(a + b, pred) =~= entry_match_ids(a, pred).union(entry_match_ids(b, pred)));
}

proof fn lemma_entry_match_ids_single(x: (Element, Option<ElementId>), pred: spec_fn(Element) -> bool)
    ensures
        entry_match_ids(seq![x], pred) == (if pred(x.0) { set![x.0.runtime_id] } else { Set::<ElementId>::empty() }),
{
    assert(seq![x][0] == x);
    if pred(x.0) {
        assert(entry_match_ids(seq![x], pred) =~= set![x.0.runtime_id]);
    } else {
        assert(entry_match_ids(seq![x], pred) =~= Set::<ElementId>::empty());
    }
}

proof fn lemma_indexed_concat(
    i0: DispatchIndex, i1: DispatchIndex, i2: DispatchIndex,
    a: Seq<(Element, Option<ElementId>)>, b: Seq<(Element, Option<ElementId>)>,
)
    requires
        indexed(i0, i1, a),
        indexed(i1, i2, b),
    ensures
        indexed(i0, i2, a + b),
{
    lemma_parent_map_concat(i0.parents@, a, b);
    lemma_activation_map_concat(i0.activation_targets@, a, b);
    lemma_entry_match_ids_concat(a, b, is_invalid());
    lemma_entry_match_ids_concat(a, b, is_form());
    lemma_entry_match_ids_concat(a, b, is_form_submitter());
    lemma_entry_match_ids_concat(a, b, has_context_menu());
    lemma_entry_match_ids_concat(a, b, has_scroll_wheel());
    lemma_entry_match_ids_concat(a, b, has_touch());
    lemma_entry_match_ids_concat(a, b, has_mouse_pressure());
    lemma_entry_match_ids_concat(a, b, has_pinch());
    lemma_entry_match_ids_concat(a, b, has_rotation());
    lemma_entry_match_ids_concat(a, b, has_smart_magnify());
    lemma_listeners_indexed_concat(i0.listeners, i1.listeners, i2.listeners, a, b);
    assert(i2.invalid_ids@ =~= i0.invalid_ids@.union(entry_match_ids(a + b, is_invalid())));
    assert(i2.form_ids@ =~= i0.form_ids@.union(entry_match_ids(a + b, is_form())));
    assert(i2.form_submitter_ids@ =~= i0.form_submitter_ids@.union(entry_match_ids(a + b, is_form_submitter())));
    assert(i2.context_menu_ids@ =~= i0.context_menu_ids@.union(entry_match_ids(a + b, has_context_menu())));
    assert(i2.scroll_wheel_ids@ =~= i0.scroll_wheel_ids@.union(entry_match_ids(a + b, has_scroll_wheel())));
    assert(i2.touch_ids@ =~= i0.touch_ids@.union(entry_match_ids(a + b, has_touch())));
    assert(i2.mouse_pressure_ids@ =~= i0.mouse_pressure_ids@.union(entry_match_ids(a + b, has_mouse_pressure())));
    assert(i2.pinch_ids@ =~= i0.pinch_ids@.union(entry_match_ids(a + b, has_pinch())));
    assert(i2.rotation_ids@ =~= i0.rotation_ids@.union(entry_match_ids(a + b, has_rotation())));
    assert(i2.smart_magnify_ids@ =~= i0.smart_magnify_ids@.union(entry_match_ids(a + b, has_smart_magnify())));
}

/// Adds the element's id to `ids` when `flag`, which tells whether it satisfies `pred`.
fn note_entry(
    ids: &mut HashSet<ElementId>,
    element: &Element,
    parent: Option<ElementId>,
    flag: bool,
    Ghost(pred): Ghost<spec_fn(Element) -> bool>,
)
    requires
        flag == pred(*element),
    ensures
        final(ids)@ == old(ids)@.union(entry_match_ids(seq![(*element, parent)], pred)),
{
    proof {
        lemma_entry_match_ids_single((*element, parent), pred);
    }
    if flag {
        ids.insert(element.runtime_id);
    }
    assert(ids@ =~= old(ids)@.union(entry_match_ids(seq![(*element, parent)], pred)));
}

/// Records the parent link and event metadata of one element.
fn record_entry(element: &Element, parent: Option<ElementId>, index: &mut DispatchIndex)
    ensures
        indexed(*old(index), *final(index), seq![(*element, parent)]),
{
    let id = element.runtime_id;
    let enabled = !element.accessibility.disabled;
    if let Some(p) = parent {
        index.parents.insert(id, p);
    }
    if let Some(target) = element.activation_target {
        if enabled && target != id {
            index.activation_targets.insert(id, target);
        }
    }
    note_entry(&mut index.invalid_ids, element, parent, element.accessibility.invalid, Ghost(is_invalid()));
    note_entry(&mut index.form_ids, element, parent, element.form, Ghost(is_form()));
    note_entry(&mut index.form_submitter_ids, element, parent, element.form_submitter && enabled, Ghost(is_form_submitter()));
    note_entry(&mut index.context_menu_ids, element, parent, element.context_menu_listener && enabled, Ghost(has_context_menu()));
    note_entry(&mut index.scroll_wheel_ids, element, parent, element.scroll_wheel_listener && enabled, Ghost(has_scroll_wheel()));
    note_entry(&mut index.touch_ids, element, parent, element.touch_listener && enabled, Ghost(has_touch()));
    note_entry(&mut index.mouse_pressure_ids, element, parent, element.mouse_pressure_listener && enabled, Ghost(has_mouse_pressure()));
    note_entry(&mut index.pinch_ids, element, parent, element.pinch_listener && enabled, Ghost(has_pinch()));
    note_entry(&mut index.rotation_ids, element, parent, element.rotation_listener && enabled, Ghost(has_rotation()));
    note_entry(&mut index.smart_magnify_ids, element, parent, element.smart_magnify_listener && enabled, Ghost(has_smart_magnify()));
    record_listeners(element, parent, &mut index.listeners);
    let ghost head = seq![(*element, parent)];
    proof {
        assert(head.drop_last() == Seq::<(Element, Option<ElementId>)>::empty());
        assert(head.last() == (*element, parent));
        assert(parent_map(old(index).parents@, Seq::<(Element, Option<ElementId>)>::empty()) == old(index).parents@);
        assert(activation_map(old(index).activation_targets@, Seq::<(Element, Option<ElementId>)>::empty())
            == old(index).activation_targets@);
        assert(index.parents@ == parent_map(old(index).parents@, head));
        assert(index.activation_targets@ == activation_map(old(index).activation_targets@, head));
    }
}

/// Records the parent link and event metadata of every shown element of the subtree.
pub fn collect_dispatch_metadata(element: &Element, parent: Option<ElementId>, index: &mut DispatchIndex)
    ensures
        indexed(*old(index), *final(index), dispatch_entries(*element, parent)),
    decreases element,
{
    if element.display_none || element.visibility_hidden {
        proof {
            let s = Seq::<(Element, Option<ElementId>)>::empty();
            assert(entry_match_ids(s, is_invalid()) =~= Set::<ElementId>::empty());
            assert(entry_match_ids(s, is_form()) =~= Set::<ElementId>::empty());
            assert(entry_match_ids(s, is_form_submitter()) =~= Set::<ElementId>::empty());
            assert(entry_match_ids(s, has_context_menu()) =~= Set::<ElementId>::empty());
            assert(entry_match_ids(s, has_scroll_wheel()) =~= Set::<ElementId>::empty());
            assert(entry_match_ids(s, has_touch()) =~= Set::<ElementId>::empty());
            assert(entry_match_ids(s, has_mouse_pressure()) =~= Set::<ElementId>::empty());
            assert(entry_match_ids(s, has_pinch()) =~= Set::<ElementId>::empty());
            assert(entry_match_ids(s, has_rotation()) =~= Set::<ElementId>::empty());
            assert(entry_match_ids(s, has_smart_magnify()) =~= Set::<ElementId>::empty());
            assert(index.invalid_ids@ =~= old(index).invalid_ids@.union(Set::<ElementId>::empty()));
            assert(index.form_ids@ =~= old(index).form_ids@.union(Set::<ElementId>::empty()));
            assert(index.form_submitter_ids@ =~= old(index).form_submitter_ids@.union(Set::<ElementId>::empty()));
            assert(index.context_menu_ids@ =~= old(index).context_menu_ids@.union(Set::<ElementId>::empty()));
            assert(index.scroll_wheel_ids@ =~= old(index).scroll_wheel_ids@.union(Set::<ElementId>::empty()));
            assert(index.touch_ids@ =~= old(index).touch_ids@.union(Set::<ElementId>::empty()));
            assert(index.mouse_pressure_ids@ =~= old(index).mouse_pressure_ids@.union(Set::<ElementId>::empty()));
            assert(index.pinch_ids@ =~= old(index).pinch_ids@.union(Set::<ElementId>::empty()));
            assert(index.rotation_ids@ =~= old(index).rotation_ids@.union(Set::<ElementId>::empty()));
            assert(index.smart_magnify_ids@ =~= old(index).smart_magnify_ids@.union(Set::<ElementId>::empty()));
            assert(index.listeners.mouse_elements@ =~= old(index).listeners.mouse_elements@ + s.filter_map(mouse_listener_owner()));
        }
        return;
    }
    let id = element.runtime_id;
    record_entry(element, parent, index);
    let ghost head = seq![(*element, parent)];
    proof {
        assert(dispatch_forest(*element, 0) == Seq::<(Element, Option<ElementId>)>::empty());
        assert(head + dispatch_forest(*element, 0) == head);
    }
    let mut i: usize = 0;
    while i < element.children.len()
        invariant
            i <= element.children.len(),
            head == seq![(*element, parent)],
            id == element.runtime_id,
            indexed(*old(index), *index, head + dispatch_forest(*element, i as int)),
        decreases element.children.len() - i,
    {
        let ghost before = *index;
        let ghost prev = head + dispatch_forest(*element, i as int);
        let ghost sub = dispatch_entries(element.children[i as int], Some(element.runtime_id));
        collect_dispatch_metadata(&element.children[i], Some(id), index);
        proof {
            lemma_indexed_concat(*old(index), before, *index, prev, sub);
            assert(dispatch_forest(*element, i + 1) == dispatch_forest(*element, i as int) + sub);
            assert(prev + sub == head + dispatch_forest(*element, i + 1));
        }
        i += 1;
    }
    assert(dispatch_entries(*element, parent) == head + dispatch_forest(*element, element.children.len() as int));
}

/// The nearest of `id` and its ancestors that is in `ids`, following at most `fuel` parent links.
pub open spec fn climb(parents: Map<ElementId, ElementId>, ids: Set<ElementId>, id: ElementId, fuel: nat) -> Option<ElementId>
    decreases fuel,
{
    if ids.contains(id) {
        Some(id)
    } else if !parents.contains_key(id) || fuel == 0 {
        None
    } else {
        climb(parents, ids, parents[id], (fuel - 1) as nat)
    }
}

/// `id` followed by its ancestors up to the root, when that chain has at most `budget` elements.
pub open spec fn ancestor_chain(parents: Map<ElementId, ElementId>, id: ElementId, budget: nat) -> Option<Seq<ElementId>>
    decreases budget,
{
    if budget == 0 {
        None
    } else if !parents.contains_key(id) {
        Some(seq![id])
    } else {
        match ancestor_chain(parents, parents[id], (budget - 1) as nat) {
            Some(rest) => Some(seq![id] + rest),
            None => None,
        }
    }
}

/// The keyboard event path: from the root down to the focused element; just the root when
/// nothing is focused or the focused element's ancestors do not lead to the root within
/// `max_path` elements; empty without a root.
pub open spec fn focus_path_of(parents: Map<ElementId, ElementId>, root: Option<ElementId>, focused: Option<ElementId>, max_path: nat)
    -> Seq<ElementId>
{
    match root {
        None => Seq::<ElementId>::empty(),
        Some(r) => match focused {
            None => seq![r],
            Some(f) => match ancestor_chain(parents, f, max_path) {
                None => seq![r],
                Some(chain) => if chain.reverse()[0] != r { seq![r] } else { chain.reverse() },
            },
        },
    }
}

proof fn lemma_ancestor_chain_nonempty(parents: Map<ElementId, ElementId>, id: ElementId, budget: nat)
    ensures
        ancestor_chain(parents, id, budget) matches Some(chain) ==> chain.len() > 0 && chain[0] == id,
    decreases budget,
{
    if budget > 0 && parents.contains_key(id) {
        lemma_ancestor_chain_nonempty(parents, parents[id], (budget - 1) as nat);
    }
}

pub(crate) fn climb_to(parents: &HashMap<ElementId, ElementId>, ids: &HashSet<ElementId>, id: ElementId) -> (found: Option<ElementId>)
    ensures
        found == climb(parents@, ids@, id, parents@.len()),
{
    let mut current = id;
    let mut fuel = parents.len();
    loop
        invariant
            climb(parents@, ids@, current, fuel as nat) == climb(parents@, ids@, id, parents@.len()),
        decreases fuel,
    {
        if ids.contains(&current) {
            return Some(current);
        }
        match parents.get(&current) {
            None => return None,
            Some(p) => {
                if fuel == 0 {
                    return None;
                }
                fuel -= 1;
                current = *p;
            },
        }
    }
}

/// The nearest of `id` and its ancestors that is a key of `map`.
pub(crate) fn climb_to_key<V>(parents: &HashMap<ElementId, ElementId>, map: &HashMap<ElementId, V>, id: ElementId)
    -> (found: Option<ElementId>)
    ensures
        found == climb(parents@, map@.dom(), id, parents@.len()),
{
    let mut current = id;
    let mut fuel = parents.len();
    loop
        invariant
            climb(parents@, map@.dom(), current, fuel as nat) == climb(parents@, map@.dom(), id, parents@.len()),
        decreases fuel,
    {
        if map.contains_key(&current) {
            return Some(current);
        }
        match parents.get(&current) {
            None => return None,
            Some(p) => {
                if fuel == 0 {
                    return None;
                }
                fuel -= 1;
                current = *p;
            },
        }
    }
}

/// An event path starts at its target, climbs one parent link per step and never holds more than
/// its budget of elements.
pub proof fn lemma_event_path_climbs_parents(parents: Map<ElementId, ElementId>, id: ElementId, budget: nat)
    ensures
        ancestor_chain(parents, id, budget) matches Some(chain) ==> {
            &&& 0 < chain.len() <= budget
            &&& chain[0] == id
            &&& forall|i: int| 0 <= i < chain.len() - 1 ==> parents.contains_key(#[trigger] chain[i]) && chain[i + 1] == parents[chain[i]]
            &&& !parents.contains_key(chain[chain.len() - 1])
        },
    decreases budget,
{
    if budget > 0 && parents.contains_key(id) {
        lemma_event_path_climbs_parents(parents, parents[id], (budget - 1) as nat);
        if let Some(rest) = ancestor_chain(parents, parents[id], (budget - 1) as nat) {
            let chain = seq![id] + rest;
            assert forall|i: int| 0 <= i < chain.len() - 1 implies parents.contains_key(#[trigger] chain[i]) && chain[i + 1] == parents[chain[i]] by {
                if i == 0 {
                    assert(chain[1] == rest[0]);
                } else {
                    assert(chain[i] == rest[i - 1]);
                    assert(chain[i + 1] == rest[i]);
                    assert(parents.contains_key(rest[i - 1]) && rest[(i - 1) + 1] == parents[rest[i - 1]]);
                }
            }
            assert(chain[chain.len() - 1] == rest[rest.len() - 1]);
            assert(ancestor_chain(parents, id, budget) == Some(chain));
        }
    } else if budget > 0 {
        assert(ancestor_chain(parents, id, budget) == Some(seq![id]));
        assert(seq![id][0] == id);
    }
}

/// What a climb finds is in the set it looks for.
pub proof fn lemma_climb_finds_member(parents: Map<ElementId, ElementId>, ids: Set<ElementId>, id: ElementId, fuel: nat)
    ensures
        climb(parents, ids, id, fuel) matches Some(found) ==> ids.contains(found),
    decreases fuel,
{
    if !ids.contains(id) && parents.contains_key(id) && fuel > 0 {
        lemma_climb_finds_member(parents, ids, parents[id], (fuel - 1) as nat);
    }
}

impl DispatchIndex {
    pub fn new() -> (index: DispatchIndex)
        ensures
            index.parents@ == Map::<ElementId, ElementId>::empty(),
            index.activation_targets@ == Map::<ElementId, ElementId>::empty(),
            index.invalid_ids@ == Set::<ElementId>::empty(),
            index.form_ids@ == Set::<ElementId>::empty(),
            index.form_submitter_ids@ == Set::<ElementId>::empty(),
            index.context_menu_ids@ == Set::<ElementId>::empty(),
            index.scroll_wheel_ids@ == Set::<ElementId>::empty(),
            index.touch_ids@ == Set::<ElementId>::empty(),
            index.mouse_pressure_ids@ == Set::<ElementId>::empty(),
            index.pinch_ids@ == Set::<ElementId>::empty(),
            index.rotation_ids@ == Set::<ElementId>::empty(),
            index.smart_magnify_ids@ == Set::<ElementId>::empty(),
            index.listeners.mouse@ == Map::<ElementId, Vec<MouseListenerBinding>>::empty(),
            index.listeners.mouse_elements@ == Seq::<ElementId>::empty(),
            index.listeners.key@ == Map::<ElementId, Vec<KeyListenerBinding>>::empty(),
            index.listeners.action@ == Map::<ElementId, Vec<ActionListenerBinding>>::empty(),
            index.listeners.key_contexts@ == Map::<ElementId, String>::empty(),
    {
        DispatchIndex {
            parents: HashMap::new(),
            activation_targets: HashMap::new(),
            invalid_ids: HashSet::new(),
            form_ids: HashSet::new(),
            form_submitter_ids: HashSet::new(),
            context_menu_ids: HashSet::new(),
            scroll_wheel_ids: HashSet::new(),
            touch_ids: HashSet::new(),
            mouse_pressure_ids: HashSet::new(),
            pinch_ids: HashSet::new(),
            rotation_ids: HashSet::new(),
            smart_magnify_ids: HashSet::new(),
            listeners: ListenerIndex::new(),
        }
    }

    /// Rebuilds the index from the shown tree of `root`.
    pub fn rebuild_dispatch_index(&mut self, root: &Element)
        ensures
            ({
                let s = dispatch_entries(*root, None);
                &&& final(self).parents@ == parent_map(Map::empty(), s)
                &&& final(self).activation_targets@ == activation_map(Map::empty(), s)
                &&& final(self).invalid_ids@ == entry_match_ids(s, is_invalid())
                &&& final(self).form_ids@ == entry_match_ids(s, is_form())
                &&& final(self).form_submitter_ids@ == entry_match_ids(s, is_form_submitter())
                &&& final(self).context_menu_ids@ == entry_match_ids(s, has_context_menu())
                &&& final(self).scroll_wheel_ids@ == entry_match_ids(s, has_scroll_wheel())
                &&& final(self).touch_ids@ == entry_match_ids(s, has_touch())
                &&& final(self).mouse_pressure_ids@ == entry_match_ids(s, has_mouse_pressure())
                &&& final(self).pinch_ids@ == entry_match_ids(s, has_pinch())
                &&& final(self).rotation_ids@ == entry_match_ids(s, has_rotation())
                &&& final(self).smart_magnify_ids@ == entry_match_ids(s, has_smart_magnify())
                &&& vec_values(final(self).listeners.mouse@) == listener_map(Map::empty(), s, enabled_mouse_listeners())
                &&& final(self).listeners.mouse_elements@ == s.filter_map(mouse_listener_owner())
                &&& vec_values(final(self).listeners.key@) == listener_map(Map::empty(), s, enabled_key_listeners())
                &&& vec_values(final(self).listeners.action@) == listener_map(Map::empty(), s, enabled_action_listeners())
                &&& final(self).listeners.key_contexts@ == listener_map(Map::empty(), s, declared_key_context())
            }),
    {
        *self = DispatchIndex::new();
        proof {
            assert(vec_values(self.listeners.mouse@) =~= Map::<ElementId, Seq<MouseListenerBinding>>::empty());
            assert(vec_values(self.listeners.key@) =~= Map::<ElementId, Seq<KeyListenerBinding>>::empty());
            assert(vec_values(self.listeners.action@) =~= Map::<ElementId, Seq<ActionListenerBinding>>::empty());
        }
        collect_dispatch_metadata(root, None, self);
        proof {
            let s = dispatch_entries(*root, None);
            assert(self.listeners.mouse_elements@ =~= s.filter_map(mouse_listener_owner()));
            assert(self.invalid_ids@ =~= entry_match_ids(s, is_invalid()));
            assert(self.form_ids@ =~= entry_match_ids(s, is_form()));
            assert(self.form_submitter_ids@ =~= entry_match_ids(s, is_form_submitter()));
            assert(self.context_menu_ids@ =~= entry_match_ids(s, has_context_menu()));
            assert(self.scroll_wheel_ids@ =~= entry_match_ids(s, has_scroll_wheel()));
            assert(self.touch_ids@ =~= entry_match_ids(s, has_touch()));
            assert(self.mouse_pressure_ids@ =~= entry_match_ids(s, has_mouse_pressure()));
            assert(self.pinch_ids@ =~= entry_match_ids(s, has_pinch()));
            assert(self.rotation_ids@ =~= entry_match_ids(s, has_rotation()));
            assert(self.smart_magnify_ids@ =~= entry_match_ids(s, has_smart_magnify()));
        }
    }

    /// The form that holds `id`: `id` itself or its nearest form ancestor.
    pub fn form_for_control(&self, id: ElementId) -> (form: Option<ElementId>)
        ensures
            form == climb(self.parents@, self.form_ids@, id, self.parents@.len()),
    {
        climb_to(&self.parents, &self.form_ids, id)
    }

    /// The form an enabled submit control submits.
    pub fn form_for_submitter(&self, id: ElementId) -> (form: Option<ElementId>)
        ensures
            form == if self.form_submitter_ids@.contains(id) {
                climb(self.parents@, self.form_ids@, id, self.parents@.len())
            } else {
                None
            },
    {
        if self.form_submitter_ids.contains(&id) { self.form_for_control(id) } else { None }
    }

    /// The element (the target or its nearest ancestor) that handles scroll-wheel input.
    pub fn scroll_wheel_listener_for_target(&self, id: ElementId) -> (listener: Option<ElementId>)
        ensures
            listener == climb(self.parents@, self.scroll_wheel_ids@, id, self.parents@.len()),
    {
        climb_to(&self.parents, &self.scroll_wheel_ids, id)
    }

    /// The nearest strict ancestor of `id` that handles scroll-wheel input.
    pub fn parent_scroll_wheel_listener(&self, id: ElementId) -> (listener: Option<ElementId>)
        ensures
            listener == if self.parents@.contains_key(id) {
                climb(self.parents@, self.scroll_wheel_ids@, self.parents@[id], self.parents@.len())
            } else {
                None
            },
    {
        match self.parents.get(&id) {
            Some(p) => climb_to(&self.parents, &self.scroll_wheel_ids, *p),
            None => None,
        }
    }

    /// The element (the target or its nearest ancestor) that handles touch input.
    pub fn touch_listener_for_target(&self, id: ElementId) -> (listener: Option<ElementId>)
        ensures
            listener == climb(self.parents@, self.touch_ids@, id, self.parents@.len()),
    {
        climb_to(&self.parents, &self.touch_ids, id)
    }

    /// The nearest strict ancestor of `id` that handles touch input.
    pub fn parent_touch_listener(&self, id: ElementId) -> (listener: Option<ElementId>)
        ensures
            listener == if self.parents@.contains_key(id) {
                climb(self.parents@, self.touch_ids@, self.parents@[id], self.parents@.len())
            } else {
                None
            },
    {
        match self.parents.get(&id) {
            Some(p) => climb_to(&self.parents, &self.touch_ids, *p),
            None => None,
        }
    }

    /// Fills `output` with `target` and its ancestors up to the root; when that path is longer
    /// than `max_path`, empties it and returns false.
    pub fn mouse_event_path_for_target(&self, target: ElementId, output: &mut Vec<ElementId>, max_path: usize) -> (complete: bool)
        ensures
            complete == ancestor_chain(self.parents@, target, max_path as nat) is Some,
            complete ==> final(output)@ == ancestor_chain(self.parents@, target, max_path as nat).unwrap(),
            !complete ==> final(output)@.len() == 0,
    {
        output.clear();
        let mut current = target;
        loop
            invariant
                output@.len() <= max_path,
                ancestor_chain(self.parents@, current, (max_path - output@.len()) as nat) matches Some(rest)
                    ==> ancestor_chain(self.parents@, target, max_path as nat) == Some(output@ + rest),
                ancestor_chain(self.parents@, current, (max_path - output@.len()) as nat) is None
                    ==> ancestor_chain(self.parents@, target, max_path as nat) is None,
            decreases max_path - output@.len(),
        {
            if output.len() == max_path {
                output.clear();
                return false;
            }
            output.push(current);
            match self.parents.get(&current) {
                None => {
                    proof {
                        let before = output@.drop_last();
                        assert(ancestor_chain(self.parents@, current, (max_path - before.len()) as nat) == Some(seq![current]));
                        assert(before + seq![current] == output@);
                    }
                    return true;
                },
                Some(p) => {
                    proof {
                        let before = output@.drop_last();
                        assert(before + seq![current] == output@);
                        let b = (max_path - before.len()) as nat;
                        assert(ancestor_chain(self.parents@, current, b) == match ancestor_chain(self.parents@, *p, (b - 1) as nat) {
                            Some(rest) => Some(seq![current] + rest),
                            None => None,
                        });
                        if let Some(rest) = ancestor_chain(self.parents@, *p, (b - 1) as nat) {
                            assert(before + (seq![current] + rest) == output@ + rest);
                        }
                    }
                    current = *p;
                },
            }
        }
    }

    /// The keyboard event path (see `focus_path_of`).
    pub fn focus_path(&self, root: Option<ElementId>, focused: Option<ElementId>, max_path: usize) -> (path: Vec<ElementId>)
        requires
            max_path >= 1,
        ensures
            path@ == focus_path_of(self.parents@, root, focused, max_path as nat),
    {
        let root = match root {
            Some(r) => r,
            None => return Vec::new(),
        };
        let focused = match focused {
            Some(f) => f,
            None => return vec![root],
        };
        let mut upward: Vec<ElementId> = Vec::new();
        if !self.mouse_event_path_for_target(focused, &mut upward, max_path) {
            return vec![root];
        }
        let mut path: Vec<ElementId> = Vec::new();
        let mut i = upward.len();
        while i > 0
            invariant
                i <= upward.len(),
                path@ == upward@.subrange(i as int, upward@.len() as int).reverse(),
            decreases i,
        {
            i -= 1;
            path.push(upward[i]);
            proof {
                assert(upward@.subrange(i as int, upward@.len() as int).reverse()
                    =~= upward@.subrange(i + 1, upward@.len() as int).reverse().push(upward@[i as int]));
            }
        }
        assert(upward@.subrange(0, upward@.len() as int) == upward@);
        proof {
            let chain = ancestor_chain(self.parents@, focused, max_path as nat).unwrap();
            assert(chain.len() > 0) by {
                lemma_ancestor_chain_nonempty(self.parents@, focused, max_path as nat);
            }
        }
        if path[0] != root {
            return vec![root];
        }
        path
    }

}

} // verus!
