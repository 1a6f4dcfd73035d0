use vstd::prelude::*;
use std::collections::HashMap;
use crate::element::{Element, ElementId};
use crate::dispatch::{
    DispatchIndex, ancestor_chain, declared_key_context, focus_path_of, enabled_action_listeners, enabled_key_listeners,
    enabled_mouse_listeners, listener_map, listeners_indexed, mouse_listener_owner, vec_values,
};

verus! {

broadcast use {vstd::std_specs::vec::group_vec_axioms, vstd::std_specs::hash::group_hash_axioms};

/// Names one registered mouse listener to the code that owns its callback.
#[derive(Clone, Copy, Debug, PartialEq, Eq)]
pub struct MouseListenerKey(pub u64);

/// The mouse event a listener waits for.
#[derive(Clone, Copy, Debug, PartialEq, Eq, Structural)]
pub enum MouseListenerKind {
    Down,
    Up,
    Hover,
}

/// Capture runs from the root towards the target, bubble from the target back to the root.
#[derive(Clone, Copy, Debug, PartialEq, Eq, Structural)]
pub enum DispatchPhase {
    Capture,
    Bubble,
}

#[derive(Clone, Copy, Debug, PartialEq, Eq, Structural)]
pub enum MouseButton {
    Left,
    Right,
    Middle,
}

/// A declared mouse listener: what it waits for, in which phase, and for which button (any
/// button when `button` is none); `outside` listeners hear presses outside their element.
#[derive(Clone, Copy, Debug, PartialEq, Eq)]
pub struct MouseListenerBinding {
    pub key: MouseListenerKey,
    pub kind: MouseListenerKind,
    pub phase: DispatchPhase,
    pub button: Option<MouseButton>,
    pub outside: bool,
}

#[derive(Clone, Copy, Debug, PartialEq, Eq, Structural)]
pub enum KeyListenerKind {
    Down,
    Up,
}

/// A declared keyboard listener.
#[derive(Clone, Copy, Debug, PartialEq, Eq)]
pub struct KeyListenerBinding {
    pub key: u64,
    pub kind: KeyListenerKind,
    pub phase: DispatchPhase,
}

/// A declared listener for one type of action, the type named by `action_type`.
#[derive(Clone, Copy, Debug, PartialEq, Eq)]
pub struct ActionListenerBinding {
    pub key: u64,
    pub action_type: u64,
    pub phase: DispatchPhase,
}

/// A hover listener whose element the pointer entered (`hovered`) or left.
#[derive(Clone, Copy, Debug, PartialEq, Eq)]
pub struct MouseHoverChange {
    pub key: MouseListenerKey,
    pub hovered: bool,
}

/// The listeners of the shown, enabled elements, by element.
pub struct ListenerIndex {
    pub mouse: HashMap<ElementId, Vec<MouseListenerBinding>>,
    /// The elements with mouse listeners, in document order.
    pub mouse_elements: Vec<ElementId>,
    pub key: HashMap<ElementId, Vec<KeyListenerBinding>>,
    pub action: HashMap<ElementId, Vec<ActionListenerBinding>>,
    /// The key context each element declares.
    pub key_contexts: HashMap<ElementId, String>,
}

pub open spec fn button_matches(expected: Option<MouseButton>, pressed: Option<MouseButton>) -> bool {
    match expected {
        None => true,
        Some(b) => pressed == Some(b),
    }
}

pub open spec fn mouse_key_if(kind: MouseListenerKind, phase: DispatchPhase, button: Option<MouseButton>, outside: bool)
    -> spec_fn(MouseListenerBinding) -> Option<MouseListenerKey>
{
    |b: MouseListenerBinding|
        if b.kind == kind && b.phase == phase && b.outside == outside && button_matches(b.button, button) {
            Some(b.key)
        } else {
            None
        }
}

/// The keys of the listeners of `id` that match, in declaration order.
pub open spec fn mouse_keys_for(
    mouse: Map<ElementId, Vec<MouseListenerBinding>>, id: ElementId,
    kind: MouseListenerKind, phase: DispatchPhase, button: Option<MouseButton>, outside: bool,
) -> Seq<MouseListenerKey> {
    if mouse.contains_key(id) {
        mouse[id]@.filter_map(mouse_key_if(kind, phase, button, outside))
    } else {
        Seq::empty()
    }
}

pub open spec fn mouse_keys_of(
    mouse: Map<ElementId, Vec<MouseListenerBinding>>,
    kind: MouseListenerKind, phase: DispatchPhase, button: Option<MouseButton>, outside: bool,
) -> spec_fn(ElementId) -> Seq<MouseListenerKey> {
    |id: ElementId| mouse_keys_for(mouse, id, kind, phase, button, outside)
}

/// Outside capture listeners of the elements not on `path`.
pub open spec fn outside_keys_of(
    mouse: Map<ElementId, Vec<MouseListenerBinding>>, path: Seq<ElementId>,
    kind: MouseListenerKind, button: Option<MouseButton>,
) -> spec_fn(ElementId) -> Seq<MouseListenerKey> {
    |id: ElementId|
        if path.contains(id) {
            Seq::empty()
        } else {
            mouse_keys_for(mouse, id, kind, DispatchPhase::Capture, button, true)
        }
}

/// The order in which a mouse event reaches its listeners: for a press or release, first the
/// outside capture listeners of the elements off the path, topmost first (by paint order when
/// `regions` lists the painted elements bottom to top, else by reverse document order); then
/// capture listeners from the root (the end of `path`) to the target (its start); then bubble
/// listeners from the target back to the root.
pub open spec fn mouse_dispatch(
    index: ListenerIndex, path: Seq<ElementId>, kind: MouseListenerKind, button: Option<MouseButton>,
    regions: Seq<ElementId>,
) -> Seq<MouseListenerKey> {
    let mouse = index.mouse@;
    let candidates = if regions.len() == 0 { index.mouse_elements@ } else { regions };
    let outside = if kind == MouseListenerKind::Down || kind == MouseListenerKind::Up {
        candidates.reverse().flat_map(outside_keys_of(mouse, path, kind, button))
    } else {
        Seq::empty()
    };
    outside
        + path.reverse().flat_map(mouse_keys_of(mouse, kind, DispatchPhase::Capture, button, false))
        + path.flat_map(mouse_keys_of(mouse, kind, DispatchPhase::Bubble, button, false))
}

pub open spec fn key_binding_if(kind: KeyListenerKind, phase: DispatchPhase)
    -> spec_fn(KeyListenerBinding) -> Option<KeyListenerBinding>
{
    |b: KeyListenerBinding| if b.kind == kind && b.phase == phase { Some(b) } else { None }
}

pub open spec fn key_bindings_of(key: Map<ElementId, Vec<KeyListenerBinding>>, kind: KeyListenerKind, phase: DispatchPhase)
    -> spec_fn(ElementId) -> Seq<KeyListenerBinding>
{
    |id: ElementId| if key.contains_key(id) { key[id]@.filter_map(key_binding_if(kind, phase)) } else { Seq::empty() }
}

/// Capture listeners from the root (the start of the focus path) to the focused element, then
/// bubble listeners back to the root.
pub open spec fn key_dispatch(index: ListenerIndex, path: Seq<ElementId>, kind: KeyListenerKind) -> Seq<KeyListenerBinding> {
    path.flat_map(key_bindings_of(index.key@, kind, DispatchPhase::Capture))
        + path.reverse().flat_map(key_bindings_of(index.key@, kind, DispatchPhase::Bubble))
}

pub open spec fn action_binding_if(action_type: u64, phase: DispatchPhase)
    -> spec_fn(ActionListenerBinding) -> Option<ActionListenerBinding>
{
    |b: ActionListenerBinding| if b.action_type == action_type && b.phase == phase { Some(b) } else { None }
}

pub open spec fn action_bindings_of(action: Map<ElementId, Vec<ActionListenerBinding>>, action_type: u64, phase: DispatchPhase)
    -> spec_fn(ElementId) -> Seq<ActionListenerBinding>
{
    |id: ElementId|
        if action.contains_key(id) { action[id]@.filter_map(action_binding_if(action_type, phase)) } else { Seq::empty() }
}

/// Capture listeners of the action type from the root to the focused element, then bubble
/// listeners back to the root.
pub open spec fn action_dispatch(index: ListenerIndex, path: Seq<ElementId>, action_type: u64) -> Seq<ActionListenerBinding> {
    path.flat_map(action_bindings_of(index.action@, action_type, DispatchPhase::Capture))
        + path.reverse().flat_map(action_bindings_of(index.action@, action_type, DispatchPhase::Bubble))
}

/// Some element of `path` listens for the action type, in either phase.
pub open spec fn action_listened(index: ListenerIndex, path: Seq<ElementId>, action_type: u64) -> bool {
    exists|i: int, j: int|
        0 <= i < path.len() && index.action@.contains_key(#[trigger] path[i])
            && 0 <= j < index.action@[path[i]]@.len() && (#[trigger] index.action@[path[i]]@[j]).action_type == action_type
}

pub proof fn lemma_flat_map_push<A, B>(s: Seq<A>, x: A, f: spec_fn(A) -> Seq<B>)
    ensures
        s.push(x).flat_map(f) == s.flat_map(f) + f(x),
{
    assert(s.push(x).map_values(f) =~= s.map_values(f).push(f(x)));
    s.map_values(f).lemma_flatten_push(f(x));
}

proof fn lemma_filter_map_step<A, B>(s: Seq<A>, i: int, f: spec_fn(A) -> Option<B>)
    requires
        0 <= i < s.len(),
    ensures
        s.take(i + 1).filter_map(f) == match f(s[i]) {
            Some(y) => s.take(i).filter_map(f) + seq![y],
            None => s.take(i).filter_map(f),
        },
{
    assert(s.take(i + 1).drop_last() =~= s.take(i));
    assert(s.take(i + 1).last() == s[i]);
}

fn copy_bindings<T: Copy>(v: &Vec<T>) -> (copy: Vec<T>)
    ensures
        copy@ == v@,
{
    let mut copy: Vec<T> = Vec::new();
    let mut i: usize = 0;
    while i < v.len()
        invariant
            i <= v@.len(),
            copy@ == v@.take(i as int),
        decreases v.len() - i,
    {
        copy.push(v[i]);
        assert(v@.take(i + 1) =~= v@.take(i as int).push(v@[i as int]));
        i += 1;
    }
    assert(v@.take(v@.len() as int) =~= v@);
    copy
}

proof fn lemma_vec_values_insert<T>(m: Map<ElementId, Vec<T>>, k: ElementId, v: Vec<T>)
    ensures
        vec_values(m.insert(k, v)) == vec_values(m).insert(k, v@),
{
    assert(vec_values(m.insert(k, v)) =~= vec_values(m).insert(k, v@));
}

/// Records the listeners and key context of one shown element, `parent` being its parent.
pub fn record_listeners(element: &Element, parent: Option<ElementId>, index: &mut ListenerIndex)
    ensures
        listeners_indexed(*old(index), *final(index), seq![(*element, parent)]),
{
    let id = element.runtime_id;
    let enabled = !element.accessibility.disabled;
    let ghost e = *element;
    let ghost s = seq![(*element, parent)];
    if let Some(listeners) = &element.mouse_listeners {
        if enabled {
            let copy = copy_bindings(listeners);
            proof { lemma_vec_values_insert(index.mouse@, id, copy); }
            index.mouse.insert(id, copy);
            index.mouse_elements.push(id);
        }
    }
    if let Some(listeners) = &element.key_listeners {
        if enabled {
            let copy = copy_bindings(listeners);
            proof { lemma_vec_values_insert(index.key@, id, copy); }
            index.key.insert(id, copy);
        }
    }
    if let Some(listeners) = &element.action_listeners {
        if enabled {
            let copy = copy_bindings(listeners);
            proof { lemma_vec_values_insert(index.action@, id, copy); }
            index.action.insert(id, copy);
        }
    }
    if let Some(context) = &element.key_context {
        index.key_contexts.insert(id, context.clone());
    }
    proof {
        assert(s.drop_last() =~= Seq::<(Element, Option<ElementId>)>::empty());
        assert(s.last() == (e, parent));
        assert(Seq::<(Element, Option<ElementId>)>::empty().filter_map(mouse_listener_owner()) =~= Seq::<ElementId>::empty());
        assert(s.filter_map(mouse_listener_owner())
            == Seq::<(Element, Option<ElementId>)>::empty().filter_map(mouse_listener_owner())
                + (if e.mouse_listeners is Some && !e.accessibility.disabled { seq![id] } else { Seq::<ElementId>::empty() })) by {
            if e.mouse_listeners is Some && !e.accessibility.disabled {
            } else {
                assert(Seq::<ElementId>::empty() + Seq::<ElementId>::empty() =~= Seq::<ElementId>::empty());
            }
        }
        assert(index.mouse_elements@ =~= old(index).mouse_elements@ + s.filter_map(mouse_listener_owner()));
        let empty = Seq::<(Element, Option<ElementId>)>::empty();
        assert(listener_map(vec_values(old(index).mouse@), empty, enabled_mouse_listeners()) == vec_values(old(index).mouse@));
        assert(listener_map(vec_values(old(index).key@), empty, enabled_key_listeners()) == vec_values(old(index).key@));
        assert(listener_map(vec_values(old(index).action@), empty, enabled_action_listeners()) == vec_values(old(index).action@));
        assert(listener_map(old(index).key_contexts@, empty, declared_key_context()) == old(index).key_contexts@);
        assert(vec_values(index.mouse@) == listener_map(vec_values(old(index).mouse@), s, enabled_mouse_listeners()));
        assert(vec_values(index.key@) == listener_map(vec_values(old(index).key@), s, enabled_key_listeners()));
        assert(vec_values(index.action@) == listener_map(vec_values(old(index).action@), s, enabled_action_listeners()));
        assert(index.key_contexts@ == listener_map(old(index).key_contexts@, s, declared_key_context()));
    }
}

proof fn lemma_flat_map_contains<A, B>(s: Seq<A>, f: spec_fn(A) -> Seq<B>, x: B)
    requires
        s.flat_map(f).contains(x),
    ensures
        exists|i: int| 0 <= i < s.len() && #[trigger] f(s[i]).contains(x),
    decreases s.len(),
{
    if s.len() == 0 {
        assert(s.map_values(f) =~= Seq::<Seq<B>>::empty());
        assert(s.flat_map(f) =~= Seq::<B>::empty());
    } else {
        let init = s.drop_last();
        assert(s == init.push(s.last()));
        lemma_flat_map_push(init, s.last(), f);
        let j = choose|j: int| 0 <= j < s.flat_map(f).len() && s.flat_map(f)[j] == x;
        if j < init.flat_map(f).len() {
            assert(init.flat_map(f)[j] == x);
            assert(init.flat_map(f).contains(x));
            lemma_flat_map_contains(init, f, x);
            let i = choose|i: int| 0 <= i < init.len() && #[trigger] f(init[i]).contains(x);
            assert(init[i] == s[i]);
            assert(f(s[i]).contains(x));
        } else {
            let k = j - init.flat_map(f).len();
            assert(f(s.last())[k] == x);
            assert(f(s[s.len() - 1]).contains(x));
        }
    }
}

/// Keyboard dispatch reaches only listeners of the event's kind declared by elements of the
/// focus path, and every capture listener before every bubble listener.
pub proof fn lemma_key_dispatch_is_phased(index: ListenerIndex, path: Seq<ElementId>, kind: KeyListenerKind)
    ensures
        ({
            let out = key_dispatch(index, path, kind);
            let captured = path.flat_map(key_bindings_of(index.key@, kind, DispatchPhase::Capture)).len();
            &&& forall|j: int| 0 <= j < out.len() ==> (#[trigger] out[j]).kind == kind
                && exists|i: int| 0 <= i < path.len() && index.key@.contains_key(path[i])
                    && #[trigger] index.key@[path[i]]@.contains(out[j])
            &&& forall|j: int| 0 <= j < out.len() ==> ((#[trigger] out[j]).phase == DispatchPhase::Capture <==> j < captured)
        }),
{
    let cap = key_bindings_of(index.key@, kind, DispatchPhase::Capture);
    let bub = key_bindings_of(index.key@, kind, DispatchPhase::Bubble);
    let first = path.flat_map(cap);
    let rev = path.reverse();
    let second = rev.flat_map(bub);
    let out = key_dispatch(index, path, kind);
    assert(out == first + second);
    assert forall|j: int| 0 <= j < out.len() implies (#[trigger] out[j]).kind == kind
        && (exists|i: int| 0 <= i < path.len() && index.key@.contains_key(path[i])
            && #[trigger] index.key@[path[i]]@.contains(out[j]))
        && (out[j].phase == DispatchPhase::Capture <==> j < first.len()) by {
        let b = out[j];
        if j < first.len() {
            assert(first[j] == b);
            assert(first.contains(b));
            lemma_flat_map_contains(path, cap, b);
            let i = choose|i: int| 0 <= i < path.len() && #[trigger] cap(path[i]).contains(b);
            let id = path[i];
            assert(index.key@.contains_key(id));
            index.key@[id]@.lemma_filter_map_contains(key_binding_if(kind, DispatchPhase::Capture), b);
            let t = choose|t: KeyListenerBinding| #[trigger] index.key@[id]@.contains(t)
                && key_binding_if(kind, DispatchPhase::Capture)(t) == Some(b);
            assert(t == b);
        } else {
            assert(second[j - first.len()] == b);
            assert(second.contains(b));
            lemma_flat_map_contains(rev, bub, b);
            let r = choose|r: int| 0 <= r < rev.len() && #[trigger] bub(rev[r]).contains(b);
            let i = path.len() - 1 - r;
            assert(rev[r] == path[i]);
            let id = path[i];
            assert(index.key@.contains_key(id));
            index.key@[id]@.lemma_filter_map_contains(key_binding_if(kind, DispatchPhase::Bubble), b);
            let t = choose|t: KeyListenerBinding| #[trigger] index.key@[id]@.contains(t)
                && key_binding_if(kind, DispatchPhase::Bubble)(t) == Some(b);
            assert(t == b);
        }
    }
}

/// Whether `ids` holds `id`.
pub fn contains_id(ids: &[ElementId], id: ElementId) -> (found: bool)
    ensures
        found == ids@.contains(id),
{
    let mut i: usize = 0;
    while i < ids.len()
        invariant
            i <= ids.len(),
            forall|j: int| 0 <= j < i ==> ids@[j] != id,
        decreases ids.len() - i,
    {
        if ids[i] == id {
            return true;
        }
        i += 1;
    }
    false
}

impl ListenerIndex {
    pub fn new() -> (index: ListenerIndex)
        ensures
            index.mouse@ == Map::<ElementId, Vec<MouseListenerBinding>>::empty(),
            index.mouse_elements@ == Seq::<ElementId>::empty(),
            index.key@ == Map::<ElementId, Vec<KeyListenerBinding>>::empty(),
            index.action@ == Map::<ElementId, Vec<ActionListenerBinding>>::empty(),
            index.key_contexts@ == Map::<ElementId, String>::empty(),
    {
        ListenerIndex {
            mouse: HashMap::new(),
            mouse_elements: Vec::new(),
            key: HashMap::new(),
            action: HashMap::new(),
            key_contexts: HashMap::new(),
        }
    }

    fn extend_mouse_dispatch_for(
        &self, id: ElementId, kind: MouseListenerKind, phase: DispatchPhase, button: Option<MouseButton>,
        outside: bool, output: &mut Vec<MouseListenerKey>,
    )
        ensures
            final(output)@ == old(output)@ + mouse_keys_for(self.mouse@, id, kind, phase, button, outside),
    {
        let ghost start = output@;
        let ghost f = mouse_key_if(kind, phase, button, outside);
        match self.mouse.get(&id) {
            None => {
                assert(start + Seq::<MouseListenerKey>::empty() == start);
            },
            Some(bindings) => {
                let mut j: usize = 0;
                assert(bindings@.take(0) =~= Seq::<MouseListenerBinding>::empty());
                assert(start + Seq::<MouseListenerKey>::empty() == start);
                while j < bindings.len()
                    invariant
                        j <= bindings.len(),
                        f == mouse_key_if(kind, phase, button, outside),
                        output@ == start + bindings@.take(j as int).filter_map(f),
                    decreases bindings.len() - j,
                {
                    let b = bindings[j];
                    let button_ok = match b.button {
                        None => true,
                        Some(expected) => match button {
                            Some(pressed) => pressed == expected,
                            None => false,
                        },
                    };
                    proof {
                        lemma_filter_map_step(bindings@, j as int, f);
                    }
                    assert(button_ok == button_matches(b.button, button));
                    if b.kind == kind && b.phase == phase && b.outside == outside && button_ok {
                        output.push(b.key);
                        assert(start + bindings@.take(j as int).filter_map(f) + seq![b.key]
                            =~= start + (bindings@.take(j as int).filter_map(f) + seq![b.key]));
                    }
                    j += 1;
                }
                assert(bindings@.take(bindings@.len() as int) =~= bindings@);
            },
        }
    }

    /// Fills `output` with the keys of the listeners that `kind` (pressed with `button`) reaches
    /// along `path`, which runs from the target up to the root, in dispatch order; `regions` lists
    /// the painted elements bottom to top, or nothing when no paint order is known.
    pub fn collect_mouse_dispatch(
        &self, path: &[ElementId], kind: MouseListenerKind, button: Option<MouseButton>, regions: &[ElementId],
        output: &mut Vec<MouseListenerKey>,
    )
        ensures
            final(output)@ == mouse_dispatch(*self, path@, kind, button, regions@),
    {
        output.clear();
        let ghost mouse = self.mouse@;
        if kind == MouseListenerKind::Down || kind == MouseListenerKind::Up {
            let candidates: &[ElementId] = if regions.len() == 0 { self.mouse_elements.as_slice() } else { regions };
            let ghost f = outside_keys_of(mouse, path@, kind, button);
            let mut i = candidates.len();
            assert(candidates@.subrange(i as int, i as int).reverse() =~= Seq::<ElementId>::empty());
            while i > 0
                invariant
                    i <= candidates@.len(),
                    f == outside_keys_of(mouse, path@, kind, button),
                    mouse == self.mouse@,
                    output@ == candidates@.subrange(i as int, candidates@.len() as int).reverse().flat_map(f),
                decreases i,
            {
                i -= 1;
                let id = candidates[i];
                let ghost before = output@;
                if !contains_id(path, id) {
                    self.extend_mouse_dispatch_for(id, kind, DispatchPhase::Capture, button, true, output);
                } else {
                    assert(before + Seq::<MouseListenerKey>::empty() == before);
                }
                proof {
                    let tail = candidates@.subrange(i + 1, candidates@.len() as int).reverse();
                    assert(candidates@.subrange(i as int, candidates@.len() as int).reverse() =~= tail.push(id));
                    lemma_flat_map_push(tail, id, f);
                }
            }
            assert(candidates@.subrange(0, candidates@.len() as int) == candidates@);
        } else {
            assert(output@ =~= Seq::<MouseListenerKey>::empty());
        }
        let ghost outside = output@;
        let ghost cap = mouse_keys_of(mouse, kind, DispatchPhase::Capture, button, false);
        let mut i = path.len();
        assert(path@.subrange(i as int, i as int).reverse() =~= Seq::<ElementId>::empty());
        assert(outside + Seq::<MouseListenerKey>::empty() == outside);
        while i > 0
            invariant
                i <= path@.len(),
                cap == mouse_keys_of(mouse, kind, DispatchPhase::Capture, button, false),
                mouse == self.mouse@,
                output@ == outside + path@.subrange(i as int, path@.len() as int).reverse().flat_map(cap),
            decreases i,
        {
            i -= 1;
            let ghost before = output@;
            self.extend_mouse_dispatch_for(path[i], kind, DispatchPhase::Capture, button, false, output);
            proof {
                let tail = path@.subrange(i + 1, path@.len() as int).reverse();
                assert(path@.subrange(i as int, path@.len() as int).reverse() =~= tail.push(path@[i as int]));
                lemma_flat_map_push(tail, path@[i as int], cap);
                assert(output@ =~= outside + path@.subrange(i as int, path@.len() as int).reverse().flat_map(cap));
            }
        }
        assert(path@.subrange(0, path@.len() as int) == path@);
        let ghost captured = output@;
        let ghost bub = mouse_keys_of(mouse, kind, DispatchPhase::Bubble, button, false);
        let mut k: usize = 0;
        assert(path@.take(0) =~= Seq::<ElementId>::empty());
        assert(captured + Seq::<MouseListenerKey>::empty() == captured);
        while k < path.len()
            invariant
                k <= path@.len(),
                bub == mouse_keys_of(mouse, kind, DispatchPhase::Bubble, button, false),
                mouse == self.mouse@,
                output@ == captured + path@.take(k as int).flat_map(bub),
            decreases path.len() - k,
        {
            self.extend_mouse_dispatch_for(path[k], kind, DispatchPhase::Bubble, button, false, output);
            proof {
                assert(path@.take(k + 1) =~= path@.take(k as int).push(path@[k as int]));
                lemma_flat_map_push(path@.take(k as int), path@[k as int], bub);
                assert(output@ =~= captured + path@.take(k + 1).flat_map(bub));
            }
            k += 1;
        }
        assert(path@.take(path@.len() as int) =~= path@);
    }
    fn extend_key_dispatch_for(&self, id: ElementId, kind: KeyListenerKind, phase: DispatchPhase, output: &mut Vec<KeyListenerBinding>)
        ensures
            final(output)@ == old(output)@ + key_bindings_of(self.key@, kind, phase)(id),
    {
        let ghost start = output@;
        let ghost f = key_binding_if(kind, phase);
        match self.key.get(&id) {
            None => {
                assert(start + Seq::<KeyListenerBinding>::empty() == start);
            },
            Some(bindings) => {
                let mut j: usize = 0;
                assert(bindings@.take(0) =~= Seq::<KeyListenerBinding>::empty());
                assert(start + Seq::<KeyListenerBinding>::empty() == start);
                while j < bindings.len()
                    invariant
                        j <= bindings.len(),
                        f == key_binding_if(kind, phase),
                        output@ == start + bindings@.take(j as int).filter_map(f),
                    decreases bindings.len() - j,
                {
                    let b = bindings[j];
                    proof {
                        lemma_filter_map_step(bindings@, j as int, f);
                    }
                    if b.kind == kind && b.phase == phase {
                        output.push(b);
                        assert(start + bindings@.take(j as int).filter_map(f) + seq![b]
                            =~= start + (bindings@.take(j as int).filter_map(f) + seq![b]));
                    }
                    j += 1;
                }
                assert(bindings@.take(bindings@.len() as int) =~= bindings@);
            },
        }
    }

    /// Fills `output` with the key listeners of `kind` that an event on the focus `path` (root
    /// first) reaches, in dispatch order.
    pub fn collect_key_dispatch(&self, path: &[ElementId], kind: KeyListenerKind, output: &mut Vec<KeyListenerBinding>)
        ensures
            final(output)@ == key_dispatch(*self, path@, kind),
    {
        output.clear();
        let ghost cap = key_bindings_of(self.key@, kind, DispatchPhase::Capture);
        let mut k: usize = 0;
        assert(path@.take(0) =~= Seq::<ElementId>::empty());
        assert(output@ =~= path@.take(0).flat_map(cap));
        while k < path.len()
            invariant
                k <= path@.len(),
                cap == key_bindings_of(self.key@, kind, DispatchPhase::Capture),
                output@ == path@.take(k as int).flat_map(cap),
            decreases path.len() - k,
        {
            self.extend_key_dispatch_for(path[k], kind, DispatchPhase::Capture, output);
            proof {
                assert(path@.take(k + 1) =~= path@.take(k as int).push(path@[k as int]));
                lemma_flat_map_push(path@.take(k as int), path@[k as int], cap);
            }
            k += 1;
        }
        assert(path@.take(path@.len() as int) =~= path@);
        let ghost captured = output@;
        let ghost bub = key_bindings_of(self.key@, kind, DispatchPhase::Bubble);
        let mut i = path.len();
        assert(path@.subrange(i as int, i as int).reverse() =~= Seq::<ElementId>::empty());
        assert(captured + Seq::<KeyListenerBinding>::empty() == captured);
        while i > 0
            invariant
                i <= path@.len(),
                bub == key_bindings_of(self.key@, kind, DispatchPhase::Bubble),
                output@ == captured + path@.subrange(i as int, path@.len() as int).reverse().flat_map(bub),
            decreases i,
        {
            i -= 1;
            self.extend_key_dispatch_for(path[i], kind, DispatchPhase::Bubble, output);
            proof {
                let tail = path@.subrange(i + 1, path@.len() as int).reverse();
                assert(path@.subrange(i as int, path@.len() as int).reverse() =~= tail.push(path@[i as int]));
                lemma_flat_map_push(tail, path@[i as int], bub);
                assert(output@ =~= captured + path@.subrange(i as int, path@.len() as int).reverse().flat_map(bub));
            }
        }
        assert(path@.subrange(0, path@.len() as int) == path@);
    }

    fn extend_action_dispatch_for(&self, id: ElementId, action_type: u64, phase: DispatchPhase, output: &mut Vec<ActionListenerBinding>)
        ensures
            final(output)@ == old(output)@ + action_bindings_of(self.action@, action_type, phase)(id),
    {
        let ghost start = output@;
        let ghost f = action_binding_if(action_type, phase);
        match self.action.get(&id) {
            None => {
                assert(start + Seq::<ActionListenerBinding>::empty() == start);
            },
            Some(bindings) => {
                let mut j: usize = 0;
                assert(bindings@.take(0) =~= Seq::<ActionListenerBinding>::empty());
                assert(start + Seq::<ActionListenerBinding>::empty() == start);
                while j < bindings.len()
                    invariant
                        j <= bindings.len(),
                        f == action_binding_if(action_type, phase),
                        output@ == start + bindings@.take(j as int).filter_map(f),
                    decreases bindings.len() - j,
                {
                    let b = bindings[j];
                    proof {
                        lemma_filter_map_step(bindings@, j as int, f);
                    }
                    if b.action_type == action_type && b.phase == phase {
                        output.push(b);
                        assert(start + bindings@.take(j as int).filter_map(f) + seq![b]
                            =~= start + (bindings@.take(j as int).filter_map(f) + seq![b]));
                    }
                    j += 1;
                }
                assert(bindings@.take(bindings@.len() as int) =~= bindings@);
            },
        }
    }

    /// Fills `output` with the listeners of `action_type` that an action dispatched along the focus
    /// `path` (root first) reaches, in dispatch order.
    pub fn collect_action_dispatch(&self, path: &[ElementId], action_type: u64, output: &mut Vec<ActionListenerBinding>)
        ensures
            final(output)@ == action_dispatch(*self, path@, action_type),
    {
        output.clear();
        let ghost cap = action_bindings_of(self.action@, action_type, DispatchPhase::Capture);
        let mut k: usize = 0;
        assert(path@.take(0) =~= Seq::<ElementId>::empty());
        assert(output@ =~= path@.take(0).flat_map(cap));
        while k < path.len()
            invariant
                k <= path@.len(),
                cap == action_bindings_of(self.action@, action_type, DispatchPhase::Capture),
                output@ == path@.take(k as int).flat_map(cap),
            decreases path.len() - k,
        {
            self.extend_action_dispatch_for(path[k], action_type, DispatchPhase::Capture, output);
            proof {
                assert(path@.take(k + 1) =~= path@.take(k as int).push(path@[k as int]));
                lemma_flat_map_push(path@.take(k as int), path@[k as int], cap);
            }
            k += 1;
        }
        assert(path@.take(path@.len() as int) =~= path@);
        let ghost captured = output@;
        let ghost bub = action_bindings_of(self.action@, action_type, DispatchPhase::Bubble);
        let mut i = path.len();
        assert(path@.subrange(i as int, i as int).reverse() =~= Seq::<ElementId>::empty());
        assert(captured + Seq::<ActionListenerBinding>::empty() == captured);
        while i > 0
            invariant
                i <= path@.len(),
                bub == action_bindings_of(self.action@, action_type, DispatchPhase::Bubble),
                output@ == captured + path@.subrange(i as int, path@.len() as int).reverse().flat_map(bub),
            decreases i,
        {
            i -= 1;
            self.extend_action_dispatch_for(path[i], action_type, DispatchPhase::Bubble, output);
            proof {
                let tail = path@.subrange(i + 1, path@.len() as int).reverse();
                assert(path@.subrange(i as int, path@.len() as int).reverse() =~= tail.push(path@[i as int]));
                lemma_flat_map_push(tail, path@[i as int], bub);
                assert(output@ =~= captured + path@.subrange(i as int, path@.len() as int).reverse().flat_map(bub));
            }
        }
        assert(path@.subrange(0, path@.len() as int) == path@);
    }

    /// Whether some element of `path` listens for `action_type`.
    pub fn action_available(&self, path: &[ElementId], action_type: u64) -> (available: bool)
        ensures
            available == action_listened(*self, path@, action_type),
    {
        let mut i: usize = 0;
        while i < path.len()
            invariant
                i <= path@.len(),
                forall|a: int, j: int|
                    0 <= a < i && self.action@.contains_key(#[trigger] path@[a])
                        && 0 <= j < self.action@[path@[a]]@.len()
                        ==> (#[trigger] self.action@[path@[a]]@[j]).action_type != action_type,
            decreases path.len() - i,
        {
            if let Some(bindings) = self.action.get(&path[i]) {
                let mut j: usize = 0;
                while j < bindings.len()
                    invariant
                        j <= bindings@.len(),
                        i < path@.len(),
                        self.action@.contains_key(path@[i as int]),
                        *bindings == self.action@[path@[i as int]],
                        forall|b: int| 0 <= b < j ==> (#[trigger] bindings@[b]).action_type != action_type,
                    decreases bindings.len() - j,
                {
                    if bindings[j].action_type == action_type {
                        assert(self.action@[path@[i as int]]@[j as int].action_type == action_type);
                        assert(action_listened(*self, path@, action_type));
                        return true;
                    }
                    j += 1;
                }
            }
            i += 1;
        }
        false
    }
}

/// The element has a hover listener.
pub open spec fn has_hover_listener(mouse: Map<ElementId, Vec<MouseListenerBinding>>, id: ElementId) -> bool {
    mouse.contains_key(id) && exists|j: int| 0 <= j < mouse[id]@.len() && (#[trigger] mouse[id]@[j]).kind == MouseListenerKind::Hover
}

pub open spec fn hover_element_if(mouse: Map<ElementId, Vec<MouseListenerBinding>>) -> spec_fn(ElementId) -> Option<ElementId> {
    |id: ElementId| if has_hover_listener(mouse, id) { Some(id) } else { None }
}

/// The elements with hover listeners on the chain from the hit element up to the root, the hit
/// element first; empty when nothing is hit or the chain is longer than `max_path`.
pub open spec fn hover_path_of(
    parents: Map<ElementId, ElementId>, mouse: Map<ElementId, Vec<MouseListenerBinding>>, hit: Option<ElementId>,
    max_path: nat,
) -> Seq<ElementId> {
    match hit {
        None => Seq::empty(),
        Some(h) => match ancestor_chain(parents, h, max_path) {
            None => Seq::empty(),
            Some(chain) => chain.filter_map(hover_element_if(mouse)),
        },
    }
}

pub open spec fn hover_change_if(hovered: bool) -> spec_fn(MouseListenerBinding) -> Option<MouseHoverChange> {
    |b: MouseListenerBinding|
        if b.kind == MouseListenerKind::Hover { Some(MouseHoverChange { key: b.key, hovered }) } else { None }
}

/// One change for each hover listener of `id`, in declaration order.
pub open spec fn hover_changes_for(mouse: Map<ElementId, Vec<MouseListenerBinding>>, id: ElementId, hovered: bool)
    -> Seq<MouseHoverChange>
{
    if mouse.contains_key(id) { mouse[id]@.filter_map(hover_change_if(hovered)) } else { Seq::empty() }
}

pub open spec fn exit_changes_of(mouse: Map<ElementId, Vec<MouseListenerBinding>>, now: Seq<ElementId>)
    -> spec_fn(ElementId) -> Seq<MouseHoverChange>
{
    |id: ElementId| if now.contains(id) { Seq::empty() } else { hover_changes_for(mouse, id, false) }
}

pub open spec fn enter_changes_of(mouse: Map<ElementId, Vec<MouseListenerBinding>>, before: Seq<ElementId>)
    -> spec_fn(ElementId) -> Seq<MouseHoverChange>
{
    |id: ElementId| if before.contains(id) { Seq::empty() } else { hover_changes_for(mouse, id, true) }
}

/// Moving from the hover path `before` to `now`: the elements left, in the order of `before`
/// (innermost first), then the elements entered, outermost first.
pub open spec fn hover_transition(mouse: Map<ElementId, Vec<MouseListenerBinding>>, before: Seq<ElementId>, now: Seq<ElementId>)
    -> Seq<MouseHoverChange>
{
    before.flat_map(exit_changes_of(mouse, now)) + now.reverse().flat_map(enter_changes_of(mouse, before))
}

/// `pending` with as much of `extra` appended as fits in `cap` items.
pub open spec fn capped<T>(pending: Seq<T>, extra: Seq<T>, cap: nat) -> Seq<T> {
    if pending.len() >= cap {
        pending
    } else if pending.len() + extra.len() <= cap {
        pending + extra
    } else {
        (pending + extra).take(cap as int)
    }
}

pub proof fn lemma_capped_concat<T>(pending: Seq<T>, a: Seq<T>, b: Seq<T>, cap: nat)
    ensures
        capped(capped(pending, a, cap), b, cap) == capped(pending, a + b, cap),
{
    if pending.len() < cap {
        assert(pending + a + b =~= pending + (a + b));
        if pending.len() + a.len() > cap {
            assert((pending + a).take(cap as int) =~= (pending + (a + b)).take(cap as int));
        }
    }
}

proof fn lemma_capped_push<T>(pending: Seq<T>, x: T, cap: nat)
    ensures
        capped(pending, seq![x], cap) == if pending.len() < cap { pending.push(x) } else { pending },
{
    assert(pending + seq![x] =~= pending.push(x));
}

proof fn lemma_flat_map_all_empty<A, B>(s: Seq<A>, f: spec_fn(A) -> Seq<B>)
    requires
        forall|i: int| 0 <= i < s.len() ==> f(#[trigger] s[i]) == Seq::<B>::empty(),
    ensures
        s.flat_map(f) == Seq::<B>::empty(),
    decreases s.len(),
{
    if s.len() > 0 {
        let init = s.drop_last();
        assert forall|i: int| 0 <= i < init.len() implies f(#[trigger] init[i]) == Seq::<B>::empty() by {
            assert(init[i] == s[i]);
        }
        lemma_flat_map_all_empty(init, f);
        assert(s == init.push(s.last()));
        lemma_flat_map_push(init, s.last(), f);
        assert(f(s.last()) == Seq::<B>::empty());
        assert(s.flat_map(f) =~= Seq::<B>::empty());
    }
}

/// Refreshing hover without the hover path changing queues nothing: every element of the path
/// is neither left nor entered.
pub proof fn lemma_unchanged_hover_queues_nothing(
    mouse: Map<ElementId, Vec<MouseListenerBinding>>, path: Seq<ElementId>, pending: Seq<MouseHoverChange>, cap: nat,
)
    ensures
        hover_transition(mouse, path, path) == Seq::<MouseHoverChange>::empty(),
        capped(pending, hover_transition(mouse, path, path), cap) == pending,
{
    let exit = exit_changes_of(mouse, path);
    let enter = enter_changes_of(mouse, path);
    assert forall|i: int| 0 <= i < path.len() implies exit(#[trigger] path[i]) == Seq::<MouseHoverChange>::empty() by {
        assert(path.contains(path[i]));
    }
    lemma_flat_map_all_empty(path, exit);
    let rev = path.reverse();
    assert forall|i: int| 0 <= i < rev.len() implies enter(#[trigger] rev[i]) == Seq::<MouseHoverChange>::empty() by {
        assert(rev[i] == path[path.len() - 1 - i]);
        assert(path.contains(rev[i]));
    }
    lemma_flat_map_all_empty(rev, enter);
    assert(hover_transition(mouse, path, path) =~= Seq::<MouseHoverChange>::empty());
    assert(pending + Seq::<MouseHoverChange>::empty() =~= pending);
}

/// Which hover listeners the pointer is over, and the enter and leave changes not yet handed out.
pub struct MouseHoverState {
    /// The hover path of the last refresh (see `hover_path_of`).
    pub path: Vec<ElementId>,
    pub pending: Vec<MouseHoverChange>,
}

impl MouseHoverState {
    pub fn new() -> (state: MouseHoverState)
        ensures
            state.path@ == Seq::<ElementId>::empty(),
            state.pending@ == Seq::<MouseHoverChange>::empty(),
    {
        MouseHoverState { path: Vec::new(), pending: Vec::new() }
    }

    fn push_mouse_hover_changes(&mut self, mouse: &HashMap<ElementId, Vec<MouseListenerBinding>>, id: ElementId, hovered: bool, cap: usize)
        ensures
            final(self).pending@ == capped(old(self).pending@, hover_changes_for(mouse@, id, hovered), cap as nat),
            final(self).path == old(self).path,
    {
        let ghost start = self.pending@;
        let ghost g = hover_change_if(hovered);
        match mouse.get(&id) {
            None => {},
            Some(bindings) => {
                let mut j: usize = 0;
                assert(bindings@.take(0) =~= Seq::<MouseListenerBinding>::empty());
                assert(start + Seq::<MouseHoverChange>::empty() =~= start);
                while j < bindings.len()
                    invariant
                        j <= bindings@.len(),
                        g == hover_change_if(hovered),
                        self.path == old(self).path,
                        start == old(self).pending@,
                        self.pending@ == capped(start, bindings@.take(j as int).filter_map(g), cap as nat),
                    decreases bindings.len() - j,
                {
                    let b = bindings[j];
                    proof {
                        lemma_filter_map_step(bindings@, j as int, g);
                    }
                    if b.kind == MouseListenerKind::Hover {
                        let change = MouseHoverChange { key: b.key, hovered };
                        proof {
                            lemma_capped_concat(start, bindings@.take(j as int).filter_map(g), seq![change], cap as nat);
                            lemma_capped_push(self.pending@, change, cap as nat);
                        }
                        if self.pending.len() < cap {
                            self.pending.push(change);
                        }
                    }
                    j += 1;
                }
                assert(bindings@.take(bindings@.len() as int) =~= bindings@);
            },
        }
        proof {
            if !mouse@.contains_key(id) {
                assert(start + Seq::<MouseHoverChange>::empty() =~= start);
            }
        }
    }

    #[verifier::rlimit(40)]
    /// Moves the hover path to the one through `hit` (the topmost element under the pointer, none
    /// when nothing is hit or a drag is in progress) and queues an enter or leave change for each
    /// hover listener of the elements entered or left, up to `cap` queued changes.
    pub fn refresh_mouse_hover(&mut self, index: &DispatchIndex, hit: Option<ElementId>, max_path: usize, cap: usize)
        ensures
            final(self).path@ == hover_path_of(index.parents@, index.listeners.mouse@, hit, max_path as nat),
            final(self).pending@ == capped(
                old(self).pending@,
                hover_transition(index.listeners.mouse@, old(self).path@, final(self).path@),
                cap as nat,
            ),
    {
        let mouse = &index.listeners.mouse;
        let ghost m = mouse@;
        let mut now: Vec<ElementId> = Vec::new();
        if let Some(h) = hit {
            let mut chain: Vec<ElementId> = Vec::new();
            if index.mouse_event_path_for_target(h, &mut chain, max_path) {
                let ghost f = hover_element_if(m);
                let mut k: usize = 0;
                assert(chain@.take(0) =~= Seq::<ElementId>::empty());
                while k < chain.len()
                    invariant
                        k <= chain@.len(),
                        f == hover_element_if(m),
                        m == mouse@,
                        now@ == chain@.take(k as int).filter_map(f),
                    decreases chain.len() - k,
                {
                    let id = chain[k];
                    proof {
                        lemma_filter_map_step(chain@, k as int, f);
                    }
                    if let Some(bindings) = mouse.get(&id) {
                        let mut j: usize = 0;
                        let mut found = false;
                        while j < bindings.len()
                            invariant
                                j <= bindings@.len(),
                                m.contains_key(id),
                                *bindings == m[id],
                                found == exists|b: int| 0 <= b < j && (#[trigger] bindings@[b]).kind == MouseListenerKind::Hover,
                            decreases bindings.len() - j,
                        {
                            if bindings[j].kind == MouseListenerKind::Hover {
                                found = true;
                            }
                            j += 1;
                        }
                        if found {
                            now.push(id);
                        }
                    }
                    k += 1;
                }
                assert(chain@.take(chain@.len() as int) =~= chain@);
            }
        }
        let ghost before = self.path@;
        let ghost start = self.pending@;
        let ghost exit = exit_changes_of(m, now@);
        let mut i: usize = 0;
        assert(before.take(0) =~= Seq::<ElementId>::empty());
        assert(start + Seq::<MouseHoverChange>::empty() =~= start);
        while i < self.path.len()
            invariant
                i <= before.len(),
                before == self.path@,
                m == mouse@,
                exit == exit_changes_of(m, now@),
                self.pending@ == capped(start, before.take(i as int).flat_map(exit), cap as nat),
            decreases before.len() - i,
        {
            let id = self.path[i];
            proof {
                assert(before.take(i + 1) =~= before.take(i as int).push(id));
                lemma_flat_map_push(before.take(i as int), id, exit);
                lemma_capped_concat(start, before.take(i as int).flat_map(exit), exit(id), cap as nat);
            }
            if !contains_id(now.as_slice(), id) {
                self.push_mouse_hover_changes(mouse, id, false, cap);
            } else {
                assert(before.take(i as int).flat_map(exit) + exit(id) =~= before.take(i as int).flat_map(exit));
            }
            i += 1;
        }
        assert(before.take(before.len() as int) =~= before);
        let ghost exited = self.pending@;
        let ghost enter = enter_changes_of(m, before);
        let mut i = now.len();
        assert(now@.subrange(i as int, i as int).reverse() =~= Seq::<ElementId>::empty());
        assert(before.flat_map(exit) + Seq::<MouseHoverChange>::empty() =~= before.flat_map(exit));
        while i > 0
            invariant
                i <= now@.len(),
                before == self.path@,
                m == mouse@,
                enter == enter_changes_of(m, before),
                exit == exit_changes_of(m, now@),
                self.pending@ == capped(start,
                    before.flat_map(exit) + now@.subrange(i as int, now@.len() as int).reverse().flat_map(enter), cap as nat),
            decreases i,
        {
            i -= 1;
            let id = now[i];
            let ghost tail = now@.subrange(i + 1, now@.len() as int).reverse();
            let ghost pre = before.flat_map(exit) + tail.flat_map(enter);
            proof {
                assert(now@.subrange(i as int, now@.len() as int).reverse() =~= tail.push(id));
                lemma_flat_map_push(tail, id, enter);
                lemma_capped_concat(start, pre, enter(id), cap as nat);
                assert(pre + enter(id) =~= before.flat_map(exit) + (tail.flat_map(enter) + enter(id)));
            }
            if !contains_id(self.path.as_slice(), id) {
                self.push_mouse_hover_changes(mouse, id, true, cap);
            } else {
                assert(pre + enter(id) =~= pre);
            }
        }
        assert(now@.subrange(0, now@.len() as int) == now@);
        self.path = now;
    }

    /// Hands the queued hover changes to `output`, oldest first.
    pub fn take_mouse_hover_changes(&mut self, output: &mut Vec<MouseHoverChange>)
        ensures
            final(output)@ == old(output)@ + old(self).pending@,
            final(self).pending@ == Seq::<MouseHoverChange>::empty(),
            final(self).path == old(self).path,
    {
        output.append(&mut self.pending);
    }
}

/// The key contexts declared along the focus path, root first.
pub open spec fn key_context_stack_of(index: DispatchIndex, root: Option<ElementId>, focused: Option<ElementId>, max_path: nat)
    -> Seq<String>
{
    focus_path_of(index.parents@, root, focused, max_path).filter_map(
        |id: ElementId| if index.listeners.key_contexts@.contains_key(id) { Some(index.listeners.key_contexts@[id]) } else { None },
    )
}

impl DispatchIndex {
    /// The key contexts declared along the focus path (see `focus_path`), root first.
    pub fn key_context_stack(&self, root: Option<ElementId>, focused: Option<ElementId>, max_path: usize) -> (stack: Vec<String>)
        requires
            max_path >= 1,
        ensures
            stack@ == key_context_stack_of(*self, root, focused, max_path as nat),
    {
        let path = self.focus_path(root, focused, max_path);
        let ghost f = |id: ElementId|
            if self.listeners.key_contexts@.contains_key(id) { Some(self.listeners.key_contexts@[id]) } else { None };
        let mut stack: Vec<String> = Vec::new();
        let mut i: usize = 0;
        assert(path@.take(0) =~= Seq::<ElementId>::empty());
        while i < path.len()
            invariant
                i <= path@.len(),
                f == (|id: ElementId|
                    if self.listeners.key_contexts@.contains_key(id) { Some(self.listeners.key_contexts@[id]) } else { None }),
                stack@ == path@.take(i as int).filter_map(f),
            decreases path.len() - i,
        {
            proof {
                lemma_filter_map_step(path@, i as int, f);
            }
            if let Some(context) = self.listeners.key_contexts.get(&path[i]) {
                stack.push(context.clone());
            }
            i += 1;
        }
        assert(path@.take(path@.len() as int) =~= path@);
        stack
    }
}

} // verus!
