use vstd::prelude::*;
use std::collections::HashSet;
use crate::element::{Element, ElementId, ElementKind, keep_all, preorder};
use crate::tree::{find_element, has_id};
use crate::traverse::first_match;
use crate::dispatch::climb;
use crate::listeners::{capped, hover_path_of, hover_transition};
use crate::retain::set_members;
use crate::animation::ScrollbarState;
use crate::dismiss::DismissRequest;
use crate::mounted::{MountedState, PointerState, StaticTextClick, StaticTextGesture, TextState, TooltipState, reconciled};
use crate::selection::{StaticTextPosition, StaticTextSelection, StaticTextSelectionUnit, spec_position_key, static_position_key};
use crate::selectable::{entries_view, spec_selected_static_text, static_selection_unit_range, unit_range_ok};

verus! {

broadcast use {vstd::std_specs::vec::group_vec_axioms, vstd::std_specs::hash::group_hash_axioms};

/// How long after a click on immutable text another click on the same leaf continues the
/// series (nanoseconds).
pub const STATIC_TEXT_MULTI_CLICK_INTERVAL: u64 = 500_000_000;

/// The topmost clickable or focusable element under the pointer.
#[derive(Clone, Copy, Debug, PartialEq, Eq, Structural)]
pub struct InteractiveHit {
    pub id: ElementId,
    pub clickable: bool,
    pub focusable: bool,
}

/// What lies under the pointer when a button goes down or up, as the platform layer measures it
/// against the painted regions.
#[derive(Clone, Copy, Debug, PartialEq, Eq, Structural)]
pub struct PointerHits {
    /// The close request of the topmost dismissible surface, when a press outside it asks for
    /// one (see `dismiss_request_for_pointer`).
    pub dismiss: Option<DismissRequest>,
    /// The immutable-text position under the pointer.
    pub static_position: Option<StaticTextPosition>,
    /// The pointer is within the multi-click distance of the latest click on immutable text.
    pub near_last_click: bool,
    /// The topmost pointer-listening element, unless a pointer blocker covers it.
    pub pointer_listener: Option<ElementId>,
    /// The topmost drag source, unless a pointer blocker or listener covers it.
    pub drag_source: Option<ElementId>,
    pub region: Option<InteractiveHit>,
    /// Where the caret lands in the text input of `region`, when that input is laid out.
    pub input_index: Option<usize>,
}

/// The caret of a text input moves to byte `index` (extending its selection when `extend`).
#[derive(Clone, Copy, Debug, PartialEq, Eq, Structural)]
pub struct CaretPlacement {
    pub id: ElementId,
    pub index: usize,
    pub extend: bool,
}

/// What a button press or release did. `caret`, when present, is still to be applied to the
/// text input's editing state, and a selection change there still asks for a repaint.
#[derive(Clone, Copy, Debug, PartialEq, Eq, Structural)]
pub struct PointerResult {
    pub repaint: bool,
    pub clicked: Option<ElementId>,
    pub dismissed: Option<DismissRequest>,
    pub pointer_listener: Option<ElementId>,
    pub drag_source: Option<ElementId>,
    pub caret: Option<CaretPlacement>,
}

/// How many clicks in a row a click on leaf `id` at `now` ends: the latest click's count plus
/// one (wrapping after three) when it was on the same leaf, at most `interval` earlier and
/// near enough; else one.
pub open spec fn click_count(last: Option<StaticTextClick>, id: ElementId, now: u64, near: bool, interval: u64) -> u8 {
    match last {
        Some(c) => if c.id == id && (now <= c.at || now - c.at <= interval) && near {
            if c.count >= 3 { 1 } else { (c.count + 1) as u8 }
        } else {
            1
        },
        None => 1,
    }
}

/// A double click selects a word, a triple click a line.
pub open spec fn unit_for_count(count: u8) -> StaticTextSelectionUnit {
    if count == 2 {
        StaticTextSelectionUnit::Word
    } else if count == 3 {
        StaticTextSelectionUnit::Line
    } else {
        StaticTextSelectionUnit::Character
    }
}

/// The tooltip state once any tooltip is hidden and the pointer's is forgotten.
pub open spec fn cleared_tooltips(t: TooltipState) -> TooltipState {
    TooltipState { overlay: false, hovered: None, pointer: None, pending: None, visible: None, ..t }
}

/// The element a press presses (and its release may click): the clickable region under the
/// pointer.
pub open spec fn press_target(hits: PointerHits) -> Option<ElementId> {
    match hits.region {
        Some(r) => if r.clickable { Some(r.id) } else { None },
        None => None,
    }
}

/// The element a press focuses: the focusable region under the pointer, when it takes focus.
pub open spec fn press_focus(focusable: Set<ElementId>, hits: PointerHits) -> Option<ElementId> {
    match hits.region {
        Some(r) => if r.focusable && focusable.contains(r.id) { Some(r.id) } else { None },
        None => None,
    }
}

/// The text input under the pointer whose caret a press places.
pub open spec fn press_caret(text_inputs: Set<ElementId>, hits: PointerHits, extend: bool) -> Option<CaretPlacement> {
    match (hits.region, hits.input_index) {
        (Some(r), Some(index)) => if text_inputs.contains(r.id) {
            Some(CaretPlacement { id: r.id, index, extend })
        } else {
            None
        },
        _ => None,
    }
}

/// The gesture and selection a press on immutable text at `p` starts (with click unit `unit`):
/// extending keeps the selection's anchor (or starts at `p`); otherwise the unit around `p` is
/// selected, or just the caret when `p`'s leaf is gone.
pub open spec fn static_press(
    t: TextState, p: StaticTextPosition, unit: StaticTextSelectionUnit, extend: bool,
    gesture: StaticTextGesture, selection: StaticTextSelection,
) -> bool {
    let anchor = match t.static_text_selection {
        Some(s) => if extend { s.anchor } else { p },
        None => p,
    };
    let indices = t.selectable_text_indices@;
    &&& gesture.unit == unit
    &&& gesture.moved == (unit != StaticTextSelectionUnit::Character)
    &&& if extend {
        &&& gesture.base_start == anchor && gesture.base_end == anchor
        &&& selection == (StaticTextSelection { anchor, focus: p })
    } else {
        &&& if indices.contains_key(p.id) && indices[p.id] < t.selectable_texts.len() {
            unit_range_ok(p, unit, t.selectable_texts[indices[p.id] as int].content@, (gesture.base_start, gesture.base_end))
        } else {
            gesture.base_start == p && gesture.base_end == p
        }
        &&& selection == (StaticTextSelection { anchor: gesture.base_start, focus: gesture.base_end })
    }
}

/// What a button press (`pressed`) or release over `hits` does to the mounted state `old`,
/// giving `new` and `result` (see `MountedState::pointer_button`).
pub open spec fn button_outcome(
    old: MountedState, new: MountedState, hits: PointerHits, pressed: bool, extend: bool, now: u64, interval: u64,
    result: PointerResult,
) -> bool {
    &&& (!pressed ==> {
        let suppress = match old.text.static_text_gesture {
            Some(g) => g.moved,
            None => false,
        };
        &&& result == (PointerResult {
            repaint: old.pointer.pressed is Some,
            clicked: match old.pointer.pressed {
                Some(p) => if !suppress && press_target(hits) == Some(p) { Some(p) } else { None },
                None => None,
            },
            dismissed: None,
            pointer_listener: None,
            drag_source: None,
            caret: None,
        })
        &&& new.pointer == (PointerState { pressed: None, ..old.pointer })
        &&& new.text == (TextState { selecting_input: None, static_text_gesture: None, ..old.text })
        &&& new.focus == old.focus
        &&& new.tooltips == old.tooltips
    })
    &&& (pressed && hits.dismiss is Some ==> {
        &&& result == (PointerResult {
            repaint: old.pointer.pressed is Some || old.tooltips.visible is Some,
            clicked: None,
            dismissed: hits.dismiss,
            pointer_listener: None,
            drag_source: None,
            caret: None,
        })
        &&& new.pointer == (PointerState { pressed: None, ..old.pointer })
        &&& new.text == (TextState { selecting_input: None, static_text_gesture: None, ..old.text })
        &&& new.focus == old.focus
        &&& new.tooltips == cleared_tooltips(old.tooltips)
    })
    &&& (pressed && hits.dismiss is None ==> {
        let cleared = cleared_tooltips(old.tooltips);
        let listener = if hits.static_position is None { hits.pointer_listener } else { None };
        let drag = if listener is None && hits.static_position is None { hits.drag_source } else { None };
        let caret = if hits.static_position is None {
            press_caret(old.text.text_inputs@, hits, extend)
        } else {
            None
        };
        &&& result.clicked is None && result.dismissed is None
        &&& result.pointer_listener == listener && result.drag_source == drag && result.caret == caret
        &&& new.pointer == (PointerState { pressed: press_target(hits), ..old.pointer })
        &&& new.text.selecting_input == (match caret {
            Some(c) => Some(c.id),
            None => None,
        })
        &&& match hits.static_position {
            Some(p) => {
                let count = click_count(old.text.last_static_text_click, p.id, now, hits.near_last_click, interval);
                let unit = if extend { StaticTextSelectionUnit::Character } else { unit_for_count(count) };
                &&& new.focus.focused is None
                &&& new.tooltips == if old.focus.focused is Some {
                    reconciled(cleared, None, old.dispatch.parents@, now).0
                } else {
                    cleared
                }
                &&& new.text.last_static_text_click == (if extend {
                    None
                } else {
                    Some(StaticTextClick { id: p.id, at: now, count })
                })
                &&& new.text.static_text_gesture matches Some(g)
                    && new.text.static_text_selection matches Some(sel)
                    && static_press(old.text, p, unit, extend, g, sel)
                &&& result.repaint == (old.pointer.pressed != press_target(hits)
                    || old.focus.focused is Some
                    || old.text.static_text_selection != new.text.static_text_selection
                    || old.tooltips.visible is Some)
            },
            None => {
                let focus_to = press_focus(old.focus.focusable_ids@, hits);
                &&& new.focus.focused == (match focus_to {
                    Some(id) => Some(id),
                    None => old.focus.focused,
                })
                &&& new.tooltips == cleared
                &&& new.text.static_text_selection is None
                &&& new.text.static_text_gesture is None
                &&& new.text.last_static_text_click == old.text.last_static_text_click
                &&& result.repaint == (old.pointer.pressed != press_target(hits)
                    || (focus_to is Some && old.focus.focused != focus_to)
                    || old.text.static_text_selection is Some
                    || old.tooltips.visible is Some)
            },
        }
        &&& new.text.text_inputs == old.text.text_inputs
        &&& new.text.selectable_texts == old.text.selectable_texts
        &&& new.text.selectable_text_indices == old.text.selectable_text_indices
        &&& new.focus.focusable_ids == old.focus.focusable_ids
        &&& new.focus.focus_order == old.focus.focus_order
    })
    &&& new.membership == old.membership
    &&& new.dispatch == old.dispatch
    &&& new.motion == old.motion
}

/// A release clicks only the element that was pressed, and only when it is still the clickable
/// element under the pointer.
pub proof fn lemma_release_clicks_only_the_pressed_target(
    old: MountedState, new: MountedState, hits: PointerHits, extend: bool, now: u64, interval: u64, result: PointerResult,
)
    requires
        button_outcome(old, new, hits, false, extend, now, interval, result),
    ensures
        result.clicked matches Some(id) ==> old.pointer.pressed == Some(id) && press_target(hits) == Some(id),
        new.pointer.pressed is None,
{
}

/// A press on a clickable element that dismisses nothing and lands on no immutable text,
/// followed by a release with that element still under the pointer, clicks it.
pub proof fn lemma_press_then_release_clicks(
    s0: MountedState, s1: MountedState, s2: MountedState, press: PointerHits, release: PointerHits,
    extend: bool, t1: u64, t2: u64, interval: u64, r1: PointerResult, r2: PointerResult,
)
    requires
        button_outcome(s0, s1, press, true, extend, t1, interval, r1),
        button_outcome(s1, s2, release, false, extend, t2, interval, r2),
        press.dismiss is None,
        press.static_position is None,
        press_target(press) is Some,
        press_target(release) == press_target(press),
    ensures
        r2.clicked == press_target(press),
{
}

/// A press that dismisses a surface never clicks on its release.
pub proof fn lemma_dismissing_press_never_clicks(
    s0: MountedState, s1: MountedState, s2: MountedState, press: PointerHits, release: PointerHits,
    extend: bool, t1: u64, t2: u64, interval: u64, r1: PointerResult, r2: PointerResult,
)
    requires
        button_outcome(s0, s1, press, true, extend, t1, interval, r1),
        button_outcome(s1, s2, release, false, extend, t2, interval, r2),
        press.dismiss is Some,
    ensures
        r1.dismissed == press.dismiss,
        r2.clicked is None,
{
}

impl TextState {
    /// Records a click on immutable text at `position` and returns the unit it selects (see
    /// `click_count`); a click that extends the selection selects by character and starts no
    /// series.
    pub fn static_text_click_unit(&mut self, position: StaticTextPosition, now: u64, extend: bool, near: bool, interval: u64)
        -> (unit: StaticTextSelectionUnit)
        ensures
            unit == (if extend {
                StaticTextSelectionUnit::Character
            } else {
                unit_for_count(click_count(old(self).last_static_text_click, position.id, now, near, interval))
            }),
            final(self).last_static_text_click == (if extend {
                None
            } else {
                Some(StaticTextClick {
                    id: position.id,
                    at: now,
                    count: click_count(old(self).last_static_text_click, position.id, now, near, interval),
                })
            }),
            final(self).text_inputs == old(self).text_inputs,
            final(self).selecting_input == old(self).selecting_input,
            final(self).selectable_texts == old(self).selectable_texts,
            final(self).selectable_text_indices == old(self).selectable_text_indices,
            final(self).static_text_selection == old(self).static_text_selection,
            final(self).static_text_gesture == old(self).static_text_gesture,
    {
        if extend {
            self.last_static_text_click = None;
            return StaticTextSelectionUnit::Character;
        }
        let count: u8 = match self.last_static_text_click {
            Some(c) => if c.id == position.id && (now <= c.at || now - c.at <= interval) && near {
                if c.count >= 3 { 1 } else { c.count + 1 }
            } else {
                1
            },
            None => 1,
        };
        self.last_static_text_click = Some(StaticTextClick { id: position.id, at: now, count });
        if count == 2 {
            StaticTextSelectionUnit::Word
        } else if count == 3 {
            StaticTextSelectionUnit::Line
        } else {
            StaticTextSelectionUnit::Character
        }
    }
}

/// Document order on position keys, an unmounted position (no key) first.
pub open spec fn key_before(a: Option<(usize, usize)>, b: Option<(usize, usize)>) -> bool {
    match (a, b) {
        (None, Some(_)) => true,
        (Some(x), Some(y)) => x.0 < y.0 || (x.0 == y.0 && x.1 < y.1),
        _ => false,
    }
}

/// `(start, end)` is the range of `unit` around `p` (just `p` when its leaf is gone).
pub open spec fn unit_range_at(t: TextState, p: StaticTextPosition, unit: StaticTextSelectionUnit, start: StaticTextPosition, end: StaticTextPosition) -> bool {
    let indices = t.selectable_text_indices@;
    if indices.contains_key(p.id) && indices[p.id] < t.selectable_texts.len() {
        unit_range_ok(p, unit, t.selectable_texts[indices[p.id] as int].content@, (start, end))
    } else {
        start == p && end == p
    }
}

/// The selection a drag to the range `(start, end)` makes: it keeps the gesture's base range
/// and reaches back to `start` when that lies before the base, else forward to `end`.
pub open spec fn dragged_selection(indices: Map<ElementId, usize>, g: StaticTextGesture, start: StaticTextPosition, end: StaticTextPosition)
    -> StaticTextSelection
{
    if key_before(spec_position_key(start, indices), spec_position_key(g.base_start, indices)) {
        StaticTextSelection { anchor: g.base_end, focus: start }
    } else {
        StaticTextSelection { anchor: g.base_start, focus: end }
    }
}

fn position_key_before(a: Option<(usize, usize)>, b: Option<(usize, usize)>) -> (before: bool)
    ensures
        before == key_before(a, b),
{
    match (a, b) {
        (None, Some(_)) => true,
        (Some(x), Some(y)) => x.0 < y.0 || (x.0 == y.0 && x.1 < y.1),
        _ => false,
    }
}

/// The text state after the pointer of an immutable-text gesture moved to `next` (see
/// `TextState::extend_static_text_drag`), and whether the selection changed.
pub open spec fn static_drag(old: TextState, new: TextState, next: Option<StaticTextPosition>, travelled: bool, changed: bool) -> bool {
    &&& match (old.static_text_gesture, next) {
        (Some(g), Some(p)) => {
            &&& exists|start: StaticTextPosition, end: StaticTextPosition|
                unit_range_at(old, p, g.unit, start, end)
                    && new.static_text_selection == Some(dragged_selection(old.selectable_text_indices@, g, start, end))
            &&& new.static_text_gesture == Some(StaticTextGesture { moved: g.moved || travelled, ..g })
            &&& changed == (old.static_text_selection != new.static_text_selection)
        },
        _ => {
            &&& !changed
            &&& new.static_text_selection == old.static_text_selection
            &&& new.static_text_gesture == old.static_text_gesture
        },
    }
    &&& new.text_inputs == old.text_inputs
    &&& new.selecting_input == old.selecting_input
    &&& new.selectable_texts == old.selectable_texts
    &&& new.selectable_text_indices == old.selectable_text_indices
    &&& new.last_static_text_click == old.last_static_text_click
}

/// The tooltip the pointer engages: the nearest element at or above `hit` that declares one.
pub open spec fn pointer_tooltip_owner(t: TooltipState, parents: Map<ElementId, ElementId>, hit: Option<ElementId>) -> Option<ElementId> {
    match hit {
        Some(h) => climb(parents, t.tooltips@.dom(), h, parents.len()),
        None => None,
    }
}

/// What lies under the pointer after it moved, as the platform layer measures it.
pub struct PointerMove {
    /// The elements with interaction-state styles under the pointer, down to the first pointer
    /// blocker or listener.
    pub hovered: Vec<ElementId>,
    /// The topmost element under the pointer.
    pub hit: Option<ElementId>,
    /// Where the caret of the text input being selected lands, when that input is laid out.
    pub input_index: Option<usize>,
    /// The immutable-text position under the pointer.
    pub static_position: Option<StaticTextPosition>,
    /// The pointer is at least the drag distance away from where the immutable-text press
    /// landed.
    pub travelled: bool,
}

/// What a pointer move did; `caret`, when present, extends the selection of the text input
/// being selected, and a change there (or in its scroll position) still asks for a repaint.
#[derive(Clone, Copy, Debug, PartialEq, Eq, Structural)]
pub struct PointerMoveResult {
    pub repaint: bool,
    pub caret: Option<CaretPlacement>,
}

fn same_members(a: &HashSet<ElementId>, b: &HashSet<ElementId>) -> (same: bool)
    ensures
        same == (a@ == b@),
{
    let members = set_members(a);
    let mut i: usize = 0;
    while i < members.len()
        invariant
            i <= members@.len(),
            members@.to_set() == a@,
            forall|j: int| 0 <= j < i ==> b@.contains(#[trigger] members@[j]),
        decreases members.len() - i,
    {
        if !b.contains(&members[i]) {
            proof {
                assert(members@.to_set().contains(members@[i as int]));
                assert(a@.contains(members@[i as int]));
            }
            return false;
        }
        i += 1;
    }
    let others = set_members(b);
    let mut k: usize = 0;
    while k < others.len()
        invariant
            k <= others@.len(),
            others@.to_set() == b@,
            forall|j: int| 0 <= j < k ==> a@.contains(#[trigger] others@[j]),
        decreases others.len() - k,
    {
        if !a.contains(&others[k]) {
            proof {
                assert(others@.to_set().contains(others@[k as int]));
                assert(b@.contains(others@[k as int]));
            }
            return false;
        }
        k += 1;
    }
    proof {
        assert forall|id: ElementId| a@.contains(id) implies b@.contains(id) by {
            assert(members@.to_set().contains(id));
            let j = choose|j: int| 0 <= j < members@.len() && members@[j] == id;
            assert(b@.contains(members@[j]));
        }
        assert forall|id: ElementId| b@.contains(id) implies a@.contains(id) by {
            assert(others@.to_set().contains(id));
            let j = choose|j: int| 0 <= j < others@.len() && others@[j] == id;
            assert(a@.contains(others@[j]));
        }
        assert(a@ =~= b@);
    }
    true
}

impl TextState {
    /// The pointer moved during an immutable-text gesture to the text position `next` (none when
    /// it is over no immutable text); `travelled` tells that it is now at least the drag distance
    /// away from the press. The selection follows the pointer by the gesture's unit (see
    /// `dragged_selection`) and a gesture that travelled stops counting as a click. Whether the
    /// selection changed.
    pub fn extend_static_text_drag(&mut self, next: Option<StaticTextPosition>, travelled: bool) -> (changed: bool)
        ensures
            static_drag(*old(self), *final(self), next, travelled, changed),
    {
        let gesture = match self.static_text_gesture {
            Some(g) => g,
            None => return false,
        };
        let position = match next {
            Some(p) => p,
            None => return false,
        };
        let (start, end) = match static_selection_unit_range(position, gesture.unit, &self.selectable_texts, &self.selectable_text_indices) {
            Some(range) => range,
            None => (position, position),
        };
        let backward = position_key_before(
            static_position_key(start, &self.selectable_text_indices),
            static_position_key(gesture.base_start, &self.selectable_text_indices),
        );
        let selection = if backward {
            StaticTextSelection { anchor: gesture.base_end, focus: start }
        } else {
            StaticTextSelection { anchor: gesture.base_start, focus: end }
        };
        let changed = match self.static_text_selection {
            Some(current) => current != selection,
            None => true,
        };
        self.static_text_selection = Some(selection);
        self.static_text_gesture = Some(StaticTextGesture { moved: gesture.moved || travelled, ..gesture });
        assert(unit_range_at(*old(self), position, gesture.unit, start, end));
        changed
    }
}

impl MountedState {
    /// A button goes down (`pressed`) or up with the pointer over `hits`.
    ///
    /// A press first hides any tooltip. A press that a dismissible surface answers (see
    /// `PointerHits::dismiss`) only ends the pointer's interaction and reports the dismissal.
    /// Otherwise a press on immutable text blurs focus, counts the click and starts a selection
    /// gesture (see `static_press`); a press elsewhere focuses the focusable element under the
    /// pointer, drops the immutable-text selection and places the caret of a text input under it.
    /// Either way the clickable element under the pointer becomes the pressed one. A release
    /// clicks the pressed element when it is still under the pointer and no drag selection moved
    /// since the press.
    pub fn pointer_button(&mut self, hits: PointerHits, pressed: bool, extend_selection: bool, now: u64, interval: u64)
        -> (result: PointerResult)
        ensures
            button_outcome(*old(self), *final(self), hits, pressed, extend_selection, now, interval, result),
    {
        if !pressed {
            self.text.selecting_input = None;
            let suppress = match self.text.static_text_gesture {
                Some(g) => g.moved,
                None => false,
            };
            self.text.static_text_gesture = None;
            let target = match hits.region {
                Some(r) => if r.clickable { Some(r.id) } else { None },
                None => None,
            };
            let clicked = match self.pointer.pressed {
                Some(p) => if !suppress && target == Some(p) { Some(p) } else { None },
                None => None,
            };
            let repaint = self.pointer.pressed.is_some();
            self.pointer.pressed = None;
            return PointerResult { repaint, clicked, dismissed: None, pointer_listener: None, drag_source: None, caret: None };
        }
        let tooltip_repaint = self.clear_tooltip();
        if let Some(dismiss) = hits.dismiss {
            self.text.selecting_input = None;
            self.text.static_text_gesture = None;
            let repaint = self.pointer.pressed.is_some() || tooltip_repaint;
            self.pointer.pressed = None;
            return PointerResult {
                repaint,
                clicked: None,
                dismissed: Some(dismiss),
                pointer_listener: None,
                drag_source: None,
                caret: None,
            };
        }
        let static_position = hits.static_position;
        let pointer_listener = if static_position.is_none() { hits.pointer_listener } else { None };
        let drag_source = if pointer_listener.is_none() && static_position.is_none() { hits.drag_source } else { None };
        let target = match hits.region {
            Some(r) => if r.clickable { Some(r.id) } else { None },
            None => None,
        };
        let ghost before_focus = *self;
        let focus_changed = if static_position.is_some() {
            self.blur(now)
        } else {
            match hits.region {
                Some(r) => if r.focusable { self.focus_from_pointer(r.id) } else { false },
                None => false,
            }
        };
        self.text.selecting_input = None;
        let mut caret: Option<CaretPlacement> = None;
        let selection_changed = match static_position {
            Some(position) => {
                let unit = self.text.static_text_click_unit(position, now, extend_selection, hits.near_last_click, interval);
                let existing_anchor = match self.text.static_text_selection {
                    Some(selection) => if extend_selection { selection.anchor } else { position },
                    None => position,
                };
                let (base_start, base_end) = if extend_selection {
                    (existing_anchor, existing_anchor)
                } else {
                    match static_selection_unit_range(position, unit, &self.text.selectable_texts, &self.text.selectable_text_indices) {
                        Some(range) => range,
                        None => (position, position),
                    }
                };
                let next = if extend_selection {
                    StaticTextSelection { anchor: existing_anchor, focus: position }
                } else {
                    StaticTextSelection { anchor: base_start, focus: base_end }
                };
                let changed = match self.text.static_text_selection {
                    Some(current) => current != next,
                    None => true,
                };
                self.text.static_text_selection = Some(next);
                self.text.static_text_gesture = Some(StaticTextGesture {
                    moved: unit != StaticTextSelectionUnit::Character,
                    unit,
                    base_start,
                    base_end,
                });
                changed
            },
            None => {
                match (hits.region, hits.input_index) {
                    (Some(r), Some(index)) => if self.text.text_inputs.contains(&r.id) {
                        caret = Some(CaretPlacement { id: r.id, index, extend: extend_selection });
                        self.text.selecting_input = Some(r.id);
                    },
                    _ => {},
                }
                let had = self.text.static_text_selection.is_some();
                self.text.static_text_selection = None;
                self.text.static_text_gesture = None;
                had
            },
        };
        let repaint = self.pointer.pressed != target || focus_changed || selection_changed || tooltip_repaint;
        self.pointer.pressed = target;
        PointerResult { repaint, clicked: None, dismissed: None, pointer_listener, drag_source, caret }
    }
}

impl MountedState {
    /// Points the tooltip at the one that `hit` (the topmost element under the pointer, none when
    /// the pointer is over nothing) engages, and lets the shown tooltip follow; whether what is
    /// shown changed.
    pub fn update_tooltip_hover(&mut self, hit: Option<ElementId>, now: u64) -> (changed: bool)
        ensures
            (final(self).tooltips, changed) == reconciled(
                TooltipState {
                    pointer: pointer_tooltip_owner(old(self).tooltips, old(self).dispatch.parents@, hit),
                    ..old(self).tooltips
                },
                old(self).focus.focused,
                old(self).dispatch.parents@,
                now,
            ),
            final(self).focus == old(self).focus,
            final(self).membership == old(self).membership,
            final(self).pointer == old(self).pointer,
            final(self).text == old(self).text,
            final(self).motion == old(self).motion,
            final(self).dispatch == old(self).dispatch,
            final(self).mouse_hover == old(self).mouse_hover,
            final(self).validation_announcement == old(self).validation_announcement,
            final(self).accessibility_text_ids == old(self).accessibility_text_ids,
            final(self).next_accessibility_text_id == old(self).next_accessibility_text_id,
            final(self).dirty == old(self).dirty,
    {
        let owner = match hit {
            Some(h) => self.tooltip_ancestor(h),
            None => None,
        };
        self.tooltips.pointer = owner;
        self.reconcile_tooltip(now)
    }
    /// The focused element, when it is a text input with editing state.
    pub fn focused_text_input(&self) -> (input: Option<ElementId>)
        ensures
            input == (match self.focus.focused {
                Some(f) => if self.text.text_inputs@.contains(f) { Some(f) } else { None },
                None => None,
            }),
    {
        match self.focus.focused {
            Some(f) => if self.text.text_inputs.contains(&f) { Some(f) } else { None },
            None => None,
        }
    }

    /// Whether the focused text input is marked invalid.
    pub fn focused_text_input_is_invalid(&self) -> (invalid: bool)
        ensures
            invalid == (self.focus.focused matches Some(f) && self.text.text_inputs@.contains(f)
                && self.dispatch.invalid_ids@.contains(f)),
    {
        match self.focused_text_input() {
            Some(id) => self.dispatch.invalid_ids.contains(&id),
            None => false,
        }
    }

    /// A drag of the scrollbar of the scroll container `id` starts: that scrollbar shows as
    /// hovered and dragged (with no hide deadline), and the press and text gestures end. (Where
    /// the thumb jumps to, and the scroll offset, are geometry the platform layer handles.)
    pub fn begin_scrollbar_drag(&mut self, id: ElementId)
        ensures
            final(self).pointer.scrollbar_drag == Some(id),
            final(self).pointer.scrollbar_states@ == old(self).pointer.scrollbar_states@.insert(
                id,
                ScrollbarState { hovered: true, dragging: true, visible_until: None },
            ),
            final(self).pointer.hovered_scrollbar == Some(id),
            final(self).pointer.pressed is None,
            final(self).text == (TextState { selecting_input: None, static_text_gesture: None, ..old(self).text }),
            final(self).pointer.hovered == old(self).pointer.hovered,
            final(self).pointer.dragging == old(self).pointer.dragging,
            final(self).focus == old(self).focus,
            final(self).tooltips == old(self).tooltips,
    {
        self.pointer.scrollbar_drag = Some(id);
        self.pointer.scrollbar_states.insert(id, ScrollbarState { hovered: true, dragging: true, visible_until: None });
        self.pointer.hovered_scrollbar = Some(id);
        self.text.selecting_input = None;
        self.text.static_text_gesture = None;
        self.pointer.pressed = None;
    }

    /// The pointer left the window: nothing is hovered any more, every hover listener it was
    /// over hears it leave (up to `cap` queued changes) and the pointer's tooltip goes. Whether
    /// the hover styles or the shown tooltip changed.
    pub fn pointer_left(&mut self, now: u64, cap: usize) -> (changed: bool)
        ensures
            final(self).pointer.hovered@ == Set::<ElementId>::empty(),
            final(self).mouse_hover.path@ == Seq::<ElementId>::empty(),
            final(self).mouse_hover.pending@ == capped(
                old(self).mouse_hover.pending@,
                hover_transition(old(self).dispatch.listeners.mouse@, old(self).mouse_hover.path@, Seq::empty()),
                cap as nat,
            ),
            ({
                let (tooltips, tooltip_changed) = reconciled(
                    TooltipState { pointer: None, ..old(self).tooltips },
                    old(self).focus.focused,
                    old(self).dispatch.parents@,
                    now,
                );
                &&& final(self).tooltips == tooltips
                &&& changed == (!old(self).pointer.hovered@.is_empty() || tooltip_changed)
            }),
            final(self).focus == old(self).focus,
            final(self).text == old(self).text,
            final(self).dispatch == old(self).dispatch,
            final(self).pointer.pressed == old(self).pointer.pressed,
            final(self).pointer.dragging == old(self).pointer.dragging,
    {
        let hover_changed = !self.pointer.hovered.is_empty();
        self.pointer.hovered.clear();
        self.mouse_hover.refresh_mouse_hover(&self.dispatch, None, 1, cap);
        let tooltip_changed = self.update_tooltip_hover(None, now);
        hover_changed || tooltip_changed
    }

    /// The pointer moved over `moved`: the hover styles follow it (none while something is being
    /// dragged), so do the hover listeners (up to `max_path` ancestors, `cap` queued changes) and
    /// the pointer's tooltip; a text input being selected extends its selection to the caret
    /// position under the pointer, and an immutable-text gesture its selection (see
    /// `static_drag`). Whether the hover styles, the immutable-text selection or the shown
    /// tooltip changed.
    pub fn pointer_moved(&mut self, moved: &PointerMove, now: u64, max_path: usize, cap: usize) -> (result: PointerMoveResult)
        ensures
            final(self).pointer.hovered@ == (if old(self).pointer.dragging is None && !old(self).pointer.external_drag_active {
                moved.hovered@.to_set()
            } else {
                Set::<ElementId>::empty()
            }),
            ({
                let hit = if old(self).pointer.dragging is None && !old(self).pointer.external_drag_active { moved.hit } else { None };
                &&& final(self).mouse_hover.path@
                    == hover_path_of(old(self).dispatch.parents@, old(self).dispatch.listeners.mouse@, hit, max_path as nat)
                &&& final(self).mouse_hover.pending@ == capped(
                    old(self).mouse_hover.pending@,
                    hover_transition(old(self).dispatch.listeners.mouse@, old(self).mouse_hover.path@, final(self).mouse_hover.path@),
                    cap as nat,
                )
            }),
            result.caret == (match (old(self).text.selecting_input, moved.input_index) {
                (Some(id), Some(index)) => Some(CaretPlacement { id, index, extend: true }),
                _ => None,
            }),
            ({
                let static_changed = old(self).text.static_text_selection != final(self).text.static_text_selection;
                let (tooltips, tooltip_changed) = reconciled(
                    TooltipState {
                        pointer: pointer_tooltip_owner(old(self).tooltips, old(self).dispatch.parents@, moved.hit),
                        ..old(self).tooltips
                    },
                    old(self).focus.focused,
                    old(self).dispatch.parents@,
                    now,
                );
                &&& static_drag(old(self).text, final(self).text, moved.static_position, moved.travelled, static_changed)
                &&& final(self).tooltips == tooltips
                &&& result.repaint == (old(self).pointer.hovered@ != final(self).pointer.hovered@ || static_changed
                    || tooltip_changed)
            }),
            final(self).focus == old(self).focus,
            final(self).dispatch == old(self).dispatch,
            final(self).pointer == (PointerState { hovered: final(self).pointer.hovered, ..old(self).pointer }),
            final(self).membership == old(self).membership,
            final(self).motion == old(self).motion,
            final(self).validation_announcement == old(self).validation_announcement,
            final(self).accessibility_text_ids == old(self).accessibility_text_ids,
            final(self).next_accessibility_text_id == old(self).next_accessibility_text_id,
            final(self).dirty == old(self).dirty,
    {
        let mut hovered: HashSet<ElementId> = HashSet::new();
        if self.pointer.dragging.is_none() && !self.pointer.external_drag_active {
            let mut i: usize = 0;
            while i < moved.hovered.len()
                invariant
                    i <= moved.hovered@.len(),
                    hovered@ == moved.hovered@.take(i as int).to_set(),
                decreases moved.hovered.len() - i,
            {
                proof {
                    assert(moved.hovered@.take(i + 1) =~= moved.hovered@.take(i as int).push(moved.hovered@[i as int]));
                    moved.hovered@.take(i as int).lemma_push_to_set_commute(moved.hovered@[i as int]);
                }
                hovered.insert(moved.hovered[i]);
                i += 1;
            }
            assert(moved.hovered@.take(moved.hovered@.len() as int) =~= moved.hovered@);
        } else {
            assert(hovered@ =~= Set::<ElementId>::empty());
        }
        let hover_changed = !same_members(&hovered, &self.pointer.hovered);
        self.pointer.hovered = hovered;
        let hit = if self.pointer.dragging.is_none() && !self.pointer.external_drag_active { moved.hit } else { None };
        self.mouse_hover.refresh_mouse_hover(&self.dispatch, hit, max_path, cap);
        let caret = match (self.text.selecting_input, moved.input_index) {
            (Some(id), Some(index)) => Some(CaretPlacement { id, index, extend: true }),
            _ => None,
        };
        let static_changed = self.text.extend_static_text_drag(moved.static_position, moved.travelled);
        let tooltip_changed = self.update_tooltip_hover(moved.hit, now);
        PointerMoveResult { repaint: hover_changed || static_changed || tooltip_changed, caret }
    }
}

/// Whether the first element of `root` with id `id` is a text input that masks a password.
pub open spec fn is_password_input(root: Element, id: ElementId) -> bool {
    first_match(preorder(root, keep_all()), has_id(id)) matches Some(e)
        && e.kind matches ElementKind::TextInput { password, .. } && password
}

impl MountedState {
    /// The focused text input's selected text (`input_selection`, from its editing state), unless
    /// nothing or no text input is focused or the input masks a password.
    pub fn selected_input_text(&self, root: &Element, input_selection: Option<String>) -> (text: Option<String>)
        ensures
            text == (match self.focus.focused {
                Some(f) => if self.text.text_inputs@.contains(f) && !is_password_input(*root, f) { input_selection } else { None },
                None => None,
            }),
    {
        let id = match self.focused_text_input() {
            Some(id) => id,
            None => return None,
        };
        let password = match find_element(root, id) {
            Some(element) => match &element.kind {
                ElementKind::TextInput { password, .. } => *password,
                _ => false,
            },
            None => false,
        };
        if password { None } else { input_selection }
    }

    /// What a copy takes: the focused text input's selection (see `selected_input_text`), else the
    /// immutable-text selection (see `selected_static_text`).
    pub fn selected_text(&self, root: &Element, input_selection: Option<String>, line_breaks: &Vec<bool>, limit: usize)
        -> (text: Option<String>)
        requires
            self.refs_consistent(),
            line_breaks.len() == self.text.selectable_texts.len(),
        ensures
            ({
                let input = match self.focus.focused {
                    Some(f) => if self.text.text_inputs@.contains(f) && !is_password_input(*root, f) { input_selection } else { None },
                    None => None,
                };
                let copied = spec_selected_static_text(self.text.static_text_selection,
                    entries_view(self.text.selectable_texts@), self.text.selectable_text_indices@, line_breaks@, limit);
                match input {
                    Some(t) => text == Some(t),
                    None => match text {
                        Some(t) => copied == Some(t@),
                        None => copied is None,
                    },
                }
            }),
    {
        match self.selected_input_text(root, input_selection) {
            Some(t) => Some(t),
            None => self.selected_static_text(line_breaks, limit),
        }
    }
}

} // verus!
