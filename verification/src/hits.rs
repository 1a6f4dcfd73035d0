use vstd::prelude::*;
use std::collections::HashSet;
use crate::element::{CursorStyle, Element, ElementId};
use crate::semantics::{effective_cursor_style, spec_effective_cursor_style};
use crate::mounted::MountedState;
use crate::pointer::InteractiveHit;
use crate::dispatch::{DispatchIndex, ancestor_chain, climb, climb_to};

verus! {

/// The cursors an element declares for its interaction states.
#[derive(Clone, Copy, Debug, PartialEq, Eq, Structural)]
pub struct CursorStates {
    pub hover: Option<CursorStyle>,
    pub active: Option<CursorStyle>,
    pub focus: Option<CursorStyle>,
    pub invalid: Option<CursorStyle>,
    pub dragging: Option<CursorStyle>,
    pub drag_over: Option<CursorStyle>,
}

/// How a region takes part in moving the window.
#[derive(Clone, Copy, Debug, PartialEq, Eq, Structural)]
pub enum AppRegion {
    /// Dragging it moves the window.
    Drag,
    /// It keeps a window-moving region beneath it from doing so.
    NoDrag,
}

/// A painted hit region, by what the pointer logic reads of it; where it lies is reduced to
/// whether the pointer is inside it.
#[derive(Clone, Copy, Debug, PartialEq, Eq, Structural)]
pub struct HitRegion {
    pub id: ElementId,
    /// The pointer lies inside the region and its clip.
    pub contains_pointer: bool,
    /// Paint rank: a region painted above another has the larger rank.
    pub order: u64,
    /// The region paints on the overlay plane.
    pub overlay: bool,
    pub clickable: bool,
    pub focusable: bool,
    pub pointer_listener: bool,
    pub drag_source: bool,
    pub drop_target: bool,
    /// The element has interaction-state styles (so hovering it repaints).
    pub stateful: bool,
    pub blocks_pointer: bool,
    pub cursor_style: Option<CursorStyle>,
    pub cursor_states: CursorStates,
    pub app_region: Option<AppRegion>,
}

/// The pointer interaction the tree is in, as the cursor decision reads it.
#[derive(Clone, Copy, Debug, PartialEq, Eq, Structural)]
pub struct CursorContext {
    pub focused: Option<ElementId>,
    pub pressed: Option<ElementId>,
    pub dragging: Option<ElementId>,
    pub drag_over: Option<ElementId>,
    /// A drag from outside the window is over it.
    pub external_drag: bool,
}

pub open spec fn or_else(first: Option<CursorStyle>, second: Option<CursorStyle>) -> Option<CursorStyle> {
    match first {
        Some(c) => Some(c),
        None => second,
    }
}

/// The cursor a region asks for: its drag-over, dragging, pressed or hover state's (the first
/// that applies), else its invalid state's, else its focus state's when focused, else its own.
pub open spec fn region_cursor(r: HitRegion, ctx: CursorContext) -> Option<CursorStyle> {
    let interaction = if ctx.drag_over == Some(r.id) {
        r.cursor_states.drag_over
    } else if ctx.dragging == Some(r.id) {
        r.cursor_states.dragging
    } else if ctx.pressed == Some(r.id) {
        r.cursor_states.active
    } else if ctx.dragging is None && !ctx.external_drag {
        r.cursor_states.hover
    } else {
        None
    };
    let focus = if ctx.focused == Some(r.id) { r.cursor_states.focus } else { None };
    or_else(interaction, or_else(r.cursor_states.invalid, or_else(focus, r.cursor_style)))
}

/// Whether `r` paints beneath the dismissible overlay surface of paint rank `inert_below`, where a
/// press only dismisses that surface.
pub open spec fn below_inert(r: HitRegion, inert_below: Option<u64>) -> bool {
    match inert_below {
        Some(order) => r.order < order,
        None => false,
    }
}

/// The cursor over the first `n` regions (paint order, bottom to top), searched from the top:
/// the arrow once the search reaches inert content beneath a dismissible overlay; else the first
/// region under the pointer that asks for a cursor, unless a pointer blocker or listener under
/// the pointer asks for none first; the arrow when the search ends under an inert overlay.
pub open spec fn cursor_search(regions: Seq<HitRegion>, n: int, inert_below: Option<u64>, ctx: CursorContext) -> Option<CursorStyle>
    decreases n,
{
    if n <= 0 || n > regions.len() {
        if inert_below is Some { Some(CursorStyle::Arrow) } else { None }
    } else {
        let r = regions[n - 1];
        if below_inert(r, inert_below) {
            Some(CursorStyle::Arrow)
        } else if !r.contains_pointer {
            cursor_search(regions, n - 1, inert_below, ctx)
        } else {
            match region_cursor(r, ctx) {
                Some(c) => Some(c),
                None => if r.blocks_pointer || r.pointer_listener { None } else { cursor_search(regions, n - 1, inert_below, ctx) },
            }
        }
    }
}

fn first_of(first: Option<CursorStyle>, second: Option<CursorStyle>) -> (c: Option<CursorStyle>)
    ensures
        c == or_else(first, second),
{
    match first {
        Some(c) => Some(c),
        None => second,
    }
}

fn cursor_of_region(r: &HitRegion, ctx: CursorContext) -> (c: Option<CursorStyle>)
    ensures
        c == region_cursor(*r, ctx),
{
    let interaction = if ctx.drag_over == Some(r.id) {
        r.cursor_states.drag_over
    } else if ctx.dragging == Some(r.id) {
        r.cursor_states.dragging
    } else if ctx.pressed == Some(r.id) {
        r.cursor_states.active
    } else if ctx.dragging.is_none() && !ctx.external_drag {
        r.cursor_states.hover
    } else {
        None
    };
    let focus = if ctx.focused == Some(r.id) { r.cursor_states.focus } else { None };
    first_of(interaction, first_of(r.cursor_states.invalid, first_of(focus, r.cursor_style)))
}

/// The cursor to show over the pointer (see `cursor_search`), `regions` being the painted hit
/// regions bottom to top and `inert_below` the paint rank of the topmost dismissible surface
/// when it sits on the overlay plane.
pub fn cursor_style_at(regions: &[HitRegion], inert_below: Option<u64>, ctx: CursorContext) -> (cursor: Option<CursorStyle>)
    ensures
        cursor == cursor_search(regions@, regions@.len() as int, inert_below, ctx),
{
    let mut n = regions.len();
    while n > 0
        invariant
            n <= regions@.len(),
            cursor_search(regions@, n as int, inert_below, ctx)
                == cursor_search(regions@, regions@.len() as int, inert_below, ctx),
        decreases n,
    {
        let r = &regions[n - 1];
        let inert = match inert_below {
            Some(order) => r.order < order,
            None => false,
        };
        if inert {
            return Some(CursorStyle::Arrow);
        }
        if r.contains_pointer {
            match cursor_of_region(r, ctx) {
                Some(c) => return Some(c),
                None => if r.blocks_pointer || r.pointer_listener {
                    return None;
                },
            }
        }
        n -= 1;
    }
    if inert_below.is_some() { Some(CursorStyle::Arrow) } else { None }
}

/// The topmost of the first `n` regions (paint order, bottom to top) that the pointer is inside
/// and for which `pick` holds, unless one the pointer is inside and for which `stop` holds lies
/// above it.
pub open spec fn hit_search(regions: Seq<HitRegion>, n: int, pick: spec_fn(HitRegion) -> bool, stop: spec_fn(HitRegion) -> bool)
    -> Option<HitRegion>
    decreases n,
{
    if n <= 0 || n > regions.len() {
        None
    } else {
        let r = regions[n - 1];
        if !r.contains_pointer {
            hit_search(regions, n - 1, pick, stop)
        } else if pick(r) {
            Some(r)
        } else if stop(r) {
            None
        } else {
            hit_search(regions, n - 1, pick, stop)
        }
    }
}

pub open spec fn hit_id(r: Option<HitRegion>) -> Option<ElementId> {
    match r {
        Some(r) => Some(r.id),
        None => None,
    }
}

pub open spec fn any_region() -> spec_fn(HitRegion) -> bool { |r: HitRegion| true }
pub open spec fn no_region() -> spec_fn(HitRegion) -> bool { |r: HitRegion| false }
pub open spec fn interactive() -> spec_fn(HitRegion) -> bool { |r: HitRegion| r.clickable || r.focusable }
pub open spec fn blocks_or_listens() -> spec_fn(HitRegion) -> bool { |r: HitRegion| r.blocks_pointer || r.pointer_listener }
pub open spec fn listens() -> spec_fn(HitRegion) -> bool { |r: HitRegion| r.pointer_listener }
pub open spec fn blocks() -> spec_fn(HitRegion) -> bool { |r: HitRegion| r.blocks_pointer }
pub open spec fn drags() -> spec_fn(HitRegion) -> bool { |r: HitRegion| r.drag_source }
pub open spec fn accepts_drop(accepting: Set<ElementId>) -> spec_fn(HitRegion) -> bool {
    |r: HitRegion| r.drop_target && accepting.contains(r.id)
}

/// The topmost region under the pointer, whatever it is.
pub fn topmost_hit(regions: &[HitRegion]) -> (hit: Option<ElementId>)
    ensures
        hit == hit_id(hit_search(regions@, regions@.len() as int, any_region(), no_region())),
{
    let mut n = regions.len();
    while n > 0
        invariant
            n <= regions@.len(),
            hit_search(regions@, n as int, any_region(), no_region())
                == hit_search(regions@, regions@.len() as int, any_region(), no_region()),
        decreases n,
    {
        if regions[n - 1].contains_pointer {
            return Some(regions[n - 1].id);
        }
        n -= 1;
    }
    None
}

/// The topmost clickable or focusable region under the pointer, unless a pointer blocker or
/// listener covers it.
pub fn interactive_region_at(regions: &[HitRegion]) -> (hit: Option<InteractiveHit>)
    ensures
        hit == (match hit_search(regions@, regions@.len() as int, interactive(), blocks_or_listens()) {
            Some(r) => Some(InteractiveHit { id: r.id, clickable: r.clickable, focusable: r.focusable }),
            None => None,
        }),
{
    let mut n = regions.len();
    while n > 0
        invariant
            n <= regions@.len(),
            hit_search(regions@, n as int, interactive(), blocks_or_listens())
                == hit_search(regions@, regions@.len() as int, interactive(), blocks_or_listens()),
        decreases n,
    {
        let r = &regions[n - 1];
        if r.contains_pointer {
            if r.clickable || r.focusable {
                return Some(InteractiveHit { id: r.id, clickable: r.clickable, focusable: r.focusable });
            }
            if r.blocks_pointer || r.pointer_listener {
                return None;
            }
        }
        n -= 1;
    }
    None
}

/// The topmost pointer-listening region under the pointer, unless a pointer blocker covers it.
pub fn pointer_listener_at(regions: &[HitRegion]) -> (hit: Option<ElementId>)
    ensures
        hit == hit_id(hit_search(regions@, regions@.len() as int, listens(), blocks())),
{
    let mut n = regions.len();
    while n > 0
        invariant
            n <= regions@.len(),
            hit_search(regions@, n as int, listens(), blocks()) == hit_search(regions@, regions@.len() as int, listens(), blocks()),
        decreases n,
    {
        let r = &regions[n - 1];
        if r.contains_pointer {
            if r.pointer_listener {
                return Some(r.id);
            }
            if r.blocks_pointer {
                return None;
            }
        }
        n -= 1;
    }
    None
}

/// The topmost drag source under the pointer, unless a pointer blocker or listener covers it.
pub fn drag_source_at(regions: &[HitRegion]) -> (hit: Option<ElementId>)
    ensures
        hit == hit_id(hit_search(regions@, regions@.len() as int, drags(), blocks_or_listens())),
{
    let mut n = regions.len();
    while n > 0
        invariant
            n <= regions@.len(),
            hit_search(regions@, n as int, drags(), blocks_or_listens())
                == hit_search(regions@, regions@.len() as int, drags(), blocks_or_listens()),
        decreases n,
    {
        let r = &regions[n - 1];
        if r.contains_pointer {
            if r.drag_source {
                return Some(r.id);
            }
            if r.blocks_pointer || r.pointer_listener {
                return None;
            }
        }
        n -= 1;
    }
    None
}

/// The topmost drop target under the pointer that accepts the dragged value (is in
/// `accepting`), unless a pointer blocker or listener covers it.
pub fn drop_target_at(regions: &[HitRegion], accepting: &HashSet<ElementId>) -> (hit: Option<ElementId>)
    ensures
        hit == hit_id(hit_search(regions@, regions@.len() as int, accepts_drop(accepting@), blocks_or_listens())),
{
    let mut n = regions.len();
    while n > 0
        invariant
            n <= regions@.len(),
            hit_search(regions@, n as int, accepts_drop(accepting@), blocks_or_listens())
                == hit_search(regions@, regions@.len() as int, accepts_drop(accepting@), blocks_or_listens()),
        decreases n,
    {
        let r = &regions[n - 1];
        if r.contains_pointer {
            if r.drop_target && accepting.contains(&r.id) {
                return Some(r.id);
            }
            if r.blocks_pointer || r.pointer_listener {
                return None;
            }
        }
        n -= 1;
    }
    None
}

/// The interaction-styled regions under the pointer, topmost first, down to and including the
/// first pointer blocker or listener.
pub open spec fn hovered_search(regions: Seq<HitRegion>, n: int) -> Seq<ElementId>
    decreases n,
{
    if n <= 0 || n > regions.len() {
        Seq::empty()
    } else {
        let r = regions[n - 1];
        let own = if r.stateful && r.contains_pointer { seq![r.id] } else { Seq::empty() };
        if r.contains_pointer && (r.blocks_pointer || r.pointer_listener) {
            own
        } else {
            own + hovered_search(regions, n - 1)
        }
    }
}

/// The elements whose hover styles apply under the pointer (see `hovered_search`).
pub fn hovered_at(regions: &[HitRegion]) -> (hovered: Vec<ElementId>)
    ensures
        hovered@ == hovered_search(regions@, regions@.len() as int),
{
    let mut hovered: Vec<ElementId> = Vec::new();
    let mut n = regions.len();
    while n > 0
        invariant
            n <= regions@.len(),
            hovered@ + hovered_search(regions@, n as int) == hovered_search(regions@, regions@.len() as int),
        decreases n,
    {
        let r = &regions[n - 1];
        let ghost before = hovered@;
        if r.stateful && r.contains_pointer {
            hovered.push(r.id);
        }
        if r.contains_pointer && (r.blocks_pointer || r.pointer_listener) {
            proof {
                let own = if r.stateful && r.contains_pointer { seq![r.id] } else { Seq::<ElementId>::empty() };
                assert(hovered@ == before + own);
                assert(hovered@ + Seq::<ElementId>::empty() =~= hovered@);
                assert(hovered_search(regions@, 0) == Seq::<ElementId>::empty());
            }
            return hovered;
        }
        proof {
            let own = if r.stateful && r.contains_pointer { seq![r.id] } else { Seq::<ElementId>::empty() };
            assert(hovered@ == before + own);
            assert(before + (own + hovered_search(regions@, n - 1)) =~= hovered@ + hovered_search(regions@, n - 1));
        }
        n -= 1;
    }
    assert(hovered@ + Seq::<ElementId>::empty() =~= hovered@);
    hovered
}

/// The window-moving role of the topmost of the first `n` regions under the pointer that has one.
pub open spec fn app_region_search(regions: Seq<HitRegion>, n: int) -> Option<AppRegion>
    decreases n,
{
    if n <= 0 || n > regions.len() {
        None
    } else {
        let r = regions[n - 1];
        if r.contains_pointer && r.app_region is Some {
            r.app_region
        } else {
            app_region_search(regions, n - 1)
        }
    }
}

/// Whether a press here moves the window: the topmost window-moving role under the pointer is
/// `Drag`, and the pointer is not over a scrollbar.
pub fn is_app_region_drag(regions: &[HitRegion], over_scrollbar: bool) -> (drag: bool)
    ensures
        drag == (!over_scrollbar && app_region_search(regions@, regions@.len() as int) == Some(AppRegion::Drag)),
{
    if over_scrollbar {
        return false;
    }
    let mut n = regions.len();
    while n > 0
        invariant
            n <= regions@.len(),
            !over_scrollbar,
            app_region_search(regions@, n as int) == app_region_search(regions@, regions@.len() as int),
        decreases n,
    {
        let r = &regions[n - 1];
        if r.contains_pointer {
            match r.app_region {
                Some(AppRegion::Drag) => return true,
                Some(AppRegion::NoDrag) => return false,
                None => {},
            }
        }
        n -= 1;
    }
    false
}

/// Whether an overlay surface blocks the pointer somewhere in the window.
pub fn overlay_input_active(regions: &[HitRegion]) -> (active: bool)
    ensures
        active == exists|i: int| 0 <= i < regions@.len() && #[trigger] regions@[i].overlay && regions@[i].blocks_pointer,
{
    let mut i: usize = 0;
    while i < regions.len()
        invariant
            i <= regions@.len(),
            forall|j: int| 0 <= j < i ==> !(#[trigger] regions@[j].overlay && regions@[j].blocks_pointer),
        decreases regions.len() - i,
    {
        if regions[i].overlay && regions[i].blocks_pointer {
            return true;
        }
        i += 1;
    }
    false
}

impl DispatchIndex {
    /// The event path of the topmost region under the pointer (see `mouse_event_path_for_target`);
    /// empty and complete when the pointer is over nothing.
    pub fn mouse_event_path_at(&self, regions: &[HitRegion], output: &mut Vec<ElementId>, max_path: usize) -> (complete: bool)
        ensures
            match hit_id(hit_search(regions@, regions@.len() as int, any_region(), no_region())) {
                None => complete && final(output)@.len() == 0,
                Some(target) => {
                    &&& complete == ancestor_chain(self.parents@, target, max_path as nat) is Some
                    &&& complete ==> final(output)@ == ancestor_chain(self.parents@, target, max_path as nat).unwrap()
                    &&& !complete ==> final(output)@.len() == 0
                },
            },
    {
        match topmost_hit(regions) {
            None => {
                output.clear();
                true
            },
            Some(target) => self.mouse_event_path_for_target(target, output, max_path),
        }
    }

    /// The element (the topmost region under the pointer or its nearest ancestor) that opens a
    /// context menu.
    pub fn context_menu_listener_at(&self, regions: &[HitRegion]) -> (listener: Option<ElementId>)
        ensures
            listener == match hit_id(hit_search(regions@, regions@.len() as int, any_region(), no_region())) {
                Some(target) => climb(self.parents@, self.context_menu_ids@, target, self.parents@.len()),
                None => None,
            },
    {
        match topmost_hit(regions) {
            Some(target) => climb_to(&self.parents, &self.context_menu_ids, target),
            None => None,
        }
    }

    /// The element (the topmost region under the pointer or its nearest ancestor) that handles
    /// scroll-wheel input.
    pub fn scroll_wheel_listener_at(&self, regions: &[HitRegion]) -> (listener: Option<ElementId>)
        ensures
            listener == match hit_id(hit_search(regions@, regions@.len() as int, any_region(), no_region())) {
                Some(target) => climb(self.parents@, self.scroll_wheel_ids@, target, self.parents@.len()),
                None => None,
            },
    {
        match topmost_hit(regions) {
            Some(target) => climb_to(&self.parents, &self.scroll_wheel_ids, target),
            None => None,
        }
    }

    /// The element (the topmost region under the pointer or its nearest ancestor) that handles
    /// touch input.
    pub fn touch_listener_at(&self, regions: &[HitRegion]) -> (listener: Option<ElementId>)
        ensures
            listener == match hit_id(hit_search(regions@, regions@.len() as int, any_region(), no_region())) {
                Some(target) => climb(self.parents@, self.touch_ids@, target, self.parents@.len()),
                None => None,
            },
    {
        match topmost_hit(regions) {
            Some(target) => climb_to(&self.parents, &self.touch_ids, target),
            None => None,
        }
    }

    /// The element (the topmost region under the pointer or its nearest ancestor) that handles
    /// force-click pressure.
    pub fn mouse_pressure_listener_at(&self, regions: &[HitRegion]) -> (listener: Option<ElementId>)
        ensures
            listener == match hit_id(hit_search(regions@, regions@.len() as int, any_region(), no_region())) {
                Some(target) => climb(self.parents@, self.mouse_pressure_ids@, target, self.parents@.len()),
                None => None,
            },
    {
        match topmost_hit(regions) {
            Some(target) => climb_to(&self.parents, &self.mouse_pressure_ids, target),
            None => None,
        }
    }

    /// The element (the topmost region under the pointer or its nearest ancestor) that handles
    /// pinch gestures.
    pub fn pinch_listener_at(&self, regions: &[HitRegion]) -> (listener: Option<ElementId>)
        ensures
            listener == match hit_id(hit_search(regions@, regions@.len() as int, any_region(), no_region())) {
                Some(target) => climb(self.parents@, self.pinch_ids@, target, self.parents@.len()),
                None => None,
            },
    {
        match topmost_hit(regions) {
            Some(target) => climb_to(&self.parents, &self.pinch_ids, target),
            None => None,
        }
    }

    /// The element (the topmost region under the pointer or its nearest ancestor) that handles
    /// rotation gestures.
    pub fn rotation_listener_at(&self, regions: &[HitRegion]) -> (listener: Option<ElementId>)
        ensures
            listener == match hit_id(hit_search(regions@, regions@.len() as int, any_region(), no_region())) {
                Some(target) => climb(self.parents@, self.rotation_ids@, target, self.parents@.len()),
                None => None,
            },
    {
        match topmost_hit(regions) {
            Some(target) => climb_to(&self.parents, &self.rotation_ids, target),
            None => None,
        }
    }

    /// The element (the topmost region under the pointer or its nearest ancestor) that handles
    /// smart-magnify gestures.
    pub fn smart_magnify_listener_at(&self, regions: &[HitRegion]) -> (listener: Option<ElementId>)
        ensures
            listener == match hit_id(hit_search(regions@, regions@.len() as int, any_region(), no_region())) {
                Some(target) => climb(self.parents@, self.smart_magnify_ids@, target, self.parents@.len()),
                None => None,
            },
    {
        match topmost_hit(regions) {
            Some(target) => climb_to(&self.parents, &self.smart_magnify_ids, target),
            None => None,
        }
    }
}

impl MountedState {
    /// The interaction state the cursor decision reads.
    pub fn cursor_context(&self) -> (ctx: CursorContext)
        ensures
            ctx == (CursorContext {
                focused: self.focus.focused,
                pressed: self.pointer.pressed,
                dragging: self.pointer.dragging,
                drag_over: self.pointer.drag_over,
                external_drag: self.pointer.external_drag_active,
            }),
    {
        CursorContext {
            focused: self.focus.focused,
            pressed: self.pointer.pressed,
            dragging: self.pointer.dragging,
            drag_over: self.pointer.drag_over,
            external_drag: self.pointer.external_drag_active,
        }
    }
}


// ----- paint order -----

/// Regions whose paint rank is `order`.
pub open spec fn ranked(order: u64) -> spec_fn(HitRegion) -> bool {
    |r: HitRegion| r.order == order
}

/// Regions listed from the lowest paint rank to the highest.
pub open spec fn by_paint_order(s: Seq<HitRegion>) -> bool {
    forall|a: int, b: int| 0 <= a < b < s.len() ==> #[trigger] s[a].order <= #[trigger] s[b].order
}

proof fn lemma_insert_keeps_ranks(before: Seq<HitRegion>, j: int, c: HitRegion, order: u64)
    requires
        0 <= j <= before.len(),
        forall|k: int| j <= k < before.len() ==> #[trigger] before[k].order > c.order,
    ensures
        before.insert(j, c).filter(ranked(order)) == if c.order == order {
            before.filter(ranked(order)).push(c)
        } else {
            before.filter(ranked(order))
        },
{
    let p = ranked(order);
    let head = before.take(j);
    let tail = before.skip(j);
    assert(before == head + tail);
    assert(before.insert(j, c) == head + seq![c] + tail);
    Seq::filter_distributes_over_add(head, tail, p);
    Seq::filter_distributes_over_add(head + seq![c], tail, p);
    Seq::filter_distributes_over_add(head, seq![c], p);
    assert(seq![c] == Seq::<HitRegion>::empty().push(c));
    Seq::<HitRegion>::empty().lemma_filter_push(c, p);
    assert(Seq::<HitRegion>::empty().filter(p) =~= Seq::<HitRegion>::empty()) by {
        reveal(Seq::filter);
    }
    if c.order == order {
        if tail.filter(p).len() > 0 {
            let x = tail.filter(p)[0];
            assert(tail.filter(p).contains(x));
            tail.lemma_filter_contains_rev(p, x);
            tail.lemma_filter_pred(p, 0);
            let k = choose|k: int| 0 <= k < tail.len() && tail[k] == x;
            assert(before[j + k] == tail[k]);
            assert(p(tail.filter(p)[0]));
        }
        assert(tail.filter(p) =~= Seq::<HitRegion>::empty());
        assert(head.filter(p) + seq![c] =~= (head.filter(p) + tail.filter(p)).push(c));
    } else {
        assert(head.filter(p) + Seq::<HitRegion>::empty() =~= head.filter(p));
    }
}

/// Orders the painted regions by paint rank, keeping paint order among regions of equal rank.
pub fn sort_by_paint_order(regions: &mut Vec<HitRegion>)
    ensures
        by_paint_order(final(regions)@),
        forall|order: u64| #[trigger] final(regions)@.filter(ranked(order)) == old(regions)@.filter(ranked(order)),
        final(regions)@.to_multiset() == old(regions)@.to_multiset(),
{
    broadcast use vstd::seq_lib::group_to_multiset_ensures;
    let mut sorted: Vec<HitRegion> = Vec::new();
    let mut i: usize = 0;
    proof {
        assert(regions@.take(0) =~= Seq::<HitRegion>::empty());
    }
    while i < regions.len()
        invariant
            i <= regions@.len(),
            by_paint_order(sorted@),
            forall|order: u64| #[trigger] sorted@.filter(ranked(order)) == regions@.take(i as int).filter(ranked(order)),
            sorted@.to_multiset() == regions@.take(i as int).to_multiset(),
        decreases regions@.len() - i,
    {
        let c = regions[i];
        let mut j = sorted.len();
        while j > 0 && sorted[j - 1].order > c.order
            invariant
                j <= sorted@.len(),
                by_paint_order(sorted@),
                forall|k: int| j <= k < sorted@.len() ==> #[trigger] sorted@[k].order > c.order,
            decreases j,
        {
            j -= 1;
        }
        let ghost before = sorted@;
        sorted.insert(j, c);
        proof {
            assert(sorted@ == before.insert(j as int, c));
            assert forall|a: int, b: int| 0 <= a < b < sorted@.len() implies #[trigger] sorted@[a].order <= #[trigger] sorted@[b].order by {
                if a < j && b < j {
                    assert(before[a].order <= before[b].order);
                } else if a < j && b == j {
                    if a < j - 1 {
                        assert(before[a].order <= before[j - 1].order);
                    }
                } else if a < j && b > j {
                    assert(before[a].order <= before[b - 1].order);
                } else if a == j {
                    assert(before[b - 1].order > c.order);
                } else {
                    assert(before[a - 1].order <= before[b - 1].order);
                }
            }
            let taken = regions@.take(i as int);
            assert(regions@.take(i + 1) == taken.push(c));
            assert forall|order: u64| #[trigger] sorted@.filter(ranked(order)) == regions@.take(i + 1).filter(ranked(order)) by {
                lemma_insert_keeps_ranks(before, j as int, c, order);
                taken.lemma_filter_push(c, ranked(order));
            }
            vstd::seq_lib::to_multiset_insert(before, j as int, c);
            vstd::seq_lib::to_multiset_build(taken, c);
        }
        i += 1;
    }
    proof {
        assert(regions@.take(regions@.len() as int) == regions@);
    }
    *regions = sorted;
}


// ----- regions of painted elements -----

/// What decides an element's hit region besides the element itself: whether it is a selectable
/// text leaf, whether its interaction states change how it paints or which cursor it shows, the
/// cursors of those states, and its window-moving role.
#[derive(Clone, Copy, Debug, PartialEq, Eq, Structural)]
pub struct RegionFacts {
    pub selectable_text: bool,
    pub stateful_paint: bool,
    pub stateful_cursor: bool,
    pub cursor_states: CursorStates,
    pub app_region: Option<AppRegion>,
}

/// Whether a painted element takes part in hit testing: it listens for pointer or gesture input,
/// has a tooltip, is dragged or dropped on, shows a cursor, holds selectable text, takes focus,
/// blocks the pointer, moves the window, or looks or points differently in some interaction state.
pub open spec fn paints_hit_region(e: Element, f: RegionFacts) -> bool {
    ||| e.clickable
    ||| e.pointer_listener
    ||| (e.mouse_listeners is Some && !e.accessibility.disabled)
    ||| e.scroll_wheel_listener
    ||| e.touch_listener
    ||| e.context_menu_listener
    ||| e.mouse_pressure_listener
    ||| e.pinch_listener
    ||| e.rotation_listener
    ||| e.smart_magnify_listener
    ||| e.tooltip is Some
    ||| e.drag_source
    ||| e.drop_target
    ||| e.cursor_style is Some
    ||| f.selectable_text
    ||| e.focusable
    ||| e.blocks_pointer
    ||| f.app_region is Some
    ||| f.stateful_paint
    ||| f.stateful_cursor
}

/// The hit region of a painted element, when it has one: its interactions count only while it is
/// enabled, and its invalid-state cursor only while it is invalid.
pub open spec fn spec_element_hit_region(e: Element, f: RegionFacts, contains_pointer: bool, order: u64, overlay: bool)
    -> Option<HitRegion>
{
    let enabled = !e.accessibility.disabled;
    if paints_hit_region(e, f) {
        Some(HitRegion {
            id: e.runtime_id,
            contains_pointer,
            order,
            overlay,
            clickable: e.clickable && enabled,
            focusable: e.focusable && enabled,
            pointer_listener: e.pointer_listener && enabled,
            drag_source: e.drag_source && enabled,
            drop_target: e.drop_target && enabled,
            stateful: f.stateful_paint,
            blocks_pointer: e.blocks_pointer,
            cursor_style: spec_effective_cursor_style(e, f.selectable_text),
            cursor_states: CursorStates {
                invalid: if e.accessibility.invalid { f.cursor_states.invalid } else { None },
                ..f.cursor_states
            },
            app_region: f.app_region,
        })
    } else {
        None
    }
}

/// The hit region a painted element contributes, given where the pointer is relative to it
/// (`contains_pointer`), its paint rank and plane.
pub fn element_hit_region(element: &Element, facts: RegionFacts, contains_pointer: bool, order: u64, overlay: bool)
    -> (region: Option<HitRegion>)
    ensures
        region == spec_element_hit_region(*element, facts, contains_pointer, order, overlay),
{
    let enabled = !element.accessibility.disabled;
    let paints = element.clickable
        || element.pointer_listener
        || (element.mouse_listeners.is_some() && enabled)
        || element.scroll_wheel_listener
        || element.touch_listener
        || element.context_menu_listener
        || element.mouse_pressure_listener
        || element.pinch_listener
        || element.rotation_listener
        || element.smart_magnify_listener
        || element.tooltip.is_some()
        || element.drag_source
        || element.drop_target
        || element.cursor_style.is_some()
        || facts.selectable_text
        || element.focusable
        || element.blocks_pointer
        || facts.app_region.is_some()
        || facts.stateful_paint
        || facts.stateful_cursor;
    if !paints {
        return None;
    }
    let states = facts.cursor_states;
    Some(HitRegion {
        id: element.runtime_id,
        contains_pointer,
        order,
        overlay,
        clickable: element.clickable && enabled,
        focusable: element.focusable && enabled,
        pointer_listener: element.pointer_listener && enabled,
        drag_source: element.drag_source && enabled,
        drop_target: element.drop_target && enabled,
        stateful: facts.stateful_paint,
        blocks_pointer: element.blocks_pointer,
        cursor_style: effective_cursor_style(element, facts.selectable_text),
        cursor_states: CursorStates {
            invalid: if element.accessibility.invalid { states.invalid } else { None },
            ..states
        },
        app_region: facts.app_region,
    })
}

} // verus!
