use vstd::prelude::*;
use crate::element::{Element, ElementId, ScenePlane, is_shown};

verus! {

broadcast use vstd::std_specs::vec::group_vec_axioms;

/// Paint layer: composition plane, then z-index inside it.
#[derive(Clone, Copy, Debug, PartialEq, Eq, Structural)]
pub struct PaintLayerKey {
    pub plane: ScenePlane,
    pub z_index: i32,
}

/// Paint order: layer first, then source (document) order.
#[derive(Clone, Copy, Debug, PartialEq, Eq, Structural)]
pub struct PaintOrder {
    pub layer: PaintLayerKey,
    pub source: usize,
}

pub open spec fn plane_rank(plane: ScenePlane) -> int {
    match plane {
        ScenePlane::Base => 0,
        ScenePlane::Overlay => 1,
    }
}

/// `a` paints strictly above `b`.
pub open spec fn order_above(a: PaintOrder, b: PaintOrder) -> bool {
    plane_rank(a.layer.plane) > plane_rank(b.layer.plane)
        || (a.layer.plane == b.layer.plane && (a.layer.z_index > b.layer.z_index
            || (a.layer.z_index == b.layer.z_index && a.source > b.source)))
}

fn paints_above(a: PaintOrder, b: PaintOrder) -> (above: bool)
    ensures
        above == order_above(a, b),
{
    let ra: u8 = match a.layer.plane { ScenePlane::Base => 0, ScenePlane::Overlay => 1 };
    let rb: u8 = match b.layer.plane { ScenePlane::Base => 0, ScenePlane::Overlay => 1 };
    ra > rb || (ra == rb && (a.layer.z_index > b.layer.z_index
        || (a.layer.z_index == b.layer.z_index && a.source > b.source)))
}

/// `a + b`, clamped to the range of `i32`.
pub open spec fn saturating_add_i32(a: i32, b: i32) -> i32 {
    if a + b > i32::MAX { i32::MAX } else if a + b < i32::MIN { i32::MIN } else { (a + b) as i32 }
}

fn add_z_index(a: i32, b: i32) -> (sum: i32)
    ensures
        sum == saturating_add_i32(a, b),
{
    let wide = a as i64 + b as i64;
    if wide > i32::MAX as i64 {
        i32::MAX
    } else if wide < i32::MIN as i64 {
        i32::MIN
    } else {
        wide as i32
    }
}

/// The layer an element paints in: its own plane (or its parent's) and, in the parent's plane,
/// the parent's z-index plus its own; in another plane, its own z-index alone.
pub open spec fn element_layer(e: Element, parent: PaintLayerKey) -> PaintLayerKey {
    let plane = match e.plane { Some(p) => p, None => parent.plane };
    let own = match e.z_index { Some(z) => z, None => 0i32 };
    PaintLayerKey {
        plane,
        z_index: if plane == parent.plane { saturating_add_i32(parent.z_index, own) } else { own },
    }
}

fn layer_of(e: &Element, parent: PaintLayerKey) -> (layer: PaintLayerKey)
    ensures
        layer == element_layer(*e, parent),
{
    let plane = match e.plane { Some(p) => p, None => parent.plane };
    let own = match e.z_index { Some(z) => z, None => 0 };
    PaintLayerKey {
        plane,
        z_index: if plane == parent.plane { add_z_index(parent.z_index, own) } else { own },
    }
}

/// Shown elements of the subtree in document order, with their paint layer.
pub open spec fn layered(e: Element, parent: PaintLayerKey) -> Seq<(Element, PaintLayerKey)>
    decreases e, e.children.len() + 1,
{
    if !is_shown(e) {
        Seq::empty()
    } else {
        seq![(e, element_layer(e, parent))] + layered_forest(e, e.children.len() as int, element_layer(e, parent))
    }
}

pub open spec fn layered_forest(e: Element, n: int, layer: PaintLayerKey) -> Seq<(Element, PaintLayerKey)>
    decreases e, n,
{
    if n <= 0 || n > e.children.len() {
        Seq::empty()
    } else {
        layered_forest(e, n - 1, layer) + layered(e.children[n - 1], layer)
    }
}

/// Scans layered elements in order, numbering them from `source` (saturating), and keeps the
/// focus trap painted topmost so far (a later one wins only when strictly above).
pub open spec fn trap_scan(source: usize, best: Option<(PaintOrder, ElementId)>, s: Seq<(Element, PaintLayerKey)>)
    -> (usize, Option<(PaintOrder, ElementId)>)
    decreases s.len(),
{
    if s.len() == 0 {
        (source, best)
    } else {
        let (src, top) = trap_scan(source, best, s.drop_last());
        let entry = s.last();
        let order = PaintOrder { layer: entry.1, source: src };
        let next_src = if src == usize::MAX { src } else { (src + 1) as usize };
        if entry.0.focus_trap && (top is None || order_above(order, top.unwrap().0)) {
            (next_src, Some((order, entry.0.runtime_id)))
        } else {
            (next_src, top)
        }
    }
}

proof fn lemma_trap_scan_concat(source: usize, best: Option<(PaintOrder, ElementId)>, a: Seq<(Element, PaintLayerKey)>, b: Seq<(Element, PaintLayerKey)>)
    ensures
        trap_scan(source, best, a + b) == trap_scan(trap_scan(source, best, a).0, trap_scan(source, best, a).1, b),
    decreases b.len(),
{
    if b.len() == 0 {
        assert(a + b == a);
    } else {
        lemma_trap_scan_concat(source, best, a, b.drop_last());
        assert((a + b).drop_last() == a + b.drop_last());
        assert((a + b).last() == b.last());
    }
}

fn visit_focus_traps(
    element: &Element,
    parent_layer: PaintLayerKey,
    source: &mut usize,
    topmost: &mut Option<(PaintOrder, ElementId)>,
)
    ensures
        (*final(source), *final(topmost)) == trap_scan(*old(source), *old(topmost), layered(*element, parent_layer)),
    decreases element,
{
    if element.display_none || element.visibility_hidden {
        return;
    }
    let layer = layer_of(element, parent_layer);
    let ghost head = seq![(*element, layer)];
    let order = PaintOrder { layer, source: *source };
    *source = source.saturating_add(1);
    if element.focus_trap {
        let replace = match topmost {
            None => true,
            Some((previous, _)) => paints_above(order, *previous),
        };
        if replace {
            *topmost = Some((order, element.runtime_id));
        }
    }
    proof {
        assert(head.drop_last() == Seq::<(Element, PaintLayerKey)>::empty());
        assert(head.last() == (*element, layer));
        assert(trap_scan(*old(source), *old(topmost), Seq::<(Element, PaintLayerKey)>::empty()) == (*old(source), *old(topmost)));
        assert(layered_forest(*element, 0, layer) == Seq::<(Element, PaintLayerKey)>::empty());
        assert(head + layered_forest(*element, 0, layer) == head);
    }
    let mut i: usize = 0;
    while i < element.children.len()
        invariant
            i <= element.children.len(),
            head == seq![(*element, layer)],
            (*source, *topmost) == trap_scan(*old(source), *old(topmost), head + layered_forest(*element, i as int, layer)),
        decreases element.children.len() - i,
    {
        let ghost prev = head + layered_forest(*element, i as int, layer);
        let ghost sub = layered(element.children[i as int], layer);
        visit_focus_traps(&element.children[i], layer, source, topmost);
        proof {
            assert(layered_forest(*element, i + 1, layer) == layered_forest(*element, i as int, layer) + sub);
            assert(prev + sub == head + layered_forest(*element, i + 1, layer));
            lemma_trap_scan_concat(*old(source), *old(topmost), prev, sub);
        }
        i += 1;
    }
    assert(layered(*element, parent_layer) == head + layered_forest(*element, element.children.len() as int, layer));
}

/// The base layer every root paints in.
pub open spec fn root_layer() -> PaintLayerKey {
    PaintLayerKey { plane: ScenePlane::Base, z_index: 0 }
}

/// The shown focus trap that paints topmost (latest in document order among equals).
pub open spec fn spec_topmost_focus_trap(root: Element) -> Option<ElementId> {
    match trap_scan(0, None, layered(root, root_layer())).1 {
        Some((_, id)) => Some(id),
        None => None,
    }
}

/// Finds the focus trap that currently contains keyboard focus: the topmost one painted.
pub fn topmost_focus_trap(root: &Element) -> (trap: Option<ElementId>)
    ensures
        trap == spec_topmost_focus_trap(*root),
{
    let mut source: usize = 0;
    let mut topmost: Option<(PaintOrder, ElementId)> = None;
    visit_focus_traps(root, PaintLayerKey { plane: ScenePlane::Base, z_index: 0 }, &mut source, &mut topmost);
    match topmost {
        Some((_, id)) => Some(id),
        None => None,
    }
}

} // verus!
