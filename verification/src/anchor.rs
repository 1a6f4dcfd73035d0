use vstd::prelude::*;

verus! {

/// Where an anchored surface is placed relative to its anchor.
#[derive(Clone, Copy, Debug, PartialEq, Eq, Structural)]
pub enum AnchorPlacement {
    TopStart,
    Top,
    TopEnd,
    BottomStart,
    Bottom,
    BottomEnd,
    LeftStart,
    Left,
    LeftEnd,
    RightStart,
    Right,
    RightEnd,
}

/// Side of the anchor the surface sits on.
#[derive(Clone, Copy, Debug, PartialEq, Eq, Structural)]
pub enum AnchorSide {
    Top,
    Bottom,
    Left,
    Right,
}

/// Alignment of the surface along the anchor's side.
#[derive(Clone, Copy, Debug, PartialEq, Eq, Structural)]
pub enum AnchorAlign {
    Start,
    Center,
    End,
}

pub open spec fn spec_anchor_placement_parts(placement: AnchorPlacement) -> (AnchorSide, AnchorAlign) {
    match placement {
        AnchorPlacement::TopStart => (AnchorSide::Top, AnchorAlign::Start),
        AnchorPlacement::Top => (AnchorSide::Top, AnchorAlign::Center),
        AnchorPlacement::TopEnd => (AnchorSide::Top, AnchorAlign::End),
        AnchorPlacement::BottomStart => (AnchorSide::Bottom, AnchorAlign::Start),
        AnchorPlacement::Bottom => (AnchorSide::Bottom, AnchorAlign::Center),
        AnchorPlacement::BottomEnd => (AnchorSide::Bottom, AnchorAlign::End),
        AnchorPlacement::LeftStart => (AnchorSide::Left, AnchorAlign::Start),
        AnchorPlacement::Left => (AnchorSide::Left, AnchorAlign::Center),
        AnchorPlacement::LeftEnd => (AnchorSide::Left, AnchorAlign::End),
        AnchorPlacement::RightStart => (AnchorSide::Right, AnchorAlign::Start),
        AnchorPlacement::Right => (AnchorSide::Right, AnchorAlign::Center),
        AnchorPlacement::RightEnd => (AnchorSide::Right, AnchorAlign::End),
    }
}

/// Splits a placement into the side it sits on and its alignment along that side.
pub fn anchor_placement_parts(placement: AnchorPlacement) -> (parts: (AnchorSide, AnchorAlign))
    ensures
        parts == spec_anchor_placement_parts(placement),
{
    match placement {
        AnchorPlacement::TopStart => (AnchorSide::Top, AnchorAlign::Start),
        AnchorPlacement::Top => (AnchorSide::Top, AnchorAlign::Center),
        AnchorPlacement::TopEnd => (AnchorSide::Top, AnchorAlign::End),
        AnchorPlacement::BottomStart => (AnchorSide::Bottom, AnchorAlign::Start),
        AnchorPlacement::Bottom => (AnchorSide::Bottom, AnchorAlign::Center),
        AnchorPlacement::BottomEnd => (AnchorSide::Bottom, AnchorAlign::End),
        AnchorPlacement::LeftStart => (AnchorSide::Left, AnchorAlign::Start),
        AnchorPlacement::Left => (AnchorSide::Left, AnchorAlign::Center),
        AnchorPlacement::LeftEnd => (AnchorSide::Left, AnchorAlign::End),
        AnchorPlacement::RightStart => (AnchorSide::Right, AnchorAlign::Start),
        AnchorPlacement::Right => (AnchorSide::Right, AnchorAlign::Center),
        AnchorPlacement::RightEnd => (AnchorSide::Right, AnchorAlign::End),
    }
}

pub open spec fn spec_opposite_anchor_side(side: AnchorSide) -> AnchorSide {
    match side {
        AnchorSide::Top => AnchorSide::Bottom,
        AnchorSide::Bottom => AnchorSide::Top,
        AnchorSide::Left => AnchorSide::Right,
        AnchorSide::Right => AnchorSide::Left,
    }
}

/// The side a surface flips to when its preferred side lacks room.
pub fn opposite_anchor_side(side: AnchorSide) -> (opposite: AnchorSide)
    ensures
        opposite == spec_opposite_anchor_side(side),
        opposite != side,
{
    match side {
        AnchorSide::Top => AnchorSide::Bottom,
        AnchorSide::Bottom => AnchorSide::Top,
        AnchorSide::Left => AnchorSide::Right,
        AnchorSide::Right => AnchorSide::Left,
    }
}

/// Flipping twice returns to the original side.
pub proof fn lemma_opposite_side_involution(side: AnchorSide)
    ensures
        spec_opposite_anchor_side(spec_opposite_anchor_side(side)) == side,
{
}

/// Every (side, alignment) pair is the decomposition of exactly one placement.
pub proof fn lemma_placement_parts_injective(a: AnchorPlacement, b: AnchorPlacement)
    requires
        spec_anchor_placement_parts(a) == spec_anchor_placement_parts(b),
    ensures
        a == b,
{
}

/// A color given by 8-bit red, green, blue and alpha channels.
#[derive(Clone, Copy, Debug, PartialEq, Eq, Structural)]
pub struct Rgba8 {
    pub r: u8,
    pub g: u8,
    pub b: u8,
    pub a: u8,
}

/// Highlight color of immutable-text selections.
pub fn static_selection_color() -> (color: Rgba8)
    ensures
        color == (Rgba8 { r: 48, g: 120, b: 196, a: 105 }),
{
    Rgba8 { r: 48, g: 120, b: 196, a: 105 }
}

} // verus!
