use vstd::prelude::*;
use crate::element::ElementId;

verus! {

/// When a dismissible surface asks to be closed.
#[derive(Clone, Copy, Debug, PartialEq, Eq, Structural)]
pub struct DismissPolicy {
    /// On the Escape key.
    pub escape: bool,
    /// On a press outside the surface.
    pub pointer_outside: bool,
}

impl DismissPolicy {
    /// Never dismissed by itself.
    pub fn none() -> (p: DismissPolicy)
        ensures
            !p.escape && !p.pointer_outside,
    {
        DismissPolicy { escape: false, pointer_outside: false }
    }

    pub fn with_escape(self) -> (p: DismissPolicy)
        ensures
            p.escape && p.pointer_outside == self.pointer_outside,
    {
        DismissPolicy { escape: true, pointer_outside: self.pointer_outside }
    }

    pub fn with_pointer_outside(self) -> (p: DismissPolicy)
        ensures
            p.pointer_outside && p.escape == self.escape,
    {
        DismissPolicy { escape: self.escape, pointer_outside: true }
    }
}

/// A painted dismissible surface, by what the dismissal decision reads of it.
#[derive(Clone, Copy, Debug, PartialEq, Eq, Structural)]
pub struct DismissRegion {
    pub id: ElementId,
    pub policy: DismissPolicy,
    /// Where focus returns once the surface is closed.
    pub restore_focus: Option<ElementId>,
}

/// A request to close the surface `id`.
#[derive(Clone, Copy, Debug, PartialEq, Eq, Structural)]
pub struct DismissRequest {
    pub id: ElementId,
    pub restore_focus: Option<ElementId>,
}

pub open spec fn request_for(region: DismissRegion) -> DismissRequest {
    DismissRequest { id: region.id, restore_focus: region.restore_focus }
}

/// What Escape closes: the topmost surface (the last of `regions`, which are in paint order),
/// when its policy closes it on Escape.
pub fn dismiss_topmost(regions: &[DismissRegion]) -> (request: Option<DismissRequest>)
    ensures
        request == (if regions@.len() > 0 && regions@.last().policy.escape {
            Some(request_for(regions@.last()))
        } else {
            None
        }),
{
    if regions.len() == 0 {
        return None;
    }
    let top = regions[regions.len() - 1];
    if top.policy.escape {
        Some(DismissRequest { id: top.id, restore_focus: top.restore_focus })
    } else {
        None
    }
}

/// What a press closes: the topmost surface, when its policy closes it on outside presses and
/// the press is not inside it (`pointer_inside`: the pointer is known and lies within the topmost
/// surface).
pub fn dismiss_request_for_pointer(regions: &[DismissRegion], pointer_inside: bool) -> (request: Option<DismissRequest>)
    ensures
        request == (if regions@.len() > 0 && regions@.last().policy.pointer_outside && !pointer_inside {
            Some(request_for(regions@.last()))
        } else {
            None
        }),
{
    if regions.len() == 0 {
        return None;
    }
    let top = regions[regions.len() - 1];
    if top.policy.pointer_outside && !pointer_inside {
        Some(DismissRequest { id: top.id, restore_focus: top.restore_focus })
    } else {
        None
    }
}

} // verus!
