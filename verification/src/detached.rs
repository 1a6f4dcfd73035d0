use vstd::prelude::*;
use crate::element::{Element, UserSelect, div};

verus! {

broadcast use vstd::std_specs::vec::group_vec_axioms;

/// `after` is `before` stripped of identity, interaction, focus, tooltip, layering and transition
/// state (and of motion unless `preserve_motion`), every other property kept; its children are
/// compared separately.
pub open spec fn sanitized_node(before: Element, after: Element, preserve_motion: bool) -> bool {
    &&& after.runtime_id == 0
    &&& after.explicit_id is None
    &&& !after.clickable
    &&& !after.pointer_listener
    &&& !after.scroll_wheel_listener
    &&& !after.touch_listener
    &&& !after.mouse_pressure_listener
    &&& !after.pinch_listener
    &&& !after.rotation_listener
    &&& !after.smart_magnify_listener
    &&& !after.context_menu_listener
    &&& !after.drag_source
    &&& !after.drop_target
    &&& after.cursor_style is None
    &&& !after.cursor_style_explicit
    &&& after.disabled_cursor_style is None
    &&& after.user_select == UserSelect::Never
    &&& !after.resolved_user_select
    &&& !after.focusable
    &&& !after.focus_trap
    &&& !after.auto_focus
    &&& after.plane is None
    &&& after.tooltip is None
    &&& after.has_animation == (preserve_motion && before.has_animation)
    &&& after.has_spring == (preserve_motion && before.has_spring)
    &&& !after.has_transition
    &&& !after.blocks_pointer
    &&& after.display_none == before.display_none
    &&& after.visibility_hidden == before.visibility_hidden
    &&& after.kind == before.kind
    &&& after.accessibility == before.accessibility
    &&& after.tab_index == before.tab_index
    &&& after.z_index == before.z_index
    &&& after.form == before.form
    &&& after.form_submitter == before.form_submitter
    &&& after.shadows == before.shadows
    &&& after.tab_list_behavior == before.tab_list_behavior
    &&& after.activation_target is None
    &&& after.key_context is None
    &&& after.mouse_listeners == before.mouse_listeners
    &&& after.key_listeners == before.key_listeners
    &&& after.action_listeners == before.action_listeners
}

/// `after` is the subtree `before` with every node sanitized.
pub open spec fn sanitized(before: Element, after: Element, preserve_motion: bool) -> bool
    decreases before,
{
    &&& sanitized_node(before, after, preserve_motion)
    &&& after.children.len() == before.children.len()
    &&& forall|j: int| 0 <= j < before.children.len()
        ==> sanitized(#[trigger] before.children[j], after.children[j], preserve_motion)
}

fn sanitize_children(children: &mut Vec<Element>, preserve_motion: bool)
    ensures
        final(children).len() == old(children).len(),
        forall|j: int| 0 <= j < old(children).len()
            ==> sanitized(#[trigger] old(children)[j], final(children)[j], preserve_motion),
    decreases *old(children),
{
    let ghost original = *children;
    let mut i: usize = 0;
    while i < children.len()
        invariant
            original == *old(children),
            i <= children.len(),
            children.len() == original.len(),
            forall|j: int| i <= j < children.len() ==> children[j] == original[j],
            forall|j: int| 0 <= j < i ==> sanitized(#[trigger] original[j], children[j], preserve_motion),
        decreases children.len() - i,
    {
        assert(children[i as int] == original[i as int]);
        assert(decreases_to!(original => original[i as int]));
        sanitize_detached_element(&mut children[i], preserve_motion);
        i += 1;
    }
}

/// Makes a detached (tooltip or drag preview) tree pointer-passive and anonymous, node by node.
pub fn sanitize_detached_element(element: &mut Element, preserve_motion: bool)
    ensures
        sanitized(*old(element), *final(element), preserve_motion),
    decreases *old(element),
{
    let ghost original = *element;
    let mut taken = div();
    std::mem::swap(element, &mut taken);
    let Element {
        display_none,
        visibility_hidden,
        kind,
        accessibility,
        mut children,
        tab_index,
        z_index,
        form,
        form_submitter,
        has_animation,
        has_spring,
        shadows,
        tab_list_behavior,
        mouse_listeners,
        key_listeners,
        action_listeners,
        ..
    } = taken;
    assert(decreases_to!(original => original.children));
    sanitize_children(&mut children, preserve_motion);
    *element = Element {
        runtime_id: 0,
        explicit_id: None,
        display_none,
        visibility_hidden,
        kind,
        accessibility,
        children,
        focusable: false,
        tab_index,
        clickable: false,
        pointer_listener: false,
        focus_trap: false,
        auto_focus: false,
        plane: None,
        z_index,
        form,
        form_submitter,
        has_transition: false,
        tooltip: None,
        user_select: UserSelect::Never,
        resolved_user_select: false,
        cursor_style: None,
        cursor_style_explicit: false,
        disabled_cursor_style: None,
        drag_source: false,
        drop_target: false,
        scroll_wheel_listener: false,
        touch_listener: false,
        mouse_pressure_listener: false,
        pinch_listener: false,
        rotation_listener: false,
        smart_magnify_listener: false,
        context_menu_listener: false,
        blocks_pointer: false,
        has_animation: if preserve_motion { has_animation } else { false },
        has_spring: if preserve_motion { has_spring } else { false },
        shadows,
        tab_list_behavior,
        activation_target: None,
        mouse_listeners,
        key_listeners,
        action_listeners,
        key_context: None,
    };
}

} // verus!
