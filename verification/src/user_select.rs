use vstd::prelude::*;
use crate::element::{AccessibilityRole, Element, ElementKind, UserSelect, div};

verus! {

broadcast use vstd::std_specs::vec::group_vec_axioms;

/// Roles whose text is never selected automatically: activating them is what a press is for.
pub open spec fn activation_role(role: AccessibilityRole) -> bool {
    ||| role == AccessibilityRole::Button
    ||| role == AccessibilityRole::CheckBox
    ||| role == AccessibilityRole::MenuItem
    ||| role == AccessibilityRole::MenuItemCheckBox
    ||| role == AccessibilityRole::MenuItemRadio
}

/// What `UserSelect::Auto` comes to: selectable when the parent's text is, unless the element
/// reacts to presses or drags, has an activation role, or is a text input (which selects its own
/// text).
pub open spec fn automatic_user_select(e: Element, inherited: bool) -> bool {
    &&& inherited
    &&& !e.clickable
    &&& !e.pointer_listener
    &&& !e.drag_source
    &&& !activation_role(e.accessibility.role)
    &&& !(e.kind is TextInput)
}

/// Whether the element's text can be selected, given whether its parent's can.
pub open spec fn resolved_user_select(e: Element, inherited: bool) -> bool {
    match e.user_select {
        UserSelect::Auto => automatic_user_select(e, inherited),
        UserSelect::Text => true,
        UserSelect::Never => false,
    }
}

/// `after` is `before` with its resolved selectability set, under a parent whose text is
/// selectable when `inherited`, and nothing else changed (its children are compared separately).
pub open spec fn user_select_node(before: Element, after: Element, inherited: bool) -> bool {
    &&& after == (Element {
        resolved_user_select: resolved_user_select(before, inherited),
        children: after.children,
        ..before
    })
    &&& after.children.len() == before.children.len()
}

/// `after` is the subtree `before` with every element's resolved selectability set from its
/// declaration and its parent's, under a parent whose text is selectable when `inherited`;
/// nothing else changed.
pub open spec fn user_select_resolved(before: Element, after: Element, inherited: bool) -> bool
    decreases before,
{
    &&& user_select_node(before, after, inherited)
    &&& forall|j: int| 0 <= j < before.children.len()
        ==> user_select_resolved(#[trigger] before.children[j], after.children[j], resolved_user_select(before, inherited))
}

fn is_activation_role(role: AccessibilityRole) -> (b: bool)
    ensures
        b == activation_role(role),
{
    match role {
        AccessibilityRole::Button | AccessibilityRole::CheckBox | AccessibilityRole::MenuItem
        | AccessibilityRole::MenuItemCheckBox | AccessibilityRole::MenuItemRadio => true,
        _ => false,
    }
}

/// Resolves the text selectability of every element of the subtree, the root's parent being
/// selectable when `inherited`.
pub fn resolve_user_select(element: &mut Element, inherited: bool)
    ensures
        user_select_resolved(*old(element), *final(element), inherited),
    decreases *old(element), 1nat,
{
    let ghost original = *element;
    let resolved = resolved_for(element, inherited);
    let mut taken = div();
    std::mem::swap(element, &mut taken);
    let mut children = taken.children;
    assert(decreases_to!(original => original.children));
    resolve_forest_user_select(&mut children, resolved, Ghost(original));
    *element = Element { resolved_user_select: resolved, children, ..taken };
}

fn resolved_for(element: &Element, inherited: bool) -> (resolved: bool)
    ensures
        resolved == resolved_user_select(*element, inherited),
{
    let is_input = match &element.kind {
        ElementKind::TextInput { .. } => true,
        _ => false,
    };
    let automatic = inherited && !element.clickable && !element.pointer_listener && !element.drag_source
        && !is_activation_role(element.accessibility.role) && !is_input;
    match element.user_select {
        UserSelect::Auto => automatic,
        UserSelect::Text => true,
        UserSelect::Never => false,
    }
}

fn resolve_forest_user_select(children: &mut Vec<Element>, inherited: bool, Ghost(parent): Ghost<Element>)
    requires
        *old(children) == parent.children,
    ensures
        final(children).len() == old(children).len(),
        forall|j: int| 0 <= j < old(children).len()
            ==> user_select_resolved(#[trigger] old(children)[j], final(children)[j], inherited),
    decreases parent, 0nat,
{
    let ghost original = *children;
    let mut i: usize = 0;
    while i < children.len()
        invariant
            original == *old(children),
            original == parent.children,
            i <= children.len(),
            children.len() == original.len(),
            forall|j: int| i <= j < children.len() ==> children[j] == original[j],
            forall|j: int| 0 <= j < i ==> user_select_resolved(original[j], #[trigger] children[j], inherited),
        decreases children.len() - i,
    {
        assert(children[i as int] == original[i as int]);
        assert(decreases_to!(parent => parent.children[i as int]));
        resolve_user_select(&mut children[i], inherited);
        i += 1;
    }
}

} // verus!
