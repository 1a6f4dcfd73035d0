use vstd::prelude::*;
use crate::element::{
    AccessibilityRole, CursorStyle, Element, ElementKind, ShadowLayer, preorder, forest,
    keep_accessible,
};
use crate::traverse::lemma_forest_zero;

verus! {

broadcast use vstd::std_specs::vec::group_vec_axioms;

/// The text an element carries itself, when it is a plain or styled text leaf.
pub open spec fn text_content(e: Element) -> Option<Seq<char>> {
    match e.kind {
        ElementKind::Text(s) => Some(s@),
        ElementKind::StyledText(s) => Some(s@),
        _ => None,
    }
}

/// Appends one element's own text to an accessible name under construction, separating it
/// from earlier text with one space.
pub open spec fn join_piece(acc: Seq<char>, e: Element) -> Seq<char> {
    match text_content(e) {
        Some(t) => if acc.len() == 0 { t } else { acc + seq![' '] + t },
        None => acc,
    }
}

/// The text of the elements of `s`, in order, appended to `acc` with `join_piece`.
pub open spec fn joined_text(acc: Seq<char>, s: Seq<Element>) -> Seq<char>
    decreases s.len(),
{
    if s.len() == 0 {
        acc
    } else {
        join_piece(joined_text(acc, s.drop_last()), s.last())
    }
}

pub proof fn lemma_joined_text_concat(acc: Seq<char>, a: Seq<Element>, b: Seq<Element>)
    ensures
        joined_text(acc, a + b) == joined_text(joined_text(acc, a), b),
    decreases b.len(),
{
    if b.len() == 0 {
        assert(a + b == a);
    } else {
        lemma_joined_text_concat(acc, a, b.drop_last());
        assert((a + b).drop_last() == a + b.drop_last());
        assert((a + b).last() == b.last());
    }
}

pub proof fn lemma_joined_text_single(acc: Seq<char>, e: Element)
    ensures
        joined_text(acc, seq![e]) == join_piece(acc, e),
{
    assert(seq![e].drop_last() == Seq::<Element>::empty());
    assert(seq![e].last() == e);
    assert(joined_text(acc, Seq::<Element>::empty()) == acc);
}

/// Appends the text of the semantic subtree to `output`, in document order, one space between
/// pieces; elements hidden from assistive technology contribute nothing.
pub fn collect_text(element: &Element, output: &mut String)
    ensures
        final(output)@ == joined_text(old(output)@, preorder(*element, keep_accessible())),
    decreases element,
{
    let ghost keep = keep_accessible();
    if element.display_none || element.visibility_hidden || element.accessibility.hidden {
        assert(preorder(*element, keep) == Seq::<Element>::empty());
        return;
    }
    proof {
        reveal_strlit(" ");
    }
    match &element.kind {
        ElementKind::Text(content) => {
            if !output.as_str().is_empty() {
                output.append(" ");
            }
            output.append(content.as_str());
        },
        ElementKind::StyledText(content) => {
            if !output.as_str().is_empty() {
                output.append(" ");
            }
            output.append(content.as_str());
        },
        _ => {},
    }
    proof {
        lemma_joined_text_single(old(output)@, *element);
        lemma_forest_zero(*element, keep);
        assert(output@ =~= joined_text(old(output)@, seq![*element] + forest(*element, 0, keep)));
    }
    let mut i: usize = 0;
    while i < element.children.len()
        invariant
            i <= element.children.len(),
            keep == keep_accessible(),
            output@ == joined_text(old(output)@, seq![*element] + forest(*element, i as int, keep)),
        decreases element.children.len() - i,
    {
        collect_text(&element.children[i], output);
        proof {
            let prev = seq![*element] + forest(*element, i as int, keep);
            let sub = preorder(element.children[i as int], keep);
            lemma_joined_text_concat(old(output)@, prev, sub);
            assert(forest(*element, i + 1, keep) == forest(*element, i as int, keep) + sub);
            assert(prev + sub == seq![*element] + forest(*element, i + 1, keep));
        }
        i += 1;
    }
    assert(preorder(*element, keep) == seq![*element] + forest(*element, element.children.len() as int, keep));
}

/// The accessible name of an element: its explicit label, its own text, or (except for generic
/// containers) the text of its semantic subtree; nothing for hidden or nameless elements.
pub open spec fn spec_accessibility_label(e: Element) -> Option<Seq<char>> {
    if !(!e.display_none && !e.visibility_hidden && !e.accessibility.hidden) {
        None
    } else if e.accessibility.label is Some {
        Some(e.accessibility.label.unwrap()@)
    } else if text_content(e) is Some {
        text_content(e)
    } else if e.accessibility.role == AccessibilityRole::GenericContainer {
        None
    } else {
        let text = joined_text(Seq::empty(), preorder(e, keep_accessible()));
        if text.len() == 0 { None } else { Some(text) }
    }
}

/// Derives the accessible name of an element.
pub fn accessibility_label(element: &Element) -> (label: Option<String>)
    ensures
        match label {
            Some(s) => spec_accessibility_label(*element) == Some(s@),
            None => spec_accessibility_label(*element) is None,
        },
{
    if element.display_none || element.visibility_hidden || element.accessibility.hidden {
        return None;
    }
    if let Some(label) = &element.accessibility.label {
        return Some(label.clone());
    }
    match &element.kind {
        ElementKind::Text(content) => return Some(content.clone()),
        ElementKind::StyledText(content) => return Some(content.clone()),
        _ => {},
    }
    if element.accessibility.role == AccessibilityRole::GenericContainer {
        return None;
    }
    let mut label = String::new();
    collect_text(element, &mut label);
    if label.as_str().is_empty() {
        None
    } else {
        Some(label)
    }
}

/// The cursor an element shows: disabled elements keep only an explicit or disabled-state
/// cursor, explicit cursors win, drag sources show an open hand, selectable text an I-beam.
pub open spec fn spec_effective_cursor_style(e: Element, selectable_text: bool) -> Option<CursorStyle> {
    if e.accessibility.disabled {
        if e.disabled_cursor_style is Some {
            e.disabled_cursor_style
        } else if e.cursor_style_explicit {
            e.cursor_style
        } else {
            None
        }
    } else if e.cursor_style_explicit {
        e.cursor_style
    } else if e.drag_source {
        Some(CursorStyle::OpenHand)
    } else if e.cursor_style is Some {
        e.cursor_style
    } else if selectable_text {
        Some(CursorStyle::IBeam)
    } else {
        None
    }
}

/// Resolves the cursor an element shows.
pub fn effective_cursor_style(element: &Element, selectable_text: bool) -> (style: Option<CursorStyle>)
    ensures
        style == spec_effective_cursor_style(*element, selectable_text),
{
    if element.accessibility.disabled {
        return match element.disabled_cursor_style {
            Some(style) => Some(style),
            None => if element.cursor_style_explicit { element.cursor_style } else { None },
        };
    }
    if element.cursor_style_explicit {
        return element.cursor_style;
    }
    if element.drag_source {
        return Some(CursorStyle::OpenHand);
    }
    match element.cursor_style {
        Some(style) => Some(style),
        None => if selectable_text { Some(CursorStyle::IBeam) } else { None },
    }
}

/// A shadow list that holds at least one outset (non-inset) layer.
pub open spec fn list_has_outset(list: Option<Vec<ShadowLayer>>) -> bool {
    match list {
        Some(layers) => exists|i: int| 0 <= i < layers.len() && !(#[trigger] layers[i]).inset,
        None => false,
    }
}

fn has_outset(list: &Option<Vec<ShadowLayer>>) -> (found: bool)
    ensures
        found == list_has_outset(*list),
{
    match list {
        Some(layers) => {
            let mut i: usize = 0;
            while i < layers.len()
                invariant
                    i <= layers.len(),
                    *list == Some(*layers),
                    forall|j: int| 0 <= j < i ==> (#[trigger] layers[j]).inset,
                decreases layers.len() - i,
            {
                if !layers[i].inset {
                    assert(!layers[i as int].inset);
                    assert(list.unwrap()[i as int] == layers[i as int]);
                    return true;
                }
                i += 1;
            }
            false
        },
        None => false,
    }
}

/// Whether any style of the element (base or interaction state) declares an outset shadow.
pub fn element_has_outset_shadow(element: &Element) -> (found: bool)
    ensures
        found == (list_has_outset(element.shadows.visual) || list_has_outset(element.shadows.hover)
            || list_has_outset(element.shadows.active) || list_has_outset(element.shadows.focus)
            || list_has_outset(element.shadows.invalid) || list_has_outset(element.shadows.disabled)
            || list_has_outset(element.shadows.dragging) || list_has_outset(element.shadows.drag_over)),
{
    has_outset(&element.shadows.visual) || has_outset(&element.shadows.hover)
        || has_outset(&element.shadows.active) || has_outset(&element.shadows.focus)
        || has_outset(&element.shadows.invalid) || has_outset(&element.shadows.disabled)
        || has_outset(&element.shadows.dragging) || has_outset(&element.shadows.drag_over)
}

/// The text of an element that takes part in immutable-text selection.
pub open spec fn spec_selectable_text_content(e: Element) -> Option<String> {
    if !e.resolved_user_select {
        None
    } else {
        match e.kind {
            ElementKind::Text(s) => Some(s),
            ElementKind::StyledText(s) => Some(s),
            _ => None,
        }
    }
}

/// The selectable text of a text leaf whose resolved `user-select` allows selection.
pub fn selectable_text_content(element: &Element) -> (content: Option<&String>)
    ensures
        match content {
            Some(s) => spec_selectable_text_content(*element) == Some(*s),
            None => spec_selectable_text_content(*element) is None,
        },
{
    if !element.resolved_user_select {
        return None;
    }
    match &element.kind {
        ElementKind::Text(content) => Some(content),
        ElementKind::StyledText(content) => Some(content),
        _ => None,
    }
}


/// The accessible name of an element that is shown and not hidden from assistive technology is
/// its explicit label whenever it has one, whatever its kind or text; without a label a text leaf
/// is named by its own text; an element that is not shown, or is hidden from assistive
/// technology, has no name.
pub proof fn lemma_explicit_label_names_the_element(e: Element)
    ensures
        (e.display_none || e.visibility_hidden || e.accessibility.hidden) ==> spec_accessibility_label(e) is None,
        (!e.display_none && !e.visibility_hidden && !e.accessibility.hidden) ==> (
            e.accessibility.label matches Some(l) ==> spec_accessibility_label(e) == Some(l@)),
        (!e.display_none && !e.visibility_hidden && !e.accessibility.hidden && e.accessibility.label is None) ==> (
            e.kind matches ElementKind::Text(t) ==> spec_accessibility_label(e) == Some(t@)),
        (!e.display_none && !e.visibility_hidden && !e.accessibility.hidden && e.accessibility.label is None) ==> (
            e.kind matches ElementKind::StyledText(t) ==> spec_accessibility_label(e) == Some(t@)),
{
}

} // verus!
