use vstd::prelude::*;
use std::collections::{HashMap, HashSet};
use vstd::string::StringSliceAdditionalSpecFns;
use crate::element::{
    AccessibilityAutoComplete, AccessibilityCollection, AccessibilityOrientation, AccessibilityPopup, AccessibilityRole,
    Element, ElementId, ElementKind, ToggleState, preorder, forest,
};
use crate::semantics::{accessibility_label, spec_accessibility_label};
use crate::selection::{
    StaticTextSelection, byte_len, key_le, spec_position_key, spec_range_for_entry, static_position_key,
    static_selection_range_for_entry,
};
use crate::selectable::SelectableTextEntry;
use crate::password::{PASSWORD_MASK_BYTES, PasswordDisplay, password_mask_char};
use crate::segments::grapheme_segments;

verus! {

broadcast use {vstd::std_specs::vec::group_vec_axioms, vstd::std_specs::hash::group_hash_axioms};

/// Actions an assistive technology may perform on a node.
#[derive(Clone, Copy, Debug, PartialEq, Eq, Structural)]
pub struct SemanticActions {
    pub focus: bool,
    pub blur: bool,
    pub click: bool,
    pub set_value: bool,
    pub set_text_selection: bool,
}

/// One node of the semantic (accessibility) tree, as plain values.
#[derive(Debug)]
pub struct SemanticNode {
    pub id: ElementId,
    pub role: AccessibilityRole,
    /// Accessible children in order, then the node's text run, if it has one.
    pub children: Vec<ElementId>,
    /// Id of the text run that carries the node's text.
    pub text_run: Option<ElementId>,
    pub label: Option<String>,
    pub description: Option<String>,
    pub value: Option<String>,
    /// Anchor and focus of the text selection, as byte offsets into `value`.
    pub text_selection: Option<(usize, usize)>,
    pub disabled: bool,
    pub required: bool,
    pub invalid: bool,
    pub modal: bool,
    pub selected: Option<bool>,
    pub toggled: Option<ToggleState>,
    pub expanded: Option<bool>,
    pub controls: Option<ElementId>,
    pub active_descendant: Option<ElementId>,
    pub labelled_by: Option<ElementId>,
    pub described_by: Vec<ElementId>,
    /// Placeholder of a text input whose editing state is exposed, when it has one.
    pub placeholder: Option<String>,
    pub has_popup: Option<AccessibilityPopup>,
    pub auto_complete: Option<AccessibilityAutoComplete>,
    pub orientation: Option<AccessibilityOrientation>,
    pub collection: AccessibilityCollection,
    pub actions: SemanticActions,
}

/// A semantic node as a value.
pub struct SemanticNodeView {
    pub id: ElementId,
    pub role: AccessibilityRole,
    pub children: Seq<ElementId>,
    pub text_run: Option<ElementId>,
    pub label: Option<Seq<char>>,
    pub description: Option<Seq<char>>,
    pub value: Option<Seq<char>>,
    pub text_selection: Option<(usize, usize)>,
    pub disabled: bool,
    pub required: bool,
    pub invalid: bool,
    pub modal: bool,
    pub selected: Option<bool>,
    pub toggled: Option<ToggleState>,
    pub expanded: Option<bool>,
    pub controls: Option<ElementId>,
    pub active_descendant: Option<ElementId>,
    pub labelled_by: Option<ElementId>,
    pub described_by: Seq<ElementId>,
    pub placeholder: Option<Seq<char>>,
    pub has_popup: Option<AccessibilityPopup>,
    pub auto_complete: Option<AccessibilityAutoComplete>,
    pub orientation: Option<AccessibilityOrientation>,
    pub collection: AccessibilityCollection,
    pub actions: SemanticActions,
}

pub open spec fn text_view(s: Option<String>) -> Option<Seq<char>> {
    match s {
        Some(s) => Some(s@),
        None => None,
    }
}

impl View for SemanticNode {
    type V = SemanticNodeView;

    open spec fn view(&self) -> SemanticNodeView {
        SemanticNodeView {
            id: self.id,
            role: self.role,
            children: self.children@,
            text_run: self.text_run,
            label: text_view(self.label),
            description: text_view(self.description),
            value: text_view(self.value),
            text_selection: self.text_selection,
            disabled: self.disabled,
            required: self.required,
            invalid: self.invalid,
            modal: self.modal,
            selected: self.selected,
            toggled: self.toggled,
            expanded: self.expanded,
            controls: self.controls,
            active_descendant: self.active_descendant,
            labelled_by: self.labelled_by,
            described_by: self.described_by@,
            placeholder: text_view(self.placeholder),
            has_popup: self.has_popup,
            auto_complete: self.auto_complete,
            orientation: self.orientation,
            collection: self.collection,
            actions: self.actions,
        }
    }
}

/// What the semantic tree is built from, besides the elements.
pub struct SemanticContext<'a> {
    /// Elements of the semantic tree.
    pub accessible_ids: &'a HashSet<ElementId>,
    /// Elements that have layout bounds.
    pub laid_out_ids: &'a HashSet<ElementId>,
    /// Current text of each text input that holds editing state.
    pub input_texts: &'a HashMap<ElementId, String>,
    /// Id of the text run node of each text input and selectable leaf.
    pub text_ids: &'a HashMap<ElementId, ElementId>,
    pub selectable_texts: &'a Vec<SelectableTextEntry>,
    pub selectable_text_indices: &'a HashMap<ElementId, usize>,
    pub static_text_selection: Option<StaticTextSelection>,
}

/// The ids of the children of `e` among the first `n` that are in `accessible`, in order.
pub open spec fn accessible_child_ids(e: Element, n: int, accessible: Set<ElementId>) -> Seq<ElementId>
    decreases n,
{
    if n <= 0 || n > e.children.len() {
        Seq::empty()
    } else {
        let rest = accessible_child_ids(e, n - 1, accessible);
        if accessible.contains(e.children[n - 1].runtime_id) { rest.push(e.children[n - 1].runtime_id) } else { rest }
    }
}

/// The text of a text input as exposed: its current text, masked when it is a password.
pub open spec fn exposed_input_text(e: Element, text: Seq<char>) -> Seq<char> {
    if e.kind matches ElementKind::TextInput { password, .. } && password {
        Seq::new(grapheme_segments(text).len(), |i: int| password_mask_char())
    } else {
        text
    }
}

/// The text input part of a node: its exposed text and text run, when it has editing state and a
/// text run id.
pub open spec fn input_part(e: Element, ctx: SemanticContext) -> Option<(Seq<char>, ElementId)> {
    if e.kind is TextInput && ctx.input_texts@.contains_key(e.runtime_id) && ctx.text_ids@.contains_key(e.runtime_id) {
        Some((exposed_input_text(e, ctx.input_texts@[e.runtime_id]@), ctx.text_ids@[e.runtime_id]))
    } else {
        None
    }
}

/// The selectable-text part of a node: its leaf index and text run, when it has both.
pub open spec fn selectable_part(e: Element, ctx: SemanticContext) -> Option<(usize, ElementId)> {
    if ctx.selectable_text_indices@.contains_key(e.runtime_id)
        && ctx.selectable_text_indices@[e.runtime_id] < ctx.selectable_texts@.len()
        && ctx.text_ids@.contains_key(e.runtime_id) {
        Some((ctx.selectable_text_indices@[e.runtime_id], ctx.text_ids@[e.runtime_id]))
    } else {
        None
    }
}

/// Whether the selection runs backwards (its anchor after its focus in document order).
pub open spec fn selection_reversed(selection: Option<StaticTextSelection>, indices: Map<ElementId, usize>) -> bool {
    match selection {
        Some(s) => match (spec_position_key(s.anchor, indices), spec_position_key(s.focus, indices)) {
            (Some(anchor), Some(focus)) => !key_le(anchor, focus),
            _ => false,
        },
        None => false,
    }
}

/// Anchor and focus byte offsets of the selection inside leaf `index` whose text is `content`.
pub open spec fn leaf_selection(ctx: SemanticContext, index: usize, content: Seq<char>) -> (usize, usize) {
    let len = vstd::utf8::encode_utf8(content).len() as usize;
    let (start, end) = match spec_range_for_entry(ctx.static_text_selection, ctx.selectable_text_indices@, index, len) {
        Some(r) => r,
        None => (0usize, 0usize),
    };
    if selection_reversed(ctx.static_text_selection, ctx.selectable_text_indices@) { (end, start) } else { (start, end) }
}

/// `target` when it names an element of the semantic tree (and, for a label or description
/// relation, another element).
pub open spec fn relation(target: Option<ElementId>, e: Element, accessible: Set<ElementId>, not_self: bool) -> Option<ElementId> {
    match target {
        Some(t) => if accessible.contains(t) && (!not_self || t != e.runtime_id) { Some(t) } else { None },
        None => None,
    }
}

pub open spec fn relation_list(e: Element, accessible: Set<ElementId>) -> Seq<ElementId> {
    let first = relation(e.accessibility.described_by, e, accessible, true);
    let second = relation(e.accessibility.described_by_secondary, e, accessible, true);
    let one: Seq<ElementId> = if first is Some { seq![first.unwrap()] } else { Seq::empty() };
    if second is Some { one.push(second.unwrap()) } else { one }
}

/// Every current input text can be shown masked (three bytes per grapheme fit in memory).
pub open spec fn input_texts_maskable(ctx: SemanticContext) -> bool {
    forall|id: ElementId| #[trigger] ctx.input_texts@.contains_key(id)
        ==> (vstd::utf8::encode_utf8(ctx.input_texts@[id]@).len() + 1) * PASSWORD_MASK_BYTES <= usize::MAX
}

fn masked(text: &str) -> (mask: String)
    requires
        (text.spec_bytes().len() + 1) * PASSWORD_MASK_BYTES <= usize::MAX,
    ensures
        mask@ == Seq::new(grapheme_segments(text@).len(), |i: int| password_mask_char()),
{
    let display = PasswordDisplay::new(text);
    display.content
}

/// The placeholder text of a text input (empty for any other element).
pub open spec fn input_placeholder(e: Element) -> Seq<char> {
    match e.kind {
        ElementKind::TextInput { placeholder, .. } => placeholder@,
        _ => Seq::empty(),
    }
}

/// The semantic node of element `e`.
pub open spec fn semantic_node(e: Element, ctx: SemanticContext) -> SemanticNodeView {
    let a = e.accessibility;
    let input = input_part(e, ctx);
    let leaf = if input is Some { None } else { selectable_part(e, ctx) };
    let text_run = if input is Some { Some(input.unwrap().1) } else if leaf is Some { Some(leaf.unwrap().1) } else { None };
    let own_children = accessible_child_ids(e, e.children.len() as int, ctx.accessible_ids@);
    let leaf_content = if leaf is Some { ctx.selectable_texts@[leaf.unwrap().0 as int].content@ } else { Seq::empty() };
    SemanticNodeView {
        id: e.runtime_id,
        role: a.role,
        children: if text_run is Some { own_children.push(text_run.unwrap()) } else { own_children },
        text_run,
        label: spec_accessibility_label(e),
        description: if a.invalid && a.validation_message is Some {
            text_view(a.validation_message)
        } else {
            text_view(a.description)
        },
        value: if input is Some {
            Some(input.unwrap().0)
        } else if leaf is Some {
            Some(leaf_content)
        } else {
            text_view(a.value)
        },
        text_selection: if leaf is Some { Some(leaf_selection(ctx, leaf.unwrap().0, leaf_content)) } else { None },
        disabled: a.disabled,
        required: a.required,
        invalid: a.invalid,
        modal: a.modal,
        selected: if a.role == AccessibilityRole::Tab { Some(a.selected) } else if a.selected { Some(true) } else { None },
        toggled: a.toggled,
        expanded: a.expanded,
        controls: relation(a.controls, e, ctx.accessible_ids@, false),
        active_descendant: relation(a.active_descendant, e, ctx.accessible_ids@, false),
        labelled_by: relation(a.labelled_by, e, ctx.accessible_ids@, true),
        described_by: relation_list(e, ctx.accessible_ids@),
        placeholder: if input is Some && input_placeholder(e).len() > 0 {
            Some(input_placeholder(e))
        } else {
            None
        },
        has_popup: a.has_popup,
        auto_complete: a.auto_complete,
        orientation: a.orientation,
        collection: a.collection,
        actions: SemanticActions {
            focus: e.focusable && !a.disabled,
            blur: e.focusable && !a.disabled,
            click: e.clickable && !a.disabled,
            set_value: input is Some && !a.disabled,
            set_text_selection: (input is Some || leaf is Some) && !a.disabled,
        },
    }
}

fn copy_text(s: &Option<String>) -> (copy: Option<String>)
    ensures
        text_view(copy) == text_view(*s),
{
    match s {
        Some(s) => Some(s.clone()),
        None => None,
    }
}

fn relation_of(target: Option<ElementId>, e: &Element, accessible: &HashSet<ElementId>, not_self: bool)
    -> (r: Option<ElementId>)
    ensures
        r == relation(target, *e, accessible@, not_self),
{
    match target {
        Some(t) => if accessible.contains(&t) && (!not_self || t != e.runtime_id) { Some(t) } else { None },
        None => None,
    }
}

/// Builds the semantic node of one element of the semantic tree.
pub fn build_semantic_node(e: &Element, ctx: &SemanticContext) -> (node: SemanticNode)
    requires
        input_texts_maskable(*ctx),
    ensures
        node@ == semantic_node(*e, *ctx),
{
    let a = &e.accessibility;
    let mut children: Vec<ElementId> = Vec::new();
    let mut i: usize = 0;
    while i < e.children.len()
        invariant
            i <= e.children.len(),
            children@ == accessible_child_ids(*e, i as int, ctx.accessible_ids@),
        decreases e.children.len() - i,
    {
        let id = e.children[i].runtime_id;
        if ctx.accessible_ids.contains(&id) {
            children.push(id);
        }
        i += 1;
    }
    let is_input = match &e.kind {
        ElementKind::TextInput { .. } => true,
        _ => false,
    };
    let mut input: Option<(String, ElementId)> = None;
    if is_input {
        match (ctx.input_texts.get(&e.runtime_id), ctx.text_ids.get(&e.runtime_id)) {
            (Some(text), Some(text_id)) => {
                let exposed = match &e.kind {
                    ElementKind::TextInput { password: true, .. } => masked(text.as_str()),
                    _ => text.clone(),
                };
                input = Some((exposed, *text_id));
            },
            _ => {},
        }
    }
    let mut leaf: Option<(usize, ElementId)> = None;
    if input.is_none() {
        match (ctx.selectable_text_indices.get(&e.runtime_id), ctx.text_ids.get(&e.runtime_id)) {
            (Some(index), Some(text_id)) => if *index < ctx.selectable_texts.len() {
                leaf = Some((*index, *text_id));
            },
            _ => {},
        }
    }
    let has_input = input.is_some();
    let mut value = copy_text(&a.value);
    let mut text_selection: Option<(usize, usize)> = None;
    let mut text_run: Option<ElementId> = None;
    match input {
        Some((text, text_id)) => {
            value = Some(text);
            text_run = Some(text_id);
        },
        None => match leaf {
            Some((index, text_id)) => {
                let content = &ctx.selectable_texts[index].content;
                value = Some(content.clone());
                text_run = Some(text_id);
                let len = byte_len(content.as_str());
                let (start, end) = match static_selection_range_for_entry(
                    ctx.static_text_selection, ctx.selectable_text_indices, index, len) {
                    Some(r) => (r.start, r.end),
                    None => (0, 0),
                };
                let reversed = match ctx.static_text_selection {
                    Some(s) => match (static_position_key(s.anchor, ctx.selectable_text_indices),
                        static_position_key(s.focus, ctx.selectable_text_indices)) {
                        (Some(anchor), Some(focus)) => anchor.0 > focus.0 || (anchor.0 == focus.0 && anchor.1 > focus.1),
                        _ => false,
                    },
                    None => false,
                };
                text_selection = Some(if reversed { (end, start) } else { (start, end) });
            },
            None => {},
        },
    }
    if let Some(text_id) = text_run {
        children.push(text_id);
    }
    let description = if a.invalid && a.validation_message.is_some() {
        copy_text(&a.validation_message)
    } else {
        copy_text(&a.description)
    };
    let mut described_by: Vec<ElementId> = Vec::new();
    if let Some(t) = relation_of(a.described_by, e, ctx.accessible_ids, true) {
        described_by.push(t);
    }
    if let Some(t) = relation_of(a.described_by_secondary, e, ctx.accessible_ids, true) {
        described_by.push(t);
    }
    let editable = text_run.is_some();
    let placeholder = match &e.kind {
        ElementKind::TextInput { placeholder, .. } => if has_input && !placeholder.as_str().is_empty() {
            Some(placeholder.clone())
        } else {
            None
        },
        _ => None,
    };
    SemanticNode {
        id: e.runtime_id,
        role: a.role,
        children,
        text_run,
        label: accessibility_label(e),
        description,
        value,
        text_selection,
        disabled: a.disabled,
        required: a.required,
        invalid: a.invalid,
        modal: a.modal,
        selected: if a.role == AccessibilityRole::Tab { Some(a.selected) } else if a.selected { Some(true) } else { None },
        toggled: a.toggled,
        expanded: a.expanded,
        controls: relation_of(a.controls, e, ctx.accessible_ids, false),
        active_descendant: relation_of(a.active_descendant, e, ctx.accessible_ids, false),
        labelled_by: relation_of(a.labelled_by, e, ctx.accessible_ids, true),
        described_by,
        placeholder,
        has_popup: a.has_popup,
        auto_complete: a.auto_complete,
        orientation: a.orientation,
        collection: a.collection,
        actions: SemanticActions {
            focus: e.focusable && !a.disabled,
            blur: e.focusable && !a.disabled,
            click: e.clickable && !a.disabled,
            set_value: has_input && !a.disabled,
            set_text_selection: editable && !a.disabled,
        },
    }
}

/// The elements that get a node: those of the semantic tree with layout bounds; an element left
/// out takes its subtree with it.
pub open spec fn keep_semantic(ctx: SemanticContext) -> spec_fn(Element) -> bool {
    |e: Element| ctx.accessible_ids@.contains(e.runtime_id) && ctx.laid_out_ids@.contains(e.runtime_id)
}

pub open spec fn node_views(nodes: Seq<SemanticNode>) -> Seq<SemanticNodeView> {
    nodes.map_values(|n: SemanticNode| n@)
}

/// The semantic nodes of a sequence of elements.
pub open spec fn semantic_nodes(s: Seq<Element>, ctx: SemanticContext) -> Seq<SemanticNodeView> {
    s.map_values(|e: Element| semantic_node(e, ctx))
}

/// Appends the semantic nodes of the subtree of `element` in document order.
pub fn build_semantic_nodes(element: &Element, ctx: &SemanticContext, nodes: &mut Vec<SemanticNode>)
    requires
        input_texts_maskable(*ctx),
    ensures
        node_views(final(nodes)@) == node_views(old(nodes)@) + semantic_nodes(preorder(*element, keep_semantic(*ctx)), *ctx),
    decreases element,
{
    let ghost keep = keep_semantic(*ctx);
    if !ctx.accessible_ids.contains(&element.runtime_id) || !ctx.laid_out_ids.contains(&element.runtime_id) {
        assert(node_views(nodes@) =~= node_views(old(nodes)@) + semantic_nodes(Seq::<Element>::empty(), *ctx));
        return;
    }
    let node = build_semantic_node(element, ctx);
    nodes.push(node);
    proof {
        crate::traverse::lemma_forest_zero(*element, keep);
        assert(node_views(nodes@) =~= node_views(old(nodes)@) + semantic_nodes(seq![*element] + forest(*element, 0, keep), *ctx));
    }
    let mut i: usize = 0;
    while i < element.children.len()
        invariant
            i <= element.children.len(),
            keep == keep_semantic(*ctx),
            keep(*element),
            input_texts_maskable(*ctx),
            node_views(nodes@) == node_views(old(nodes)@) + semantic_nodes(seq![*element] + forest(*element, i as int, keep), *ctx),
        decreases element.children.len() - i,
    {
        let ghost before = nodes@;
        build_semantic_nodes(&element.children[i], ctx, nodes);
        proof {
            let sub = preorder(element.children[i as int], keep);
            assert(forest(*element, i + 1, keep) == forest(*element, i as int, keep) + sub);
            assert(seq![*element] + forest(*element, i + 1, keep) == (seq![*element] + forest(*element, i as int, keep)) + sub);
            assert(semantic_nodes((seq![*element] + forest(*element, i as int, keep)) + sub, *ctx)
                =~= semantic_nodes(seq![*element] + forest(*element, i as int, keep), *ctx) + semantic_nodes(sub, *ctx));
            assert(node_views(nodes@) =~= node_views(old(nodes)@) + semantic_nodes(seq![*element] + forest(*element, i + 1, keep), *ctx));
        }
        i += 1;
    }
    assert(preorder(*element, keep) == seq![*element] + forest(*element, element.children.len() as int, keep));
}

/// Bytes taken by the first `count` characters whose UTF-8 lengths are `lengths`.
pub open spec fn prefix_len(lengths: Seq<u8>, count: int) -> int
    decreases count,
{
    if count <= 0 || count > lengths.len() {
        0
    } else {
        prefix_len(lengths, count - 1) + lengths[count - 1]
    }
}

proof fn lemma_prefix_len_nonneg(lengths: Seq<u8>, count: int)
    ensures
        prefix_len(lengths, count) >= 0,
    decreases count,
{
    if count > 0 && count <= lengths.len() {
        lemma_prefix_len_nonneg(lengths, count - 1);
    }
}

/// The index of the character (of a text run whose characters take `lengths` UTF-8 bytes) that
/// starts at or first after byte `offset`; the character count when none does.
pub fn character_index(lengths: &[u8], offset: usize) -> (index: usize)
    ensures
        index <= lengths@.len(),
        forall|j: int| 0 <= j < index ==> prefix_len(lengths@, j) < offset,
        index < lengths@.len() ==> prefix_len(lengths@, index as int) >= offset,
{
    let mut consumed: usize = 0;
    let mut index: usize = 0;
    while index < lengths.len()
        invariant
            index <= lengths@.len(),
            consumed as int == if prefix_len(lengths@, index as int) < usize::MAX { prefix_len(lengths@, index as int) } else { usize::MAX as int },
            forall|j: int| 0 <= j < index ==> prefix_len(lengths@, j) < offset,
        decreases lengths.len() - index,
    {
        proof {
            lemma_prefix_len_nonneg(lengths@, index as int);
        }
        if consumed >= offset {
            return index;
        }
        consumed = consumed.saturating_add(lengths[index] as usize);
        assert(prefix_len(lengths@, index + 1) == prefix_len(lengths@, index as int) + lengths@[index as int]);
        index += 1;
    }
    index
}

} // verus!
