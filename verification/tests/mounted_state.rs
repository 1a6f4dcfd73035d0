use std::collections::{HashMap, HashSet};

use ui_tree::dispatch::DispatchIndex;
use ui_tree::element::{button, div, text, AccessibilityRole, Tooltip};
use ui_tree::focus_order::{sort_focus_candidates, FocusCandidate};
use ui_tree::mounted::MountedState;
use ui_tree::registry::UiError;
use ui_tree::selectable::SelectableTextEntry;
use ui_tree::semantic_nodes::{build_semantic_nodes, SemanticContext};
use ui_tree::text_ids::sync_accessibility_text_ids;
use ui_tree::words::word_range_at;

fn ids(values: &[u64]) -> HashSet<u64> {
    values.iter().copied().collect()
}

#[test]
fn positive_tab_indices_come_first_then_document_order() {
    let candidates = vec![
        FocusCandidate { id: 10, tab_index: 0, order: 0 },
        FocusCandidate { id: 11, tab_index: 2, order: 1 },
        FocusCandidate { id: 12, tab_index: 1, order: 2 },
        FocusCandidate { id: 13, tab_index: 0, order: 3 },
        FocusCandidate { id: 14, tab_index: 1, order: 4 },
    ];
    let sorted: Vec<u64> = sort_focus_candidates(&candidates).iter().map(|c| c.id).collect();
    assert_eq!(sorted, vec![12, 14, 11, 10, 13]);
}

fn form_tree() -> ui_tree::element::Element {
    let mut first = button().id(2);
    first.tab_index = 0;
    let mut second = button().id(3);
    second.auto_focus = true;
    let mut hidden = button().id(4);
    hidden.display_none = true;
    div().id(1).child(first).child(second).child(hidden)
}

#[test]
fn syncing_a_root_prunes_state_of_removed_elements_and_settles_focus() {
    let mut state = MountedState::new();
    state.pointer.hovered.insert(2);
    state.pointer.hovered.insert(4);
    state.pointer.pressed = Some(4);
    state.pointer.scroll_offsets.insert(99);
    let root = form_tree();
    assert_eq!(state.sync_mounted_root(&root, &ids(&[1, 2, 3, 4]), 0, 8), Ok(()));
    assert_eq!(state.membership.visible_ids, ids(&[1, 2, 3]));
    assert_eq!(state.membership.displayed_ids, ids(&[1, 2, 3]));
    assert_eq!(state.pointer.hovered, ids(&[2]));
    assert_eq!(state.pointer.pressed, None);
    assert!(state.pointer.scroll_offsets.is_empty());
    assert_eq!(state.focus.focus_order, vec![2, 3]);
    assert_eq!(state.focus.focused, Some(3));
    assert!(!state.dirty);
}

#[test]
fn tab_moves_forward_wraps_and_shift_tab_returns() {
    let mut state = MountedState::new();
    let root = form_tree();
    assert_eq!(state.sync_mounted_root(&root, &ids(&[1, 2, 3, 4]), 0, 8), Ok(()));
    assert_eq!(state.focus.focused, Some(3));
    assert!(state.focus_next(&root, false, 0));
    assert_eq!(state.focus.focused, Some(2));
    assert!(state.focus_next(&root, true, 0));
    assert_eq!(state.focus.focused, Some(3));
    assert!(state.blur(0));
    assert!(state.focus_next(&root, true, 0));
    assert_eq!(state.focus.focused, Some(3));
}

#[test]
fn too_many_tooltips_fail_the_sync() {
    let mut a = button().id(2);
    a.tooltip = Some(Tooltip { text: String::from("one"), delay: 0 });
    let mut b = button().id(3);
    b.tooltip = Some(Tooltip { text: String::from("two"), delay: 0 });
    let root = div().id(1).child(a).child(b);
    let mut state = MountedState::new();
    assert_eq!(state.sync_mounted_root(&root, &ids(&[1, 2, 3]), 0, 1), Err(UiError::TooManyTooltips));
    let mut state = MountedState::new();
    assert_eq!(state.sync_mounted_root(&root, &ids(&[1, 2, 3]), 0, 2), Ok(()));
    assert_eq!(state.tooltips.tooltips.len(), 2);
}

#[test]
fn dispatch_index_links_parents_and_finds_forms() {
    let mut field = text("name").id(3);
    field.accessibility.invalid = true;
    let mut submit = button().id(4);
    submit.form_submitter = true;
    let mut form = div().id(2).child(field).child(submit);
    form.form = true;
    let root = div().id(1).child(form);
    let mut index = DispatchIndex::new();
    index.rebuild_dispatch_index(&root);
    assert_eq!(index.parents.get(&3), Some(&2));
    assert_eq!(index.parents.get(&2), Some(&1));
    assert_eq!(index.parents.get(&1), None);
    assert_eq!(index.invalid_ids, ids(&[3]));
    assert_eq!(index.form_for_control(3), Some(2));
    assert_eq!(index.form_for_submitter(4), Some(2));
    assert_eq!(index.form_for_submitter(3), None);
    assert_eq!(index.focus_path(Some(1), Some(4), 16), vec![1, 2, 4]);
    assert_eq!(index.focus_path(Some(1), Some(4), 2), vec![1]);
    assert_eq!(index.focus_path(Some(1), None, 16), vec![1]);
    let mut path = Vec::new();
    assert!(index.mouse_event_path_for_target(3, &mut path, 16));
    assert_eq!(path, vec![3, 2, 1]);
    assert!(!index.mouse_event_path_for_target(3, &mut path, 2));
    assert!(path.is_empty());
}

#[test]
fn semantic_nodes_keep_only_accessible_relations_and_mask_passwords() {
    let mut input = ui_tree::element::element_of(ui_tree::element::ElementKind::TextInput {
        value: String::from("e\u{301}x"),
        multiline: false,
        password: true,
        placeholder: String::new(),
    })
    .id(3);
    input.focusable = true;
    input.accessibility.role = AccessibilityRole::PasswordInput;
    input.accessibility.controls = Some(9);
    input.accessibility.labelled_by = Some(2);
    let label = text("Password").id(2);
    let root = div().id(1).child(label).child(input);

    let accessible = ids(&[1, 2, 3]);
    let laid_out = ids(&[1, 2, 3]);
    let mut input_texts = HashMap::new();
    input_texts.insert(3u64, String::from("e\u{301}x"));
    let mut text_ids = HashMap::new();
    text_ids.insert(3u64, 100u64);
    let texts: Vec<SelectableTextEntry> = Vec::new();
    let indices: HashMap<u64, usize> = HashMap::new();
    let context = SemanticContext {
        accessible_ids: &accessible,
        laid_out_ids: &laid_out,
        input_texts: &input_texts,
        text_ids: &text_ids,
        selectable_texts: &texts,
        selectable_text_indices: &indices,
        static_text_selection: None,
    };
    let mut nodes = Vec::new();
    build_semantic_nodes(&root, &context, &mut nodes);
    assert_eq!(nodes.len(), 3);
    assert_eq!(nodes[0].children, vec![2, 3]);
    assert_eq!(nodes[1].label.as_deref(), Some("Password"));
    let field = &nodes[2];
    assert_eq!(field.value.as_deref(), Some("\u{2022}\u{2022}"));
    assert_eq!(field.text_run, Some(100));
    assert_eq!(field.children, vec![100]);
    assert_eq!(field.controls, None);
    assert_eq!(field.labelled_by, Some(2));
    assert!(field.actions.set_value && field.actions.focus && !field.actions.click);
}

#[test]
fn double_click_selects_the_word_under_the_caret() {
    assert_eq!(word_range_at("hello world", 2), 0..5);
    assert_eq!(word_range_at("hello world", 8), 6..11);
    assert_eq!(word_range_at("hello world", 5), 5..6);
}

#[test]
fn text_run_ids_count_down_past_element_ids_and_stay_distinct() {
    let owners = ids(&[5, 6]);
    let root_id = u64::MAX;
    let elements = ids(&[root_id - 1, 5, 6]);
    let mut text_ids: HashMap<u64, u64> = HashMap::new();
    text_ids.insert(7, root_id - 2);
    text_ids.insert(5, root_id - 1);
    let mut next = root_id - 1;
    sync_accessibility_text_ids(&owners, &elements, &mut text_ids, &mut next);
    assert_eq!(text_ids.len(), 2);
    let mut values: Vec<u64> = text_ids.values().copied().collect();
    values.sort_unstable();
    assert_eq!(values, vec![root_id - 3, root_id - 2]);
    assert!(!text_ids.contains_key(&7));
}

#[test]
fn failed_sync_still_ends_a_scrollbar_drag_on_a_hidden_element() {
    let mut a = button().id(2);
    a.tooltip = Some(Tooltip { text: String::from("one"), delay: 0 });
    let mut b = button().id(3);
    b.tooltip = Some(Tooltip { text: String::from("two"), delay: 0 });
    let root = div().id(1).child(a).child(b);
    let mut state = MountedState::new();
    state.pointer.scrollbar_drag = Some(9);
    state.pointer.pressed = Some(9);
    assert_eq!(state.sync_mounted_root(&root, &ids(&[1, 2, 3]), 0, 1), Err(UiError::TooManyTooltips));
    assert_eq!(state.pointer.scrollbar_drag, None);
    assert_eq!(state.pointer.pressed, Some(9));
}

#[test]
fn retained_state_of_still_mounted_elements_survives_a_rerender() {
    let root = div().id(1).child(button().id(2)).child(div().id(3).child(button().id(4)));
    let mut state = MountedState::new();
    assert_eq!(state.sync_mounted_root(&root, &ids(&[1, 2, 3, 4]), 0, 8), Ok(()));
    assert!(state.focus(4, 0));
    state.pointer.pressed = Some(2);
    state.pointer.scroll_offsets.insert(3);
    state.pointer.scroll_end_states.insert(3);
    state.pointer.scrollbar_drag = Some(3);
    state.pointer.hovered_scrollbar = Some(3);

    let again = div().id(1).child(button().id(2)).child(div().id(3).child(button().id(4)));
    assert_eq!(state.sync_mounted_root(&again, &ids(&[1, 2, 3, 4]), 0, 8), Ok(()));
    assert_eq!(state.focus.focused, Some(4));
    assert_eq!(state.pointer.pressed, Some(2));
    assert!(state.pointer.scroll_offsets.contains(&3));
    assert!(state.pointer.scroll_end_states.contains(&3));
    assert_eq!(state.pointer.scrollbar_drag, Some(3));
    assert_eq!(state.pointer.hovered_scrollbar, Some(3));

    let without = div().id(1).child(button().id(2));
    assert_eq!(state.sync_mounted_root(&without, &ids(&[1, 2]), 0, 8), Ok(()));
    assert_eq!(state.focus.focused, None);
    assert_eq!(state.pointer.pressed, Some(2));
    assert!(!state.pointer.scroll_offsets.contains(&3));
    assert_eq!(state.pointer.scrollbar_drag, None);
}
