use std::collections::{HashMap, HashSet};

use ui_tree::animation::{AnimationPlayback, ScrollbarState};
use ui_tree::element::{
    button, div, element_of, text, AccessibilityRole, AnimatedImage, AnimationRepeat, Element, ElementKind,
    ScenePlane, ToggleState, Tooltip, UserSelect,
};
use ui_tree::container_query::validate_container_query_limits;
use ui_tree::mounted::MountedState;
use ui_tree::registry::{validate_style_transition_count, UiError};
use ui_tree::selectable::{selected_static_text, SelectableTextEntry};
use ui_tree::pointer::STATIC_TEXT_MULTI_CLICK_INTERVAL;
use ui_tree::selection::{line_range_at, StaticTextPosition, StaticTextSelection, StaticTextSelectionUnit};
use ui_tree::semantic_nodes::{build_semantic_nodes, SemanticContext, SemanticNode};
use ui_tree::submission::{FormAttempt, FormLimits};
use ui_tree::tree::{accessibility_tree_contains, collect_accessible_ids, collect_displayed_ids, collect_visible_ids};
use ui_tree::user_select::resolve_user_select;
use ui_tree::words::word_range_at;

const MILLISECOND: u64 = 1_000_000;

fn all_ids(root: &Element) -> HashSet<u64> {
    let mut ids = HashSet::new();
    collect_displayed_ids(root, &mut ids);
    ids
}

fn text_input(value: &str) -> Element {
    element_of(ElementKind::TextInput { value: String::from(value), multiline: false, password: false, placeholder: String::new() })
}

/// The semantic nodes of a mounted root, every displayed element laid out.
fn semantic_nodes(state: &MountedState, root: &Element, input_texts: &HashMap<u64, String>) -> Vec<SemanticNode> {
    let mut accessible = HashSet::new();
    collect_accessible_ids(root, &mut accessible);
    let laid_out = all_ids(root);
    let context = SemanticContext {
        accessible_ids: &accessible,
        laid_out_ids: &laid_out,
        input_texts,
        text_ids: &state.accessibility_text_ids,
        selectable_texts: &state.text.selectable_texts,
        selectable_text_indices: &state.text.selectable_text_indices,
        static_text_selection: state.text.static_text_selection,
    };
    let mut nodes = Vec::new();
    build_semantic_nodes(root, &context, &mut nodes);
    nodes
}

fn node(nodes: &[SemanticNode], id: u64) -> Option<&SemanticNode> {
    nodes.iter().find(|n| n.id == id)
}

#[test]
fn tab_order_prioritizes_positive_indices_and_skips_disabled_controls() {
    let root = div()
        .child(button().id(10).clickable().tab_index(2))
        .child(button().id(20).clickable())
        .child(button().id(30).clickable().tab_index(1))
        .child(button().id(40).clickable().disabled(true));
    let mut tree = MountedState::new();
    tree.focus.rebuild_focus_index(&root);
    assert_eq!(tree.focus.focus_order, vec![30, 10, 20]);
    assert!(tree.focus_next(&root, false, 0));
    assert_eq!(tree.focus.focused, Some(30));
    assert!(tree.focus_next(&root, true, 0));
    assert_eq!(tree.focus.focused, Some(20));
    assert!(!tree.focus.focusable_ids.contains(&40));
}

fn trap(id: u64, z_index: i32, children: Vec<Element>) -> Element {
    let mut layer = div().id(id);
    layer.plane = Some(ScenePlane::Overlay);
    layer.z_index = Some(z_index);
    layer.focus_trap = true;
    for child in children {
        layer = layer.child(child);
    }
    layer
}

#[test]
fn topmost_focus_trap_contains_focus_and_falls_back_to_the_remaining_layer() {
    let root = div()
        .child(button().id(1))
        .child(trap(10, 1, vec![button().id(11)]))
        .child(trap(20, 2, vec![button().id(21), button().id(22)]));
    let mut tree = MountedState::new();
    tree.focus.rebuild_focus_index(&root);
    assert_eq!(tree.focus.active_focus_trap, Some(20));
    assert_eq!(tree.focus.focus_order, vec![21, 22]);
    assert_eq!(tree.focus.focused, Some(21));
    assert!(!tree.focus(1, 0));
    assert!(!tree.focus(11, 0));
    assert!(tree.focus_next(&root, false, 0));
    assert_eq!(tree.focus.focused, Some(22));
    assert!(tree.focus_next(&root, false, 0));
    assert_eq!(tree.focus.focused, Some(21));

    let root = div().child(button().id(1)).child(trap(10, 1, vec![button().id(11)]));
    tree.focus.rebuild_focus_index(&root);
    assert_eq!(tree.focus.active_focus_trap, Some(10));
    assert_eq!(tree.focus.focus_order, vec![11]);
    assert_eq!(tree.focus.focused, Some(11));
}

#[test]
fn accessibility_hidden_suppresses_only_the_native_semantic_subtree() {
    let input_id = 31;
    let visual_list_id = 32;
    let visual_option_id = 33;
    let proxy_list_id = 34;
    let proxy_option_id = 35;
    let dangling_control_id = 36;
    let mut input = text_input("ap").id(input_id).role(AccessibilityRole::EditableComboBox);
    input.accessibility.controls = Some(proxy_list_id);
    input.accessibility.active_descendant = Some(proxy_option_id);
    let mut dangling = button().id(dangling_control_id).child(text("Hidden relation target"));
    dangling.accessibility.controls = Some(visual_option_id);
    let root = div()
        .child(input)
        .child(
            div()
                .id(visual_list_id)
                .accessibility_hidden(true)
                .child(button().id(visual_option_id).clickable().child(text("Visual Apple"))),
        )
        .child(
            div()
                .id(proxy_list_id)
                .role(AccessibilityRole::ListBox)
                .child(div().id(proxy_option_id).role(AccessibilityRole::ListBoxOption).child(text("Apple"))),
        )
        .child(dangling);
    let mut tree = MountedState::new();
    assert_eq!(tree.sync_mounted_root(&root, &all_ids(&root), 0, 8), Ok(()));
    assert!(tree.focus.clickable_ids.contains(&visual_option_id));

    let mut input_texts = HashMap::new();
    input_texts.insert(input_id, String::from("ap"));
    let nodes = semantic_nodes(&tree, &root, &input_texts);
    assert!(node(&nodes, visual_list_id).is_none());
    assert!(node(&nodes, visual_option_id).is_none());
    assert_eq!(node(&nodes, input_id).expect("owner input").controls, Some(proxy_list_id));
    assert_eq!(node(&nodes, input_id).expect("owner input").active_descendant, Some(proxy_option_id));
    assert!(node(&nodes, proxy_list_id).is_some());
    assert!(node(&nodes, proxy_option_id).is_some());
    assert_eq!(node(&nodes, dangling_control_id).expect("visible control").controls, None);
}

fn toggle_control(id: u64, role: AccessibilityRole, state: ToggleState, indicator: &str, label: &str) -> Element {
    let mut control = div()
        .id(id)
        .role(role)
        .clickable()
        .focusable(true)
        .child(div().accessibility_hidden(true).child(text(indicator)))
        .child(text(label));
    control.accessibility.toggled = Some(state);
    control
}

#[test]
fn selection_controls_project_exact_roles_toggle_states_and_actions() {
    let checkbox_id = 41;
    let radio_id = 42;
    let switch_id = 43;
    let disabled_id = 44;
    let mut checkbox =
        toggle_control(checkbox_id, AccessibilityRole::CheckBox, ToggleState::Mixed, "decorative mixed mark", "Partial selection");
    checkbox.accessibility.description = Some(String::from("Some files are selected"));
    let radio = toggle_control(radio_id, AccessibilityRole::RadioButton, ToggleState::On, "decorative radio dot", "Selected radio");
    let switch = toggle_control(switch_id, AccessibilityRole::Switch, ToggleState::Off, "decorative switch thumb", "Inactive switch");
    let mut disabled = div().id(disabled_id).role(AccessibilityRole::CheckBox).clickable().focusable(true);
    disabled.accessibility.toggled = Some(ToggleState::Off);
    let disabled = disabled.disabled(true).child(text("Unavailable"));
    let root = div().child(checkbox).child(radio).child(switch).child(disabled);
    let mut tree = MountedState::new();
    assert_eq!(tree.sync_mounted_root(&root, &all_ids(&root), 0, 8), Ok(()));
    let nodes = semantic_nodes(&tree, &root, &HashMap::new());
    let node = |id| node(&nodes, id).expect("selection accessibility node");

    assert_eq!(node(checkbox_id).role, AccessibilityRole::CheckBox);
    assert_eq!(node(checkbox_id).toggled, Some(ToggleState::Mixed));
    assert_eq!(node(checkbox_id).label.as_deref(), Some("Partial selection"));
    assert_eq!(node(checkbox_id).description.as_deref(), Some("Some files are selected"));
    assert!(node(checkbox_id).actions.click);
    assert_eq!(node(radio_id).role, AccessibilityRole::RadioButton);
    assert_eq!(node(radio_id).toggled, Some(ToggleState::On));
    assert_eq!(node(radio_id).label.as_deref(), Some("Selected radio"));
    assert_eq!(node(switch_id).role, AccessibilityRole::Switch);
    assert_eq!(node(switch_id).toggled, Some(ToggleState::Off));
    assert_eq!(node(switch_id).label.as_deref(), Some("Inactive switch"));
    assert!(node(disabled_id).disabled);
    assert!(!node(disabled_id).actions.click);
    assert!(!node(disabled_id).actions.focus);
}

#[test]
fn alert_dialog_projects_modal_role_and_mounted_title_description_relations() {
    let popup_id = 51;
    let title_id = 52;
    let description_id = 53;
    let mut popup = div()
        .id(popup_id)
        .role(AccessibilityRole::AlertDialog)
        .child(text("Delete file?").id(title_id))
        .child(text("This cannot be undone.").id(description_id));
    popup.accessibility.modal = true;
    popup.accessibility.labelled_by = Some(title_id);
    popup.accessibility.described_by = Some(description_id);
    let root = div().id(50).child(div().id(54)).child(popup);
    let mut tree = MountedState::new();
    assert_eq!(tree.sync_mounted_root(&root, &all_ids(&root), 0, 8), Ok(()));
    let nodes = semantic_nodes(&tree, &root, &HashMap::new());
    let node = |id| node(&nodes, id).expect("dialog accessibility node");

    let popup = node(popup_id);
    assert_eq!(popup.role, AccessibilityRole::AlertDialog);
    assert!(popup.modal);
    assert_eq!(popup.labelled_by, Some(title_id));
    assert_eq!(popup.described_by, vec![description_id]);
    assert_eq!(node(title_id).label.as_deref(), Some("Delete file?"));
    assert_eq!(node(description_id).label.as_deref(), Some("This cannot be undone."));
}

#[test]
fn invalid_controls_expose_native_state_and_validation_description() {
    let id = 45;
    let mut root = text_input("").id(id).focusable(true);
    root.accessibility.required = true;
    root.accessibility.invalid = true;
    root.accessibility.validation_message = Some(String::from("A value is required"));
    let mut tree = MountedState::new();
    assert_eq!(tree.sync_mounted_root(&root, &all_ids(&root), 0, 8), Ok(()));
    assert!(tree.focus(id, 0));
    let mut input_texts = HashMap::new();
    input_texts.insert(id, String::new());
    let nodes = semantic_nodes(&tree, &root, &input_texts);
    let node = node(&nodes, id).expect("input accessibility node");
    assert!(node.invalid);
    assert!(node.required);
    assert_eq!(node.description.as_deref(), Some("A value is required"));
}

#[test]
fn focusing_an_input_clears_static_selection_and_keeps_clipboards_separate() {
    let text_id = 401;
    let input_id = 402;
    let root = div();
    let mut tree = MountedState::new();
    tree.text.selectable_texts.push(SelectableTextEntry { id: text_id, content: String::from("document") });
    tree.text.selectable_text_indices.insert(text_id, 0);
    tree.text.static_text_selection = Some(StaticTextSelection {
        anchor: StaticTextPosition { id: text_id, offset: 0 },
        focus: StaticTextPosition { id: text_id, offset: "document".len() },
    });
    tree.focus.focus_order.push(input_id);
    tree.focus.focusable_ids.insert(input_id);
    tree.text.text_inputs.insert(input_id);

    assert!(tree.focus_next(&root, false, 0));
    assert!(tree.text.static_text_selection.is_none());
    // The input's editing state holds "input value" with "input" selected.
    let input_selection = Some(String::from("input"));
    assert_eq!(tree.selected_input_text(&root, input_selection.clone()).as_deref(), Some("input"));
    assert_eq!(tree.selected_text(&root, input_selection, &vec![false], 1024).as_deref(), Some("input"));
}

#[test]
fn password_inputs_disable_copy_and_fall_back_to_immutable_text() {
    let password = element_of(ElementKind::TextInput { value: String::from("secret"), multiline: false, password: true, placeholder: String::new() })
        .id(46)
        .focusable(true);
    let mut paragraph = text("document").id(47);
    paragraph.resolved_user_select = true;
    let root = div().id(45).child(password).child(paragraph);
    let mut tree = MountedState::new();
    assert_eq!(tree.sync_mounted_root(&root, &all_ids(&root), 0, 8), Ok(()));
    assert!(tree.focus(46, 0));
    assert!(tree.selected_input_text(&root, Some(String::from("sec"))).is_none());
    assert!(tree.select_all_static_text());
    assert_eq!(tree.selected_text(&root, Some(String::from("sec")), &vec![false], 1024).as_deref(), Some("document"));
}

#[test]
fn immutable_text_multi_clicks_select_unicode_words_and_complete_lines() {
    let content = "alpha 世界!\nsecond line\n";
    let world = content.find('世').unwrap();
    assert_eq!(word_range_at(content, world), world..world + "世界".len());
    assert_eq!(line_range_at(content, world), 0..content.find('\n').unwrap() + 1);

    let mut tree = MountedState::new();
    let position = StaticTextPosition { id: 301, offset: world };
    let now = 5_000 * MILLISECOND;
    let interval = STATIC_TEXT_MULTI_CLICK_INTERVAL;
    assert_eq!(tree.text.static_text_click_unit(position, now, false, true, interval), StaticTextSelectionUnit::Character);
    assert_eq!(
        tree.text.static_text_click_unit(position, now + 100 * MILLISECOND, false, true, interval),
        StaticTextSelectionUnit::Word
    );
    assert_eq!(
        tree.text.static_text_click_unit(position, now + 200 * MILLISECOND, false, true, interval),
        StaticTextSelectionUnit::Line
    );
}

fn hidden_subtree_declaration(hidden: bool) -> Element {
    let animated = AnimatedImage::with_repeat(7, vec![40 * MILLISECOND, 60 * MILLISECOND], AnimationRepeat::Infinite).unwrap();
    let mut hidden_button = button().id(2).clickable();
    hidden_button.tooltip = Some(Tooltip { text: String::from("Hidden tooltip"), delay: 0 });
    hidden_button.auto_focus = true;
    let mut selectable = text("hidden selectable").id(4);
    selectable.resolved_user_select = true;
    let image = element_of(ElementKind::Image { animated: Some(animated) }).id(5);
    let mut transition = div().id(6);
    transition.has_transition = true;
    let mut subtree = div()
        .id(1)
        .child(hidden_button)
        .child(text_input("").id(3))
        .child(selectable)
        .child(image)
        .child(transition);
    subtree.display_none = hidden;
    div().id(100).child(subtree).child(div().id(7))
}

#[test]
fn display_none_deactivates_the_complete_mounted_subtree() {
    let button = 2;
    let subtree = 1;
    let mut tree = MountedState::new();
    let shown = hidden_subtree_declaration(false);
    assert_eq!(tree.sync_mounted_root(&shown, &all_ids(&shown), 0, 8), Ok(()));
    assert_eq!(tree.focus.focused, Some(button));
    assert!(tree.focus.clickable_ids.contains(&button));
    assert!(tree.text.text_inputs.contains(&3));
    assert!(tree.text.selectable_text_indices.contains_key(&4));
    assert!(tree.motion.animations.contains_key(&5));
    assert!(tree.motion.style_transition_ids.contains(&6));
    assert!(tree.tooltips.tooltips.contains_key(&button));

    tree.pointer.hovered.insert(button);
    tree.pointer.pressed = Some(button);
    tree.pointer.dragging = Some(button);
    tree.pointer.drag_over = Some(button);
    tree.pointer.scroll_offsets.insert(subtree);
    tree.pointer.scrollbar_states.insert(subtree, ScrollbarState {
        hovered: false,
        dragging: false,
        visible_until: None,
    });
    tree.pointer.hovered_scrollbar = Some(subtree);
    tree.pointer.scrollbar_drag = Some(subtree);
    tree.motion.style_transitions.insert(6);

    let hidden = hidden_subtree_declaration(true);
    assert_eq!(tree.sync_mounted_root(&hidden, &all_ids(&hidden), 0, 8), Ok(()));
    assert!(!tree.membership.displayed_ids.contains(&subtree));
    assert!(!tree.membership.displayed_ids.contains(&button));
    assert!(!tree.focus.focusable_ids.contains(&button));
    assert!(!tree.focus.clickable_ids.contains(&button));
    assert_eq!(tree.focus.focused, None);
    assert!(!tree.text.text_inputs.contains(&3));
    assert!(!tree.text.selectable_text_indices.contains_key(&4));
    assert!(!tree.motion.animations.contains_key(&5));
    assert!(tree.motion.style_transition_ids.is_empty());
    assert!(tree.motion.style_transitions.is_empty());
    assert!(!tree.tooltips.tooltips.contains_key(&button));
    assert!(!tree.pointer.hovered.contains(&button));
    assert_eq!(tree.pointer.pressed, None);
    assert_eq!(tree.pointer.dragging, None);
    assert_eq!(tree.pointer.drag_over, None);
    assert!(!tree.pointer.scroll_offsets.contains(&subtree));
    assert!(!tree.pointer.scrollbar_states.contains_key(&subtree));
    assert_eq!(tree.pointer.hovered_scrollbar, None);
    assert!(tree.pointer.scrollbar_drag.is_none());
    let nodes = semantic_nodes(&tree, &hidden, &HashMap::new());
    assert!(node(&nodes, subtree).is_none());
    assert!(node(&nodes, button).is_none());
}

#[test]
fn mounted_animation_keeps_its_clock_while_the_asset_is_unchanged() {
    let mut tree = MountedState::new();
    let shown = hidden_subtree_declaration(false);
    assert_eq!(tree.sync_mounted_root(&shown, &all_ids(&shown), 0, 8), Ok(()));
    let playback: &mut AnimationPlayback = tree.motion.animations.get_mut(&5).unwrap();
    playback.elapsed = 17;
    assert_eq!(tree.sync_mounted_root(&shown, &all_ids(&shown), 99, 8), Ok(()));
    assert_eq!(tree.motion.animations.get(&5).unwrap().elapsed, 17);
}

#[test]
fn invalid_form_reports_in_document_order_focuses_and_announces_once() {
    let form_id = 100;
    let first_id = 101;
    let disabled_id = 102;
    let nested_form_id = 103;
    let nested_id = 104;
    let invalid_input = |id: u64, message: &str| {
        let mut input = text_input("").id(id).focusable(true);
        input.accessibility.invalid = true;
        input.accessibility.validation_message = Some(String::from(message));
        input
    };
    let mut nested_form = div().id(nested_form_id).child(invalid_input(nested_id, "Nested form owns this field"));
    nested_form.form = true;
    let mut root = div()
        .id(form_id)
        .child(invalid_input(first_id, "Name is required"))
        .child(invalid_input(disabled_id, "Disabled does not participate").disabled(true))
        .child(nested_form);
    root.form = true;

    let mut tree = MountedState::new();
    let mut input_texts = HashMap::new();
    for id in [first_id, disabled_id, nested_id] {
        input_texts.insert(id, String::new());
    }
    tree.focus.rebuild_focus_index(&root);
    tree.dispatch.rebuild_dispatch_index(&root);
    let limits = FormLimits { max_fields: 16, max_issues: 16, max_message_bytes: 256 };
    let element_ids = all_ids(&root);

    let Some(FormAttempt::Invalid(report)) =
        tree.attempt_form_submission(&root, form_id, Some(first_id), &element_ids, &input_texts, limits, 0)
    else {
        panic!("outer form should be invalid");
    };
    assert_eq!(report.form, form_id);
    assert_eq!(report.trigger, Some(first_id));
    assert_eq!(report.issues.len(), 1);
    assert_eq!(report.issues[0].id, first_id);
    assert_eq!(report.issues[0].message.as_deref(), Some("Name is required"));
    assert_eq!(tree.focus.focused, Some(first_id));

    let first_alert = tree.validation_announcement.as_ref().expect("validation announcement").node;
    assert_eq!(tree.validation_announcement.as_ref().unwrap().message, "Name is required");

    let Some(FormAttempt::Invalid(_)) =
        tree.attempt_form_submission(&root, form_id, Some(first_id), &element_ids, &input_texts, limits, 0)
    else {
        panic!("repeated attempt remains invalid");
    };
    assert_ne!(
        tree.validation_announcement.as_ref().unwrap().node,
        first_alert,
        "a repeated identical message must still create an accessibility change"
    );
}

#[test]
fn valid_form_returns_enabled_values_and_ends_the_announcement() {
    let mut root = div()
        .id(110)
        .child(text_input("Ada").id(111))
        .child(text_input("Ignored").id(113).disabled(true));
    root.form = true;
    let mut input_texts = HashMap::new();
    input_texts.insert(111, String::from("Ada"));
    input_texts.insert(113, String::from("Ignored"));
    let mut tree = MountedState::new();
    tree.dispatch.rebuild_dispatch_index(&root);
    let limits = FormLimits { max_fields: 16, max_issues: 16, max_message_bytes: 256 };
    let Some(FormAttempt::Valid { form, fields, fields_truncated, .. }) =
        tree.attempt_form_submission(&root, 110, None, &all_ids(&root), &input_texts, limits, 0)
    else {
        panic!("form should be valid");
    };
    assert_eq!(form, 110);
    assert!(!fields_truncated);
    assert_eq!(fields.len(), 1);
    assert_eq!(fields[0].id, 111);
    assert_eq!(fields[0].value, "Ada");
    assert!(tree.validation_announcement.is_none());
    assert!(tree.attempt_form_submission(&root, 999, None, &all_ids(&root), &input_texts, limits, 0).is_none());
}

#[test]
fn immutable_text_selection_copies_across_visual_nodes_in_document_order() {
    let ids = [101u64, 102, 103];
    let entries = vec![
        SelectableTextEntry { id: ids[0], content: String::from("alpha") },
        SelectableTextEntry { id: ids[1], content: String::from("beta") },
        SelectableTextEntry { id: ids[2], content: String::from("gamma") },
    ];
    let indices: HashMap<u64, usize> = ids.into_iter().enumerate().map(|(index, id)| (id, index)).collect();
    // "beta" sits beside "alpha"; "gamma" starts the next line.
    let line_breaks = vec![false, false, true];
    let selection = StaticTextSelection {
        anchor: StaticTextPosition { id: ids[0], offset: 2 },
        focus: StaticTextPosition { id: ids[2], offset: 2 },
    };
    assert_eq!(
        selected_static_text(Some(selection), &entries, &indices, &line_breaks, 1024).as_deref(),
        Some("pha beta\nga")
    );
    let reversed = StaticTextSelection { anchor: selection.focus, focus: selection.anchor };
    assert_eq!(
        selected_static_text(Some(reversed), &entries, &indices, &line_breaks, 1024).as_deref(),
        Some("pha beta\nga")
    );
    assert_eq!(
        selected_static_text(Some(selection), &entries, &indices, &line_breaks, 5).as_deref(),
        Some("pha b")
    );
    let empty = StaticTextSelection { anchor: selection.anchor, focus: selection.anchor };
    assert_eq!(selected_static_text(Some(empty), &entries, &indices, &line_breaks, 1024), None);
}

#[test]
fn focused_path_retains_scopes_and_contexts_without_making_them_tab_stops() {
    let root = div()
        .id(10)
        .key_context("Workspace")
        .child(
            div()
                .id(20)
                .key_context("Pane active=true")
                .child(div().id(30).focusable(true).key_context("Editor mode=insert")),
        );
    let mut tree = MountedState::new();
    tree.focus.rebuild_focus_index(&root);
    tree.dispatch.rebuild_dispatch_index(&root);
    assert!(tree.focus(30, 0));
    assert_eq!(tree.dispatch.focus_path(Some(10), tree.focus.focused, 64), vec![10, 20, 30]);
    assert!(tree.dispatch.focus_path(Some(10), tree.focus.focused, 64).contains(&10));
    assert!(!tree.focus.focusable_ids.contains(&10));
    let contexts = tree.dispatch.key_context_stack(Some(10), tree.focus.focused, 64);
    assert_eq!(contexts.len(), 3);
    assert_eq!(contexts[1], "Pane active=true");
    assert_eq!(contexts[2], "Editor mode=insert");
}

#[test]
fn select_all_and_accessibility_lookup_follow_the_mounted_leaves() {
    let mut first = text("alpha").id(201);
    first.resolved_user_select = true;
    let mut second = text("beta").id(202);
    second.resolved_user_select = true;
    let root = div().id(200).child(first).child(second);
    let mut tree = MountedState::new();
    assert_eq!(tree.sync_mounted_root(&root, &all_ids(&root), 0, 8), Ok(()));
    assert!(tree.select_all_static_text());
    assert!(!tree.select_all_static_text());
    assert_eq!(tree.selected_static_text(&vec![false, true], 64).as_deref(), Some("alpha\nbeta"));
    let run = *tree.accessibility_text_ids.get(&202).expect("text run id");
    assert_eq!(tree.accessibility_element(&root, run), Some(202));
    assert_eq!(tree.accessibility_element(&root, 201), Some(201));
    assert_eq!(tree.accessibility_element(&root, u64::MAX), None);
    assert_eq!(tree.accessibility_element(&root, 999), None);
}

#[test]
fn animation_registry_reports_counts_and_the_earliest_frame_deadline() {
    let shown = hidden_subtree_declaration(false);
    let mut tree = MountedState::new();
    assert_eq!(tree.sync_mounted_root(&shown, &all_ids(&shown), 5, 8), Ok(()));
    assert_eq!(tree.motion.animation_counts(), (1, 0));
    assert_eq!(tree.motion.next_animation_deadline(), None);
    tree.motion.animations.get_mut(&5).unwrap().activate(5, true);
    assert_eq!(tree.motion.animation_counts(), (1, 1));
    assert_eq!(tree.motion.next_animation_deadline(), Some(5 + 40 * MILLISECOND));
    assert!(!tree.motion.advance_animations(5 + 39 * MILLISECOND));
    assert!(tree.motion.advance_animations(5 + 40 * MILLISECOND));
    assert_eq!(tree.motion.animations.get(&5).unwrap().frame_index, 1);
    assert_eq!(tree.motion.next_animation_deadline(), Some(5 + 100 * MILLISECOND));

    tree.motion.set_animations_enabled(false, 5 + 70 * MILLISECOND);
    let playback = tree.motion.animations.get(&5).unwrap();
    assert!(!playback.active);
    assert_eq!(playback.elapsed, 70 * MILLISECOND);
    assert_eq!(tree.motion.next_animation_deadline(), None);
    assert!(!tree.motion.animations_enabled);
}

#[test]
fn tooltips_use_one_exact_show_deadline_and_hide_without_a_loop() {
    let mut tree = MountedState::new();
    let id = 88;
    tree.tooltips.tooltips.insert(id, Tooltip { text: String::from("Delayed"), delay: 500 * MILLISECOND });
    let now: u64 = 1_000 * MILLISECOND;
    assert!(!tree.update_tooltip_hover(Some(id), now));
    let deadline = tree.next_tooltip_deadline().expect("show deadline");
    assert_eq!(deadline, now + 500 * MILLISECOND);
    assert!(!tree.advance_tooltips(deadline - MILLISECOND));
    assert!(tree.advance_tooltips(deadline));
    assert_eq!(tree.tooltips.visible, Some(id));
    assert!(tree.next_tooltip_deadline().is_none());
    assert!(!tree.update_tooltip_hover(Some(id), deadline));
    assert!(tree.update_tooltip_hover(None, deadline));
    assert!(tree.tooltips.visible.is_none());
    assert!(tree.next_tooltip_deadline().is_none());
}

#[test]
fn keyboard_focus_schedules_tooltips_but_pointer_focus_does_not_reopen_them() {
    let mut tree = MountedState::new();
    let id = 89;
    tree.tooltips.tooltips.insert(id, Tooltip { text: String::from("Keyboard help"), delay: 500 * MILLISECOND });
    tree.focus.focusable_ids.insert(id);

    assert!(tree.focus(id, 0));
    assert!(tree.next_tooltip_deadline().is_some());
    assert!(!tree.clear_tooltip());
    tree.focus.focused = None;

    assert!(tree.focus_from_pointer(id));
    assert!(tree.next_tooltip_deadline().is_none());
}

#[test]
fn scrollbars_hide_with_one_deadline_once_their_reveal_runs_out() {
    let mut tree = MountedState::new();
    let id = 7;
    let deadline: u64 = 900 * MILLISECOND;
    tree.pointer.scrollbar_states.insert(id, ScrollbarState { hovered: false, dragging: false, visible_until: Some(deadline) });
    tree.pointer.scrollbar_states.insert(8, ScrollbarState { hovered: true, dragging: false, visible_until: Some(10) });
    assert_eq!(tree.pointer.next_scrollbar_deadline(), Some(deadline));
    assert!(!tree.pointer.advance_scrollbars(deadline - MILLISECOND));
    assert!(tree.pointer.advance_scrollbars(deadline));
    assert!(!tree.pointer.advance_scrollbars(deadline));
    assert!(tree.pointer.next_scrollbar_deadline().is_none());
    assert_eq!(tree.pointer.scrollbar_states[&8].visible_until, Some(10));

    tree.pointer.scrollbar_drag = Some(id);
    tree.pointer.pressed = Some(3);
    assert!(tree.cancel_pointer_interaction());
    assert!(tree.pointer.scrollbar_drag.is_none());
    assert!(!tree.pointer.scrollbar_states[&8].hovered);
    assert!(!tree.cancel_pointer_interaction());
}

#[test]
fn scrollbar_hover_and_drag_end_schedule_one_hide_deadline() {
    let mut tree = MountedState::new();
    let delay = 800 * MILLISECOND;
    assert!(tree.pointer.update_scrollbar_hover(Some(7), 10, delay));
    assert!(tree.pointer.scrollbar_states[&7].hovered);
    assert_eq!(tree.pointer.scrollbar_states[&7].visible_until, None);
    assert!(!tree.pointer.update_scrollbar_hover(Some(7), 20, delay));
    assert!(tree.pointer.update_scrollbar_hover(None, 30, delay));
    assert!(!tree.pointer.scrollbar_states[&7].hovered);
    assert_eq!(tree.pointer.scrollbar_states[&7].visible_until, Some(30 + delay));

    tree.pointer.scrollbar_drag = Some(7);
    tree.pointer.scrollbar_states.get_mut(&7).unwrap().dragging = true;
    assert!(tree.pointer.end_scrollbar_drag(40, delay));
    assert!(!tree.pointer.scrollbar_states[&7].dragging);
    assert_eq!(tree.pointer.scrollbar_states[&7].visible_until, Some(40 + delay));
    assert!(!tree.pointer.end_scrollbar_drag(50, delay));
}

#[test]
fn starting_a_drag_ends_press_hover_and_drop_target() {
    let mut tree = MountedState::new();
    tree.pointer.pressed = Some(3);
    tree.pointer.hovered.insert(3);
    tree.pointer.drag_over = Some(4);
    assert!(tree.begin_drag(3));
    assert_eq!(tree.pointer.dragging, Some(3));
    assert_eq!(tree.pointer.pressed, None);
    assert!(tree.pointer.hovered.is_empty());
    assert_eq!(tree.pointer.drag_over, None);
    assert!(!tree.begin_drag(3));
    assert!(tree.pointer.set_drag_over(Some(5)));
    assert!(!tree.pointer.set_drag_over(Some(5)));
}

#[test]
fn visibility_hidden_retains_layout_and_controlled_state_but_not_runtime_activity() {
    let subtree = 1;
    let button_id = 2;
    let mut hidden_button = button().id(button_id).clickable();
    hidden_button.auto_focus = true;
    hidden_button.tooltip = Some(Tooltip { text: String::from("Invisible tooltip"), delay: 0 });
    let mut invisible = div().id(subtree).child(hidden_button).child(text_input("controlled value").id(3));
    invisible.visibility_hidden = true;
    let root = div().id(100).child(invisible).child(div().id(7));
    let mut tree = MountedState::new();
    assert_eq!(tree.sync_mounted_root(&root, &all_ids(&root), 0, 8), Ok(()));
    assert!(tree.membership.displayed_ids.contains(&subtree));
    assert!(!tree.membership.visible_ids.contains(&subtree));
    assert!(!tree.membership.visible_ids.contains(&button_id));
    assert!(!tree.focus.focusable_ids.contains(&button_id));
    assert!(!tree.focus.clickable_ids.contains(&button_id));
    assert_eq!(tree.focus.focused, None);
    // Layout-preserving visibility keeps controlled input state warm.
    assert!(tree.text.text_inputs.contains(&3));
    assert!(tree.tooltips.tooltips.is_empty());
    let mut accessible = HashSet::new();
    collect_accessible_ids(&root, &mut accessible);
    assert!(!accessible.contains(&subtree));
}

#[test]
fn valid_form_shares_bounded_controlled_values_and_skips_nested_forms() {
    let (form_id, name_id, notes_id, disabled_id, nested_form_id, nested_id) = (110, 111, 112, 113, 114, 115);
    let mut nested_form = div().id(nested_form_id).child(text_input("Nested").id(nested_id));
    nested_form.form = true;
    let notes = element_of(ElementKind::TextInput { value: String::from("Notes"), multiline: true, password: false, placeholder: String::new() }).id(notes_id);
    let mut root = div()
        .id(form_id)
        .child(text_input("Ada").id(name_id))
        .child(notes)
        .child(text_input("Ignored").id(disabled_id).disabled(true))
        .child(nested_form);
    root.form = true;
    let mut input_texts = HashMap::new();
    for (id, value) in [(name_id, "Ada"), (notes_id, "Notes"), (disabled_id, "Ignored"), (nested_id, "Nested")] {
        input_texts.insert(id, String::from(value));
    }
    let mut tree = MountedState::new();
    tree.focus.rebuild_focus_index(&root);
    tree.dispatch.rebuild_dispatch_index(&root);
    let limits = FormLimits { max_fields: 16, max_issues: 16, max_message_bytes: 256 };
    let Some(FormAttempt::Valid { form, trigger, fields, fields_truncated }) =
        tree.attempt_form_submission(&root, form_id, Some(name_id), &all_ids(&root), &input_texts, limits, 0)
    else {
        panic!("outer form should submit");
    };
    assert_eq!(form, form_id);
    assert_eq!(trigger, Some(name_id));
    assert_eq!(fields.len(), 2);
    let value = |id: u64| fields.iter().find(|field| field.id == id).map(|field| field.value.as_str());
    assert_eq!(value(name_id), Some("Ada"));
    assert_eq!(value(notes_id), Some("Notes"));
    assert_eq!(value(disabled_id), None);
    assert_eq!(value(nested_id), None);
    assert!(!fields_truncated);
}

fn container_query() -> Element {
    element_of(ElementKind::ContainerQuery { resolved_motion_ids: Vec::new() })
}

fn nested_query(depth: usize) -> Element {
    if depth == 0 {
        div()
    } else {
        container_query().child(nested_query(depth - 1))
    }
}

#[test]
fn container_query_depth_is_hard_bounded_before_nested_layout_allocation() {
    let max_depth = 8;
    assert_eq!(
        validate_container_query_limits(&nested_query(max_depth + 1), 64, max_depth),
        Err(UiError::ContainerQueryDepthExceeded)
    );
    assert_eq!(validate_container_query_limits(&nested_query(max_depth), 64, max_depth), Ok(()));
}

#[test]
fn container_query_count_is_hard_bounded_before_layout() {
    let max_queries = 16;
    let mut root = div();
    for _ in 0..=max_queries {
        root = root.child(container_query());
    }
    assert_eq!(validate_container_query_limits(&root, max_queries, 8), Err(UiError::TooManyContainerQueries));
    root.children.pop();
    assert_eq!(validate_container_query_limits(&root, max_queries, 8), Ok(()));
}

#[test]
fn separators_and_mounted_group_labels_project_exact_native_semantics() {
    let (group_id, label_id, separator_id, self_label_id) = (45, 46, 47, 48);
    let mut label = div().id(label_id).role(AccessibilityRole::Label);
    label.accessibility.label = Some(String::from("File"));
    let mut group = div().id(group_id).role(AccessibilityRole::Group).child(label).child(div().child(text("Open")));
    group.accessibility.labelled_by = Some(label_id);
    let mut self_labelled = div().id(self_label_id).role(AccessibilityRole::Group);
    self_labelled.accessibility.labelled_by = Some(self_label_id);
    let root = div().id(44).child(group).child(div().id(separator_id).role(AccessibilityRole::Separator)).child(self_labelled);
    let mut tree = MountedState::new();
    assert_eq!(tree.sync_mounted_root(&root, &all_ids(&root), 0, 8), Ok(()));
    let nodes = semantic_nodes(&tree, &root, &HashMap::new());
    let node = |id| node(&nodes, id).expect("menu structure accessibility node");

    assert_eq!(node(label_id).role, AccessibilityRole::Label);
    assert_eq!(node(group_id).labelled_by, Some(label_id));
    assert_eq!(node(separator_id).role, AccessibilityRole::Separator);
    assert!(!node(separator_id).actions.click);
    assert!(!node(separator_id).actions.focus);
    assert_eq!(node(self_label_id).labelled_by, None);
}

#[test]
fn accessible_ids_lie_within_visible_ids_within_displayed_ids() {
    let mut shown = div().id(11);
    shown.visibility_hidden = true;
    let mut gone = div().id(12).child(div().id(13));
    gone.display_none = true;
    let root = div()
        .id(10)
        .child(shown.child(div().id(14)))
        .child(gone)
        .child(div().id(15).accessibility_hidden(true).child(div().id(16)))
        .child(button().id(17));
    let mut displayed = HashSet::new();
    let mut visible = HashSet::new();
    let mut accessible = HashSet::new();
    collect_displayed_ids(&root, &mut displayed);
    collect_visible_ids(&root, &mut visible);
    collect_accessible_ids(&root, &mut accessible);
    assert_eq!(displayed, HashSet::from([10, 11, 14, 15, 16, 17]));
    assert_eq!(visible, HashSet::from([10, 15, 16, 17]));
    assert_eq!(accessible, HashSet::from([10, 17]));
    assert!(accessible.is_subset(&visible));
    assert!(visible.is_subset(&displayed));
    for id in 10..18 {
        assert_eq!(accessibility_tree_contains(&root, id), accessible.contains(&id));
    }
}

#[test]
fn automatic_user_selection_matches_web_control_boundaries() {
    let mut root = div()
        .child(text("plain"))
        .child(button().child(text("button")))
        .child(div().user_select(UserSelect::Never).child(text("disabled")))
        .child(button().user_select(UserSelect::Text).child(text("forced")));
    resolve_user_select(&mut root, true);

    assert!(root.children[0].resolved_user_select);
    assert!(!root.children[1].resolved_user_select);
    assert!(!root.children[1].children[0].resolved_user_select);
    assert!(!root.children[2].children[0].resolved_user_select);
    assert!(root.children[3].resolved_user_select);
    assert!(root.children[3].children[0].resolved_user_select);
}

#[test]
fn text_inputs_and_pressable_elements_do_not_inherit_selectability() {
    let mut clickable = div().child(text("press"));
    clickable.clickable = true;
    let mut root = div()
        .child(text_input("value").child(text("inner")))
        .child(clickable)
        .child(div().role(AccessibilityRole::CheckBox))
        .child(div().child(text("deep")));
    resolve_user_select(&mut root, false);
    assert!(!root.resolved_user_select);
    assert!(!root.children[3].children[0].resolved_user_select);

    resolve_user_select(&mut root, true);
    assert!(root.resolved_user_select);
    assert!(!root.children[0].resolved_user_select);
    assert!(!root.children[0].children[0].resolved_user_select);
    assert!(!root.children[1].resolved_user_select);
    assert!(!root.children[2].resolved_user_select);
    assert!(root.children[3].children[0].resolved_user_select);
}

#[test]
fn style_transition_registry_is_hard_bounded_before_layout() {
    let limit: usize = 16;
    let transition = || {
        let mut e = div();
        e.has_transition = true;
        e
    };
    let mut root = div();
    for _ in 0..=limit {
        root = root.child(transition());
    }
    let mut count = 0;
    assert_eq!(validate_style_transition_count(&root, &mut count, limit), Err(UiError::TooManyStyleTransitions));
    assert_eq!(count, limit);

    let mut root = div();
    for _ in 0..limit {
        root = root.child(transition());
    }
    let mut hidden = transition();
    hidden.visibility_hidden = true;
    root = root.child(hidden);
    let mut count = 0;
    assert_eq!(validate_style_transition_count(&root, &mut count, limit), Ok(()));
    assert_eq!(count, limit);
}
