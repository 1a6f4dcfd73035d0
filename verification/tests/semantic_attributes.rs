use std::collections::{HashMap, HashSet};

use unicode_segmentation::UnicodeSegmentation;

use ui_tree::element::{
    button, div, element_of, text, AccessibilityAutoComplete, AccessibilityOrientation, AccessibilityPopup,
    AccessibilityRole, AccessibilitySortDirection, Element, ElementKind,
};
use ui_tree::password::PasswordDisplay;
use ui_tree::selectable::SelectableTextEntry;
use ui_tree::semantic_nodes::{build_semantic_nodes, SemanticContext, SemanticNode};
use ui_tree::tree::collect_accessible_ids;

fn nodes_of(root: &Element, input_texts: &HashMap<u64, String>, text_ids: &HashMap<u64, u64>) -> Vec<SemanticNode> {
    let mut accessible = HashSet::new();
    collect_accessible_ids(root, &mut accessible);
    let laid_out = accessible.clone();
    let texts: Vec<SelectableTextEntry> = Vec::new();
    let indices: HashMap<u64, usize> = HashMap::new();
    let context = SemanticContext {
        accessible_ids: &accessible,
        laid_out_ids: &laid_out,
        input_texts,
        text_ids,
        selectable_texts: &texts,
        selectable_text_indices: &indices,
        static_text_selection: None,
    };
    let mut nodes = Vec::new();
    build_semantic_nodes(root, &context, &mut nodes);
    nodes
}

fn node(nodes: &[SemanticNode], id: u64) -> &SemanticNode {
    nodes.iter().find(|n| n.id == id).expect("semantic node")
}

fn text_input(value: &str, placeholder: &str) -> Element {
    element_of(ElementKind::TextInput {
        value: String::from(value),
        multiline: false,
        password: false,
        placeholder: String::from(placeholder),
    })
}

#[test]
fn popover_trigger_projects_expansion_popup_kind_and_mounted_control_relation() {
    let trigger_id = 51;
    let surface_id = 52;
    let title_id = 53;
    let description_id = 54;
    let mut trigger = button().id(trigger_id).child(text("Open details"));
    trigger.accessibility.expanded = Some(true);
    trigger.accessibility.has_popup = Some(AccessibilityPopup::Dialog);
    trigger.accessibility.controls = Some(surface_id);
    let mut surface = div()
        .id(surface_id)
        .role(AccessibilityRole::Dialog)
        .focusable(true)
        .child(text("Details").id(title_id))
        .child(text("More information about this item.").id(description_id));
    surface.accessibility.labelled_by = Some(title_id);
    surface.accessibility.described_by = Some(description_id);
    let root = div().id(50).child(trigger).child(surface);
    let nodes = nodes_of(&root, &HashMap::new(), &HashMap::new());

    let trigger = node(&nodes, trigger_id);
    assert_eq!(trigger.role, AccessibilityRole::Button);
    assert_eq!(trigger.expanded, Some(true));
    assert_eq!(trigger.has_popup, Some(AccessibilityPopup::Dialog));
    assert_eq!(trigger.controls, Some(surface_id));
    let popup = node(&nodes, surface_id);
    assert_eq!(popup.role, AccessibilityRole::Dialog);
    assert!(popup.actions.focus);
    assert_eq!(popup.labelled_by, Some(title_id));
    assert_eq!(popup.described_by, vec![description_id]);
}

#[test]
fn comboboxes_project_editability_completion_options_and_active_descendants() {
    let editable_id = 81;
    let listbox_id = 82;
    let option_id = 83;
    let select_id = 84;
    let mut editable = text_input("ap", "").id(editable_id).focusable(true).role(AccessibilityRole::EditableComboBox);
    editable.accessibility.label = Some(String::from("Fruit"));
    editable.accessibility.expanded = Some(true);
    editable.accessibility.has_popup = Some(AccessibilityPopup::ListBox);
    editable.accessibility.auto_complete = Some(AccessibilityAutoComplete::List);
    editable.accessibility.controls = Some(listbox_id);
    editable.accessibility.active_descendant = Some(option_id);
    let mut option = button().id(option_id).tab_index(-1).role(AccessibilityRole::ListBoxOption).child(text("Apple"));
    option.accessibility.collection.position_in_set = Some(0);
    option.accessibility.selected = true;
    let mut listbox = div().id(listbox_id).role(AccessibilityRole::ListBox).child(option);
    listbox.accessibility.collection.size_of_set = Some(2);
    let mut select = button().id(select_id).role(AccessibilityRole::ComboBox).child(text("Gamma"));
    select.accessibility.label = Some(String::from("Letter"));
    select.accessibility.value = Some(String::from("Gamma"));
    select.accessibility.expanded = Some(false);
    select.accessibility.has_popup = Some(AccessibilityPopup::ListBox);
    let root = div().id(80).child(editable).child(listbox).child(select);
    let mut input_texts = HashMap::new();
    input_texts.insert(editable_id, String::from("ap"));
    let mut text_ids = HashMap::new();
    text_ids.insert(editable_id, u64::MAX - 1);
    let nodes = nodes_of(&root, &input_texts, &text_ids);

    let editable = node(&nodes, editable_id);
    assert_eq!(editable.role, AccessibilityRole::EditableComboBox);
    assert_eq!(editable.auto_complete, Some(AccessibilityAutoComplete::List));
    assert_eq!(editable.expanded, Some(true));
    assert_eq!(editable.has_popup, Some(AccessibilityPopup::ListBox));
    assert_eq!(editable.controls, Some(listbox_id));
    assert_eq!(editable.active_descendant, Some(option_id));
    assert_eq!(node(&nodes, listbox_id).role, AccessibilityRole::ListBox);
    assert_eq!(node(&nodes, listbox_id).collection.size_of_set, Some(2));
    assert_eq!(node(&nodes, option_id).role, AccessibilityRole::ListBoxOption);
    assert_eq!(node(&nodes, option_id).collection.position_in_set, Some(0));
    assert_eq!(node(&nodes, option_id).selected, Some(true));
    assert_eq!(node(&nodes, select_id).role, AccessibilityRole::ComboBox);
    assert_eq!(node(&nodes, select_id).value.as_deref(), Some("Gamma"));
    assert_eq!(node(&nodes, select_id).expanded, Some(false));
}

#[test]
fn virtual_collections_project_active_items_counts_indices_levels_and_sorting() {
    let grid_id = 61;
    let header_id = 62;
    let row_id = 63;
    let cell_id = 64;
    let tree_id = 71;
    let tree_item_id = 72;
    let mut header = div().id(header_id).role(AccessibilityRole::ColumnHeader).child(text("Status"));
    header.accessibility.collection.column_index = Some(1);
    header.accessibility.collection.sort_direction = Some(AccessibilitySortDirection::Ascending);
    let mut cell = div().id(cell_id).role(AccessibilityRole::GridCell).child(text("Running"));
    cell.accessibility.collection.row_index = Some(50_001);
    cell.accessibility.collection.column_index = Some(1);
    cell.accessibility.selected = true;
    let mut row = div().id(row_id).role(AccessibilityRole::Row).child(cell);
    row.accessibility.collection.row_index = Some(50_001);
    row.accessibility.selected = true;
    let mut grid = div().id(grid_id).focusable(true).role(AccessibilityRole::Grid).child(header).child(row);
    grid.accessibility.collection.row_count = Some(100_001);
    grid.accessibility.collection.column_count = Some(3);
    grid.accessibility.active_descendant = Some(cell_id);
    let mut item = div().id(tree_item_id).role(AccessibilityRole::TreeItem).child(text("Sources"));
    item.accessibility.collection.level = Some(2);
    item.accessibility.collection.position_in_set = Some(3);
    item.accessibility.collection.size_of_set = Some(5);
    item.accessibility.expanded = Some(true);
    item.accessibility.selected = true;
    let mut tree = div().id(tree_id).focusable(true).role(AccessibilityRole::Tree).child(item);
    tree.accessibility.collection.size_of_set = Some(2);
    tree.accessibility.active_descendant = Some(tree_item_id);
    tree.accessibility.orientation = Some(AccessibilityOrientation::Vertical);
    let root = div().id(60).child(grid).child(tree);
    let nodes = nodes_of(&root, &HashMap::new(), &HashMap::new());

    assert_eq!(node(&nodes, grid_id).role, AccessibilityRole::Grid);
    assert_eq!(node(&nodes, grid_id).collection.row_count, Some(100_001));
    assert_eq!(node(&nodes, grid_id).collection.column_count, Some(3));
    assert_eq!(node(&nodes, grid_id).active_descendant, Some(cell_id));
    assert_eq!(node(&nodes, header_id).role, AccessibilityRole::ColumnHeader);
    assert_eq!(node(&nodes, header_id).collection.column_index, Some(1));
    assert_eq!(node(&nodes, header_id).collection.sort_direction, Some(AccessibilitySortDirection::Ascending));
    assert_eq!(node(&nodes, row_id).role, AccessibilityRole::Row);
    assert_eq!(node(&nodes, row_id).collection.row_index, Some(50_001));
    assert_eq!(node(&nodes, cell_id).role, AccessibilityRole::GridCell);
    assert_eq!(node(&nodes, cell_id).collection.column_index, Some(1));
    assert_eq!(node(&nodes, tree_id).role, AccessibilityRole::Tree);
    assert_eq!(node(&nodes, tree_id).collection.size_of_set, Some(2));
    assert_eq!(node(&nodes, tree_id).active_descendant, Some(tree_item_id));
    assert_eq!(node(&nodes, tree_id).orientation, Some(AccessibilityOrientation::Vertical));
    assert_eq!(node(&nodes, tree_item_id).role, AccessibilityRole::TreeItem);
    assert_eq!(node(&nodes, tree_item_id).collection.level, Some(2));
    assert_eq!(node(&nodes, tree_item_id).collection.position_in_set, Some(3));
    assert_eq!(node(&nodes, tree_item_id).collection.size_of_set, Some(5));
    assert_eq!(node(&nodes, tree_item_id).expanded, Some(true));
    assert_eq!(node(&nodes, tree_item_id).selected, Some(true));
}

#[test]
fn text_input_placeholder_is_exposed_only_with_editing_state() {
    let search = text_input("", "Search").id(91);
    let plain = text_input("x", "").id(92);
    let detached = text_input("", "Name").id(93);
    let root = div().id(90).child(search).child(plain).child(detached);
    let mut input_texts = HashMap::new();
    input_texts.insert(91u64, String::new());
    input_texts.insert(92u64, String::from("x"));
    let mut text_ids = HashMap::new();
    text_ids.insert(91u64, u64::MAX - 1);
    text_ids.insert(92u64, u64::MAX - 2);
    let nodes = nodes_of(&root, &input_texts, &text_ids);
    assert_eq!(node(&nodes, 91).placeholder.as_deref(), Some("Search"));
    assert_eq!(node(&nodes, 92).placeholder, None);
    assert_eq!(node(&nodes, 93).placeholder, None);
    assert_eq!(node(&nodes, 90).has_popup, None);
    assert_eq!(node(&nodes, 90).collection.level, None);
}

#[test]
fn password_inputs_mask_scene_and_accessibility_values_and_disable_copy() {
    let id = 46;
    let secret = "sk-\u{e9}\u{1F468}\u{200D}\u{1F469}\u{200D}\u{1F467}\u{200D}\u{1F466}";
    let masked = "\u{2022}".repeat(secret.graphemes(true).count());
    let mut input = element_of(ElementKind::TextInput {
        value: String::from(secret),
        multiline: false,
        password: true,
        placeholder: String::new(),
    })
    .id(id)
    .focusable(true)
    .role(AccessibilityRole::PasswordInput);
    input.accessibility.label = Some(String::from("Secret"));
    let root = div().id(45).child(input);
    let mut input_texts = HashMap::new();
    input_texts.insert(id, String::from(secret));
    let mut text_ids = HashMap::new();
    text_ids.insert(id, u64::MAX - 1);
    let nodes = nodes_of(&root, &input_texts, &text_ids);
    let node = node(&nodes, id);
    assert_eq!(node.role, AccessibilityRole::PasswordInput);
    assert_eq!(node.value.as_deref(), Some(masked.as_str()));
    assert!(!node.value.as_deref().unwrap_or_default().contains(secret));

    let display = PasswordDisplay::new(secret);
    assert_eq!(display.content, masked);
    assert_eq!(display.content.chars().count(), 5);
    for boundary in secret.grapheme_indices(true).map(|(index, _)| index).chain([secret.len()]) {
        assert_eq!(display.source_index(display.display_index(boundary)), boundary);
    }
}
