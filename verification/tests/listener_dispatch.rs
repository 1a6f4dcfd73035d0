use ui_tree::dismiss::{dismiss_request_for_pointer, dismiss_topmost, DismissPolicy, DismissRegion};
use ui_tree::dispatch::DispatchIndex;
use ui_tree::element::div;
use ui_tree::hits::{topmost_hit, CursorStates, HitRegion};
use ui_tree::semantic_nodes::character_index;
use ui_tree::listeners::{
    contains_id, ActionListenerBinding, DispatchPhase, KeyListenerBinding, KeyListenerKind, MouseButton,
    MouseHoverChange, MouseHoverState, MouseListenerBinding, MouseListenerKey, MouseListenerKind,
};

fn binding(
    key: u64,
    kind: MouseListenerKind,
    phase: DispatchPhase,
    button: Option<MouseButton>,
    outside: bool,
) -> MouseListenerBinding {
    MouseListenerBinding { key: MouseListenerKey(key), kind, phase, button, outside }
}

fn region(id: u64, contains_pointer: bool) -> HitRegion {
    HitRegion {
        id,
        contains_pointer,
        order: id,
        clickable: false,
        focusable: false,
        pointer_listener: false,
        drag_source: false,
        drop_target: false,
        stateful: false,
        blocks_pointer: false,
        cursor_style: None,
        cursor_states: CursorStates { hover: None, active: None, focus: None, invalid: None, dragging: None, drag_over: None },
        app_region: None,
        overlay: false,
    }
}

fn change(key: u64, hovered: bool) -> MouseHoverChange {
    MouseHoverChange { key: MouseListenerKey(key), hovered }
}

#[test]
fn desktop_mouse_dispatch_is_bounded_ordered_and_hover_tracks_layout() {
    let parent = 100;
    let child = 101;
    let outside = 102;
    let mut index = DispatchIndex::new();
    index.listeners.mouse.insert(
        parent,
        vec![
            binding(0, MouseListenerKind::Down, DispatchPhase::Capture, None, false),
            binding(1, MouseListenerKind::Down, DispatchPhase::Bubble, Some(MouseButton::Left), false),
            binding(2, MouseListenerKind::Hover, DispatchPhase::Bubble, None, false),
        ],
    );
    index.listeners.mouse.insert(
        child,
        vec![
            binding(3, MouseListenerKind::Down, DispatchPhase::Bubble, None, false),
            binding(4, MouseListenerKind::Hover, DispatchPhase::Bubble, None, false),
        ],
    );
    index
        .listeners
        .mouse
        .insert(outside, vec![binding(5, MouseListenerKind::Down, DispatchPhase::Capture, None, true)]);
    index.parents.insert(child, parent);
    // Painted bottom to top; the pointer is over `parent` and `child`, `child` on top.
    let hit_regions = vec![region(parent, true), region(child, true), region(outside, false)];
    let regions = vec![parent, child, outside];

    let mut path = Vec::new();
    assert!(index.mouse_event_path_at(&hit_regions, &mut path, 256));
    assert_eq!(path, vec![child, parent]);
    let mut dispatch = Vec::new();
    index.listeners.collect_mouse_dispatch(&path, MouseListenerKind::Down, Some(MouseButton::Left), &regions, &mut dispatch);
    assert_eq!(
        dispatch,
        vec![MouseListenerKey(5), MouseListenerKey(0), MouseListenerKey(3), MouseListenerKey(1)]
    );

    let mut hover = MouseHoverState::new();
    hover.refresh_mouse_hover(&index, topmost_hit(&hit_regions), 256, 1024);
    let mut changes = Vec::new();
    hover.take_mouse_hover_changes(&mut changes);
    assert_eq!(changes, vec![change(2, true), change(4, true)]);
    changes.clear();
    // The regions are gone: nothing is under the pointer any more.
    hover.refresh_mouse_hover(&index, topmost_hit(&[]), 256, 1024);
    hover.take_mouse_hover_changes(&mut changes);
    assert_eq!(changes, vec![change(4, false), change(2, false)]);

    // A pointer blocker above everything takes the press alone.
    let blocker = 103;
    let hit_regions = vec![region(outside, false), HitRegion { blocks_pointer: true, ..region(blocker, true) }];
    let regions = vec![outside, blocker];
    assert!(index.mouse_event_path_at(&hit_regions, &mut path, 256));
    assert_eq!(path, vec![blocker]);
    index.listeners.collect_mouse_dispatch(&path, MouseListenerKind::Down, Some(MouseButton::Left), &regions, &mut dispatch);
    assert_eq!(dispatch, vec![MouseListenerKey(5)]);
}

#[test]
fn mouse_dispatch_filters_by_button_and_kind() {
    let mut index = DispatchIndex::new();
    index.listeners.mouse.insert(
        7,
        vec![
            binding(1, MouseListenerKind::Down, DispatchPhase::Bubble, Some(MouseButton::Right), false),
            binding(2, MouseListenerKind::Up, DispatchPhase::Bubble, None, false),
            binding(3, MouseListenerKind::Down, DispatchPhase::Bubble, None, false),
            binding(4, MouseListenerKind::Hover, DispatchPhase::Capture, None, true),
        ],
    );
    let mut dispatch = Vec::new();
    index.listeners.collect_mouse_dispatch(&[7], MouseListenerKind::Down, Some(MouseButton::Left), &[], &mut dispatch);
    assert_eq!(dispatch, vec![MouseListenerKey(3)]);
    index.listeners.collect_mouse_dispatch(&[7], MouseListenerKind::Down, Some(MouseButton::Right), &[], &mut dispatch);
    assert_eq!(dispatch, vec![MouseListenerKey(1), MouseListenerKey(3)]);
    index.listeners.collect_mouse_dispatch(&[7], MouseListenerKind::Up, None, &[], &mut dispatch);
    assert_eq!(dispatch, vec![MouseListenerKey(2)]);
    // Outside listeners only hear presses and releases.
    index.listeners.collect_mouse_dispatch(&[], MouseListenerKind::Hover, None, &[7], &mut dispatch);
    assert_eq!(dispatch, Vec::<MouseListenerKey>::new());
}

#[test]
fn outside_listeners_follow_reverse_document_order_without_paint_order() {
    let root = div()
        .id(1)
        .child(div().id(2).on_mouse(binding(20, MouseListenerKind::Down, DispatchPhase::Capture, None, true)))
        .child(div().id(3).on_mouse(binding(30, MouseListenerKind::Down, DispatchPhase::Capture, None, true)))
        .child(
            div()
                .id(4)
                .disabled(true)
                .on_mouse(binding(40, MouseListenerKind::Down, DispatchPhase::Capture, None, true)),
        );
    let mut index = DispatchIndex::new();
    index.rebuild_dispatch_index(&root);
    assert_eq!(index.listeners.mouse_elements, vec![2, 3]);
    let mut dispatch = Vec::new();
    index.listeners.collect_mouse_dispatch(&[1], MouseListenerKind::Down, Some(MouseButton::Left), &[], &mut dispatch);
    assert_eq!(dispatch, vec![MouseListenerKey(30), MouseListenerKey(20)]);
    // The target's own outside listener stays silent.
    index.listeners.collect_mouse_dispatch(&[3, 1], MouseListenerKind::Down, Some(MouseButton::Left), &[], &mut dispatch);
    assert_eq!(dispatch, vec![MouseListenerKey(20)]);
}

#[test]
fn key_and_action_dispatch_capture_from_the_root_then_bubble_back() {
    let key = |key: u64, phase| KeyListenerBinding { key, kind: KeyListenerKind::Down, phase };
    let action = |key: u64, action_type: u64, phase| ActionListenerBinding { key, action_type, phase };
    let root = div()
        .id(1)
        .on_key(key(10, DispatchPhase::Capture))
        .on_key(key(11, DispatchPhase::Bubble))
        .on_action(action(100, 9, DispatchPhase::Bubble))
        .child(
            div()
                .id(2)
                .on_key(key(20, DispatchPhase::Capture))
                .on_key(key(21, DispatchPhase::Bubble))
                .on_key(KeyListenerBinding { key: 22, kind: KeyListenerKind::Up, phase: DispatchPhase::Bubble })
                .on_action(action(200, 9, DispatchPhase::Capture))
                .on_action(action(201, 8, DispatchPhase::Bubble)),
        );
    let mut index = DispatchIndex::new();
    index.rebuild_dispatch_index(&root);
    let path = index.focus_path(Some(1), Some(2), 256);
    assert_eq!(path, vec![1, 2]);
    let mut keys = Vec::new();
    index.listeners.collect_key_dispatch(&path, KeyListenerKind::Down, &mut keys);
    assert_eq!(keys.iter().map(|b| b.key).collect::<Vec<_>>(), vec![10, 20, 21, 11]);
    index.listeners.collect_key_dispatch(&path, KeyListenerKind::Up, &mut keys);
    assert_eq!(keys.iter().map(|b| b.key).collect::<Vec<_>>(), vec![22]);
    let mut actions = Vec::new();
    index.listeners.collect_action_dispatch(&path, 9, &mut actions);
    assert_eq!(actions.iter().map(|b| b.key).collect::<Vec<_>>(), vec![200, 100]);
    assert!(index.listeners.action_available(&path, 8));
    assert!(index.listeners.action_available(&path, 9));
    assert!(!index.listeners.action_available(&path, 7));
    assert!(!index.listeners.action_available(&[1], 8));
}

#[test]
fn disabled_elements_declare_no_listeners_but_keep_their_key_context() {
    let root = div()
        .id(1)
        .disabled(true)
        .key_context("Menu")
        .on_key(KeyListenerBinding { key: 1, kind: KeyListenerKind::Down, phase: DispatchPhase::Bubble })
        .on_action(ActionListenerBinding { key: 2, action_type: 3, phase: DispatchPhase::Bubble });
    let mut index = DispatchIndex::new();
    index.rebuild_dispatch_index(&root);
    assert!(index.listeners.key.is_empty());
    assert!(!index.listeners.action_available(&[1], 3));
    assert_eq!(index.key_context_stack(Some(1), None, 256), vec![String::from("Menu")]);
    assert_eq!(index.key_context_stack(None, None, 256), Vec::<String>::new());
}

#[test]
fn hover_changes_stop_at_the_queue_limit() {
    let mut index = DispatchIndex::new();
    index.listeners.mouse.insert(
        5,
        vec![
            binding(1, MouseListenerKind::Hover, DispatchPhase::Bubble, None, false),
            binding(2, MouseListenerKind::Hover, DispatchPhase::Bubble, None, false),
            binding(3, MouseListenerKind::Down, DispatchPhase::Bubble, None, false),
        ],
    );
    index.listeners.mouse.insert(6, vec![binding(4, MouseListenerKind::Down, DispatchPhase::Bubble, None, false)]);
    index.parents.insert(6, 5);
    let mut hover = MouseHoverState::new();
    hover.refresh_mouse_hover(&index, Some(6), 256, 1);
    // Only the element with hover listeners is on the hover path.
    assert_eq!(hover.path, vec![5]);
    let mut changes = Vec::new();
    hover.take_mouse_hover_changes(&mut changes);
    assert_eq!(changes, vec![change(1, true)]);
    // Staying over the same element changes nothing.
    hover.refresh_mouse_hover(&index, Some(5), 256, 8);
    assert!(hover.pending.is_empty());
    // A chain longer than the path limit hovers nothing.
    hover.refresh_mouse_hover(&index, Some(6), 1, 8);
    assert_eq!(hover.path, Vec::<u64>::new());
    hover.take_mouse_hover_changes(&mut changes);
    assert_eq!(changes, vec![change(1, true), change(1, false), change(2, false)]);
}

#[test]
fn nested_targeted_listeners_bubble_but_overlays_do_not_click_through() {
    let parent = 90;
    let child = 91;
    let blocker = 92;
    let mut index = DispatchIndex::new();
    index.context_menu_ids.insert(parent);
    index.scroll_wheel_ids.insert(parent);
    index.touch_ids.insert(parent);
    index.mouse_pressure_ids.insert(parent);
    index.pinch_ids.insert(parent);
    index.rotation_ids.insert(parent);
    index.smart_magnify_ids.insert(parent);
    index.parents.insert(child, parent);
    let mut regions = vec![region(parent, true), region(child, true)];
    assert_eq!(index.context_menu_listener_at(&regions), Some(parent));
    assert_eq!(index.scroll_wheel_listener_at(&regions), Some(parent));
    assert_eq!(index.touch_listener_at(&regions), Some(parent));
    assert_eq!(index.mouse_pressure_listener_at(&regions), Some(parent));
    assert_eq!(index.pinch_listener_at(&regions), Some(parent));
    assert_eq!(index.rotation_listener_at(&regions), Some(parent));
    assert_eq!(index.smart_magnify_listener_at(&regions), Some(parent));

    index.scroll_wheel_ids.insert(child);
    index.touch_ids.insert(child);
    assert_eq!(index.scroll_wheel_listener_at(&regions), Some(child));
    assert_eq!(index.parent_scroll_wheel_listener(child), Some(parent));
    assert_eq!(index.parent_scroll_wheel_listener(parent), None);
    assert_eq!(index.touch_listener_at(&regions), Some(child));
    assert_eq!(index.parent_touch_listener(child), Some(parent));
    assert_eq!(index.parent_touch_listener(parent), None);

    regions.push(HitRegion { blocks_pointer: true, ..region(blocker, true) });
    assert_eq!(index.context_menu_listener_at(&regions), None);
    assert_eq!(index.scroll_wheel_listener_at(&regions), None);
    assert_eq!(index.touch_listener_at(&regions), None);
    assert_eq!(index.mouse_pressure_listener_at(&regions), None);
    assert_eq!(index.pinch_listener_at(&regions), None);
    assert_eq!(index.rotation_listener_at(&regions), None);
    assert_eq!(index.smart_magnify_listener_at(&regions), None);
}

#[test]
fn touch_listeners_are_found_from_the_target_up() {
    let mut child = div().id(91);
    child.touch_listener = true;
    let mut parent = div().id(90).child(child);
    parent.touch_listener = true;
    parent.scroll_wheel_listener = true;
    let mut index = DispatchIndex::new();
    index.rebuild_dispatch_index(&parent);
    assert_eq!(index.touch_listener_for_target(91), Some(91));
    assert_eq!(index.parent_touch_listener(91), Some(90));
    assert_eq!(index.parent_touch_listener(90), None);
    assert_eq!(index.scroll_wheel_listener_for_target(91), Some(90));
    assert_eq!(index.touch_listener_for_target(92), None);
}

#[test]
fn topmost_dismiss_policy_keeps_escape_and_outside_pointer_independent() {
    let region = |policy| DismissRegion { id: 9, policy, restore_focus: Some(1) };
    let regions = vec![region(DismissPolicy::none().with_escape())];
    assert_eq!(dismiss_topmost(&regions).unwrap().id, 9);
    assert!(dismiss_request_for_pointer(&regions, false).is_none());

    let regions = vec![region(DismissPolicy::none().with_pointer_outside())];
    assert!(dismiss_topmost(&regions).is_none());
    let request = dismiss_request_for_pointer(&regions, false).unwrap();
    assert_eq!(request.id, 9);
    assert_eq!(request.restore_focus, Some(1));
    assert!(dismiss_request_for_pointer(&regions, true).is_none());
    assert!(dismiss_topmost(&[]).is_none());
}

#[test]
fn contains_id_scans_the_whole_slice() {
    assert!(contains_id(&[1, 2, 3], 3));
    assert!(!contains_id(&[1, 2, 3], 4));
    assert!(!contains_id(&[], 1));
}

#[test]
fn character_index_finds_the_character_at_or_after_a_byte_offset() {
    // "aé😀": one, two and four bytes.
    let lengths = [1u8, 2, 4];
    assert_eq!(character_index(&lengths, 0), 0);
    assert_eq!(character_index(&lengths, 1), 1);
    assert_eq!(character_index(&lengths, 2), 2);
    assert_eq!(character_index(&lengths, 3), 2);
    assert_eq!(character_index(&lengths, 4), 3);
    assert_eq!(character_index(&lengths, 7), 3);
    assert_eq!(character_index(&lengths, 100), 3);
    assert_eq!(character_index(&[], 5), 0);
}

#[test]
fn gesture_listeners_are_indexed_only_while_enabled() {
    let mut pinch = div().id(31);
    pinch.pinch_listener = true;
    pinch.rotation_listener = true;
    let mut pressure = div().id(32);
    pressure.mouse_pressure_listener = true;
    pressure.smart_magnify_listener = true;
    pressure.accessibility.disabled = true;
    let root = div().id(30).child(pinch).child(pressure);
    let mut index = DispatchIndex::new();
    index.rebuild_dispatch_index(&root);
    assert!(index.pinch_ids.contains(&31) && index.rotation_ids.contains(&31));
    assert!(index.mouse_pressure_ids.is_empty());
    assert!(index.smart_magnify_ids.is_empty());
    assert_eq!(index.parents.get(&31), Some(&30));
}
