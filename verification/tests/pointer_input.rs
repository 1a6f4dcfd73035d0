use std::collections::HashSet;

use ui_tree::hits::{
    cursor_style_at, drag_source_at, drop_target_at, hovered_at, interactive_region_at, is_app_region_drag,
    overlay_input_active, pointer_listener_at, sort_by_paint_order, topmost_hit, AppRegion, CursorContext, CursorStates, HitRegion,
};
use ui_tree::animation::ScrollbarState;
use ui_tree::dismiss::DismissRequest;
use ui_tree::element::{button, div, element_of, text, CursorStyle, Element, ElementKind, Tooltip};
use ui_tree::listeners::{DispatchPhase, MouseHoverChange, MouseListenerBinding, MouseListenerKey, MouseListenerKind};
use ui_tree::mounted::MountedState;
use ui_tree::pointer::{CaretPlacement, InteractiveHit, PointerHits, PointerMove, STATIC_TEXT_MULTI_CLICK_INTERVAL};
use ui_tree::selection::{StaticTextPosition, StaticTextSelection, StaticTextSelectionUnit};
use ui_tree::tree::collect_displayed_ids;

const MILLISECOND: u64 = 1_000_000;

fn all_ids(root: &Element) -> HashSet<u64> {
    let mut ids = HashSet::new();
    collect_displayed_ids(root, &mut ids);
    ids
}

fn nothing() -> PointerHits {
    PointerHits {
        dismiss: None,
        static_position: None,
        near_last_click: false,
        pointer_listener: None,
        drag_source: None,
        region: None,
        input_index: None,
    }
}

fn over(id: u64, clickable: bool, focusable: bool) -> PointerHits {
    PointerHits { region: Some(InteractiveHit { id, clickable, focusable }), ..nothing() }
}

fn on_text(id: u64, offset: usize, near: bool) -> PointerHits {
    PointerHits { static_position: Some(StaticTextPosition { id, offset }), near_last_click: near, ..nothing() }
}

fn mounted() -> (MountedState, Element) {
    let mut paragraph = text("alpha beta gamma\nsecond line").id(3);
    paragraph.resolved_user_select = true;
    let root = div()
        .id(1)
        .child(button().id(2))
        .child(paragraph)
        .child(element_of(ElementKind::TextInput { value: String::from("input"), multiline: false, password: false, placeholder: String::new() }).id(4).focusable(true));
    let mut state = MountedState::new();
    assert_eq!(state.sync_mounted_root(&root, &all_ids(&root), 0, 8), Ok(()));
    (state, root)
}

#[test]
fn a_release_over_the_pressed_element_clicks_it() {
    let (mut state, _root) = mounted();
    let press = state.pointer_button(over(2, true, true), true, false, 0, STATIC_TEXT_MULTI_CLICK_INTERVAL);
    assert!(press.repaint);
    assert_eq!(press.clicked, None);
    assert_eq!(state.pointer.pressed, Some(2));
    assert_eq!(state.focus.focused, Some(2));
    let release = state.pointer_button(over(2, true, true), false, false, 0, STATIC_TEXT_MULTI_CLICK_INTERVAL);
    assert!(release.repaint);
    assert_eq!(release.clicked, Some(2));
    assert_eq!(state.pointer.pressed, None);
}

#[test]
fn a_release_elsewhere_does_not_click() {
    let (mut state, _root) = mounted();
    state.pointer_button(over(2, true, true), true, false, 0, STATIC_TEXT_MULTI_CLICK_INTERVAL);
    let release = state.pointer_button(nothing(), false, false, 0, STATIC_TEXT_MULTI_CLICK_INTERVAL);
    assert!(release.repaint);
    assert_eq!(release.clicked, None);
}

#[test]
fn a_dismissing_press_only_reports_the_dismissal() {
    let (mut state, _root) = mounted();
    state.pointer_button(over(2, true, true), true, false, 0, STATIC_TEXT_MULTI_CLICK_INTERVAL);
    let request = DismissRequest { id: 9, restore_focus: Some(2) };
    let hits = PointerHits { dismiss: Some(request), ..over(2, true, true) };
    let result = state.pointer_button(hits, true, false, 0, STATIC_TEXT_MULTI_CLICK_INTERVAL);
    assert_eq!(result.dismissed, Some(request));
    assert!(result.repaint);
    assert_eq!(state.pointer.pressed, None);
    let release = state.pointer_button(over(2, true, true), false, false, 0, STATIC_TEXT_MULTI_CLICK_INTERVAL);
    assert_eq!(release.clicked, None);
}

#[test]
fn pressing_immutable_text_blurs_and_multi_clicks_grow_the_selection() {
    let (mut state, _root) = mounted();
    state.pointer_button(over(2, true, true), true, false, 0, STATIC_TEXT_MULTI_CLICK_INTERVAL);
    state.pointer_button(over(2, true, true), false, false, 0, STATIC_TEXT_MULTI_CLICK_INTERVAL);
    assert_eq!(state.focus.focused, Some(2));

    let interval = STATIC_TEXT_MULTI_CLICK_INTERVAL;
    let start = 1_000 * MILLISECOND;
    let caret = StaticTextPosition { id: 3, offset: 7 };
    let first = state.pointer_button(on_text(3, 7, false), true, false, start, interval);
    assert!(first.repaint);
    assert_eq!(state.focus.focused, None);
    assert_eq!(state.text.static_text_selection, Some(StaticTextSelection { anchor: caret, focus: caret }));
    let release = state.pointer_button(on_text(3, 7, false), false, false, start, interval);
    assert_eq!(release.clicked, None);

    state.pointer_button(on_text(3, 7, true), true, false, start + 100 * MILLISECOND, interval);
    let word = StaticTextSelection {
        anchor: StaticTextPosition { id: 3, offset: 6 },
        focus: StaticTextPosition { id: 3, offset: 10 },
    };
    assert_eq!(state.text.static_text_selection, Some(word));
    assert_eq!(state.text.static_text_gesture.map(|g| g.unit), Some(StaticTextSelectionUnit::Word));

    state.pointer_button(on_text(3, 7, true), true, false, start + 200 * MILLISECOND, interval);
    let line = StaticTextSelection {
        anchor: StaticTextPosition { id: 3, offset: 0 },
        focus: StaticTextPosition { id: 3, offset: 17 },
    };
    assert_eq!(state.text.static_text_selection, Some(line));

    // Too late for a fourth click of the series: back to a caret.
    state.pointer_button(on_text(3, 7, true), true, false, start + 900 * MILLISECOND, interval);
    assert_eq!(state.text.static_text_selection, Some(StaticTextSelection { anchor: caret, focus: caret }));

    // Shift-click extends from the anchor.
    state.pointer_button(on_text(3, 12, false), true, true, start + 950 * MILLISECOND, interval);
    assert_eq!(
        state.text.static_text_selection,
        Some(StaticTextSelection { anchor: caret, focus: StaticTextPosition { id: 3, offset: 12 } })
    );
    assert_eq!(state.text.last_static_text_click, None);
}

#[test]
fn dragging_over_immutable_text_extends_the_selection_and_suppresses_the_click() {
    let (mut state, _root) = mounted();
    let interval = STATIC_TEXT_MULTI_CLICK_INTERVAL;
    state.pointer_button(on_text(3, 7, false), true, false, 0, interval);
    assert!(state.text.extend_static_text_drag(Some(StaticTextPosition { id: 3, offset: 14 }), true));
    assert_eq!(
        state.text.static_text_selection,
        Some(StaticTextSelection {
            anchor: StaticTextPosition { id: 3, offset: 7 },
            focus: StaticTextPosition { id: 3, offset: 14 },
        })
    );
    assert!(!state.text.extend_static_text_drag(Some(StaticTextPosition { id: 3, offset: 14 }), false));
    assert!(state.text.extend_static_text_drag(Some(StaticTextPosition { id: 3, offset: 2 }), false));
    assert_eq!(
        state.text.static_text_selection,
        Some(StaticTextSelection {
            anchor: StaticTextPosition { id: 3, offset: 7 },
            focus: StaticTextPosition { id: 3, offset: 2 },
        })
    );
    assert!(!state.text.extend_static_text_drag(None, true));
    let release = state.pointer_button(over(3, true, false), false, false, 0, interval);
    assert_eq!(release.clicked, None);
    assert_eq!(state.text.static_text_gesture, None);
}

#[test]
fn a_word_drag_keeps_the_double_clicked_word() {
    let (mut state, _root) = mounted();
    let interval = STATIC_TEXT_MULTI_CLICK_INTERVAL;
    state.pointer_button(on_text(3, 7, false), true, false, 0, interval);
    state.pointer_button(on_text(3, 7, true), true, false, MILLISECOND, interval);
    assert!(state.text.extend_static_text_drag(Some(StaticTextPosition { id: 3, offset: 1 }), false));
    assert_eq!(
        state.text.static_text_selection,
        Some(StaticTextSelection {
            anchor: StaticTextPosition { id: 3, offset: 10 },
            focus: StaticTextPosition { id: 3, offset: 0 },
        })
    );
}

#[test]
fn pressing_a_text_input_focuses_it_and_places_the_caret() {
    let (mut state, _root) = mounted();
    let interval = STATIC_TEXT_MULTI_CLICK_INTERVAL;
    state.pointer_button(on_text(3, 2, false), true, false, 0, interval);
    assert!(state.text.static_text_selection.is_some());
    let hits = PointerHits { input_index: Some(3), ..over(4, false, true) };
    let result = state.pointer_button(hits, true, true, 0, interval);
    assert!(result.repaint);
    assert_eq!(result.caret, Some(CaretPlacement { id: 4, index: 3, extend: true }));
    assert_eq!(state.focus.focused, Some(4));
    assert_eq!(state.text.selecting_input, Some(4));
    assert_eq!(state.text.static_text_selection, None);
    state.pointer_button(hits, false, false, 0, interval);
    assert_eq!(state.text.selecting_input, None);
}

#[test]
fn listeners_and_drag_sources_are_reported_only_off_immutable_text() {
    let (mut state, _root) = mounted();
    let interval = STATIC_TEXT_MULTI_CLICK_INTERVAL;
    let hits = PointerHits { pointer_listener: Some(7), drag_source: Some(8), ..nothing() };
    let result = state.pointer_button(hits, true, false, 0, interval);
    assert_eq!(result.pointer_listener, Some(7));
    assert_eq!(result.drag_source, None);
    let hits = PointerHits { drag_source: Some(8), ..nothing() };
    assert_eq!(state.pointer_button(hits, true, false, 0, interval).drag_source, Some(8));
    let hits = PointerHits { pointer_listener: Some(7), drag_source: Some(8), ..on_text(3, 0, false) };
    let result = state.pointer_button(hits, true, false, 0, interval);
    assert_eq!(result.pointer_listener, None);
    assert_eq!(result.drag_source, None);
}

#[test]
fn moving_the_pointer_tracks_hover_styles_listeners_and_tooltips() {
    let hover = MouseListenerBinding {
        key: MouseListenerKey(1),
        kind: MouseListenerKind::Hover,
        phase: DispatchPhase::Bubble,
        button: None,
        outside: false,
    };
    let mut card = div().id(2).on_mouse(hover).child(button().id(5));
    card.tooltip = Some(Tooltip { text: String::from("Card"), delay: 0 });
    let root = div().id(1).child(card);
    let mut state = MountedState::new();
    assert_eq!(state.sync_mounted_root(&root, &all_ids(&root), 0, 8), Ok(()));

    let over_button = PointerMove { hovered: vec![5], hit: Some(5), input_index: None, static_position: None, travelled: false };
    let result = state.pointer_moved(&over_button, 0, 256, 64);
    assert!(result.repaint);
    assert_eq!(result.caret, None);
    assert!(state.pointer.hovered.contains(&5));
    assert_eq!(state.tooltips.visible, Some(2));
    let mut changes = Vec::new();
    state.mouse_hover.take_mouse_hover_changes(&mut changes);
    assert_eq!(changes, vec![MouseHoverChange { key: MouseListenerKey(1), hovered: true }]);

    // The same spot again changes nothing.
    assert!(!state.pointer_moved(&over_button, 0, 256, 64).repaint);
    assert!(state.mouse_hover.pending.is_empty());

    assert!(state.pointer_left(0, 64));
    assert!(state.pointer.hovered.is_empty());
    assert_eq!(state.tooltips.visible, None);
    state.mouse_hover.take_mouse_hover_changes(&mut changes);
    assert_eq!(
        changes,
        vec![
            MouseHoverChange { key: MouseListenerKey(1), hovered: true },
            MouseHoverChange { key: MouseListenerKey(1), hovered: false },
        ]
    );
    assert!(!state.pointer_left(0, 64));
}

#[test]
fn moving_while_selecting_an_input_extends_its_caret() {
    let (mut state, _root) = mounted();
    let interval = STATIC_TEXT_MULTI_CLICK_INTERVAL;
    let press = PointerHits { input_index: Some(1), ..over(4, false, true) };
    state.pointer_button(press, true, false, 0, interval);
    let drag = PointerMove { hovered: vec![], hit: Some(4), input_index: Some(4), static_position: None, travelled: true };
    let result = state.pointer_moved(&drag, 0, 256, 64);
    assert_eq!(result.caret, Some(CaretPlacement { id: 4, index: 4, extend: true }));
    state.pointer_button(press, false, false, 0, interval);
    assert_eq!(state.pointer_moved(&drag, 0, 256, 64).caret, None);
}

fn no_states() -> CursorStates {
    CursorStates { hover: None, active: None, focus: None, invalid: None, dragging: None, drag_over: None }
}

fn cursor_region(id: u64, cursor_style: Option<CursorStyle>) -> HitRegion {
    HitRegion {
        id,
        contains_pointer: true,
        order: id,
        clickable: false,
        focusable: false,
        pointer_listener: false,
        drag_source: false,
        drop_target: false,
        stateful: false,
        blocks_pointer: false,
        cursor_style,
        cursor_states: no_states(),
        app_region: None,
        overlay: false,
    }
}

fn idle() -> CursorContext {
    CursorContext { focused: None, pressed: None, dragging: None, drag_over: None, external_drag: false }
}

#[test]
fn overlay_pointer_blockers_hide_lower_layer_cursors_and_targets() {
    let regions = vec![
        HitRegion { clickable: true, focusable: true, ..cursor_region(1, Some(CursorStyle::PointingHand)) },
        HitRegion { blocks_pointer: true, overlay: true, ..cursor_region(2, None) },
    ];
    assert_eq!(cursor_style_at(&regions, None, idle()), None);
    assert!(interactive_region_at(&regions).is_none());
    assert!(overlay_input_active(&regions));
    assert!(!overlay_input_active(&regions[..1]));
}

#[test]
fn topmost_no_drag_and_overlay_scrollbar_override_drag_region() {
    let mut regions = vec![
        HitRegion { app_region: Some(AppRegion::Drag), ..plain_region(1) },
        HitRegion { app_region: Some(AppRegion::NoDrag), ..plain_region(2) },
    ];
    assert!(!is_app_region_drag(&regions, false));
    regions.pop();
    assert!(is_app_region_drag(&regions, false));
    // Over a scrollbar the region does not move the window.
    assert!(!is_app_region_drag(&regions, true));
}

#[test]
fn dismissible_overlay_resets_the_cursor_over_inert_background_content() {
    // The pointer is over the background, outside the small overlay surface (paint rank 2).
    let background = cursor_region(1, Some(CursorStyle::IBeam));
    let surface = HitRegion {
        contains_pointer: false,
        blocks_pointer: true,
        ..cursor_region(2, Some(CursorStyle::Arrow))
    };
    let regions = vec![background, surface];
    assert_eq!(cursor_style_at(&regions, Some(2), idle()), Some(CursorStyle::Arrow));
    assert_eq!(cursor_style_at(&regions, None, idle()), Some(CursorStyle::IBeam));
    assert_eq!(cursor_style_at(&regions[..1], None, idle()), Some(CursorStyle::IBeam));
    // Over nothing beneath an inert overlay, the arrow stays.
    assert_eq!(cursor_style_at(&[surface], Some(2), idle()), Some(CursorStyle::Arrow));
}

#[test]
fn explicit_arrow_resets_a_lower_cursor_without_blocking_pointer_hits() {
    let mut regions = vec![cursor_region(1, Some(CursorStyle::PointingHand)), cursor_region(2, Some(CursorStyle::Arrow))];
    assert_eq!(cursor_style_at(&regions, None, idle()), Some(CursorStyle::Arrow));
    regions[1].cursor_style = None;
    assert_eq!(cursor_style_at(&regions, None, idle()), Some(CursorStyle::PointingHand));
}

#[test]
fn cursor_state_overrides_resolve_live_without_repainting_the_hit_region() {
    let id = 1;
    let mut regions = vec![HitRegion {
        cursor_states: CursorStates {
            hover: Some(CursorStyle::IBeam),
            active: Some(CursorStyle::ClosedHand),
            focus: Some(CursorStyle::PointingHand),
            invalid: None,
            dragging: Some(CursorStyle::DragCopy),
            drag_over: Some(CursorStyle::OpenHand),
        },
        ..cursor_region(id, Some(CursorStyle::Arrow))
    }];
    let mut ctx = idle();
    assert_eq!(cursor_style_at(&regions, None, ctx), Some(CursorStyle::IBeam));
    ctx.pressed = Some(id);
    assert_eq!(cursor_style_at(&regions, None, ctx), Some(CursorStyle::ClosedHand));
    ctx.pressed = None;
    ctx.dragging = Some(id);
    assert_eq!(cursor_style_at(&regions, None, ctx), Some(CursorStyle::DragCopy));
    ctx.drag_over = Some(id);
    assert_eq!(cursor_style_at(&regions, None, ctx), Some(CursorStyle::OpenHand));
    ctx.drag_over = None;
    ctx.dragging = None;
    ctx.external_drag = true;
    ctx.focused = Some(id);
    assert_eq!(cursor_style_at(&regions, None, ctx), Some(CursorStyle::PointingHand));
    regions[0].cursor_states.invalid = Some(CursorStyle::OperationNotAllowed);
    assert_eq!(cursor_style_at(&regions, None, ctx), Some(CursorStyle::OperationNotAllowed));
}

#[test]
fn external_drags_stop_hover_until_they_end() {
    let (mut state, _root) = mounted();
    let over_button = PointerMove { hovered: vec![2], hit: Some(2), input_index: None, static_position: None, travelled: false };
    state.pointer_moved(&over_button, 0, 256, 64);
    assert!(state.pointer.hovered.contains(&2));
    assert!(state.begin_external_drag());
    assert!(state.pointer.hovered.is_empty());
    assert!(state.cursor_context().external_drag);
    assert!(!state.pointer_moved(&over_button, 0, 256, 64).repaint);
    assert!(state.pointer.hovered.is_empty());
    assert!(!state.begin_external_drag());
    assert!(state.end_drag());
    assert!(!state.end_drag());
    assert!(state.pointer_moved(&over_button, 0, 256, 64).repaint);
    assert!(state.pointer.hovered.contains(&2));
}

fn plain_region(id: u64) -> HitRegion {
    cursor_region(id, None)
}

#[test]
fn pointer_listeners_capture_the_top_hit_without_clicking_through() {
    let regions = vec![
        HitRegion { clickable: true, focusable: true, ..cursor_region(1, Some(CursorStyle::PointingHand)) },
        HitRegion { pointer_listener: true, ..cursor_region(2, Some(CursorStyle::PointingHand)) },
    ];
    assert_eq!(pointer_listener_at(&regions), Some(2));
    assert!(interactive_region_at(&regions).is_none());
    assert_eq!(cursor_style_at(&regions, None, idle()), Some(CursorStyle::PointingHand));
}

#[test]
fn pointer_listeners_do_not_see_through_blockers_or_outside_regions() {
    let button_region = HitRegion { clickable: true, focusable: true, ..plain_region(1) };
    let listener = HitRegion { pointer_listener: true, ..plain_region(2) };
    let regions = vec![listener, button_region];
    assert_eq!(pointer_listener_at(&regions), Some(2));
    assert_eq!(interactive_region_at(&regions), Some(InteractiveHit { id: 1, clickable: true, focusable: true }));
    let blocker = HitRegion { blocks_pointer: true, ..plain_region(3) };
    assert_eq!(pointer_listener_at(&[listener, blocker]), None);
    let elsewhere = HitRegion { contains_pointer: false, ..blocker };
    assert_eq!(pointer_listener_at(&[listener, elsewhere]), Some(2));
}

#[test]
fn typed_drag_hits_skip_incompatible_targets_but_respect_pointer_blockers() {
    let region = |id: u64, source: bool, target: bool, blocks: bool| HitRegion {
        drag_source: source,
        drop_target: target,
        stateful: source || target,
        blocks_pointer: blocks,
        ..plain_region(id)
    };
    let mut regions = vec![region(1, false, true, false), region(2, true, true, false)];
    let accepting: HashSet<u64> = [1].into_iter().collect();
    assert_eq!(drag_source_at(&regions), Some(2));
    assert_eq!(drop_target_at(&regions, &accepting), Some(1));
    let (mut state, _root) = mounted();
    assert!(state.begin_drag(2));
    assert!(state.pointer.set_drag_over(Some(1)));
    assert!(!state.pointer.set_drag_over(Some(1)));
    assert!(state.end_drag());

    regions[1].blocks_pointer = true;
    assert_eq!(drop_target_at(&regions, &accepting), None);
    assert_eq!(drop_target_at(&regions[..1], &HashSet::new()), None);
}

#[test]
fn hover_styles_apply_down_to_the_first_blocker() {
    let low = HitRegion { stateful: true, ..plain_region(1) };
    let middle = HitRegion { stateful: true, contains_pointer: false, ..plain_region(2) };
    let listener = HitRegion { stateful: true, pointer_listener: true, ..plain_region(3) };
    let top = HitRegion { stateful: true, ..plain_region(4) };
    assert_eq!(hovered_at(&[low, middle, top]), vec![4, 1]);
    assert_eq!(hovered_at(&[low, listener, top]), vec![4, 3]);
    assert_eq!(topmost_hit(&[low, middle]), Some(1));
    assert_eq!(topmost_hit(&[middle]), None);
}

#[test]
fn scrollbar_track_captures_drag_and_hover_without_click_through() {
    let (mut state, _root) = mounted();
    let id = 8;
    let delay = 900 * MILLISECOND;
    let now = 10 * MILLISECOND;
    assert!(state.pointer.update_scrollbar_hover(Some(id), now, delay));
    assert!(!state.pointer.update_scrollbar_hover(Some(id), now, delay));
    state.pointer_button(over(2, true, true), true, false, now, STATIC_TEXT_MULTI_CLICK_INTERVAL);
    state.begin_scrollbar_drag(id);
    assert_eq!(state.pointer.scrollbar_drag, Some(id));
    assert_eq!(state.pointer.pressed, None);
    let scrollbar = state.pointer.scrollbar_states[&id];
    assert!(scrollbar.hovered && scrollbar.dragging && scrollbar.visible_until.is_none());
    // The press that started the drag clicks nothing on release.
    assert_eq!(
        state.pointer_button(over(2, true, true), false, false, now, STATIC_TEXT_MULTI_CLICK_INTERVAL).clicked,
        None
    );
    assert!(state.pointer.end_scrollbar_drag(now, delay));
    assert!(state.pointer.update_scrollbar_hover(None, now, delay));
    assert_eq!(state.pointer.next_scrollbar_deadline().expect("leaving the track schedules one hide"), now + delay);
}

#[test]
fn the_focused_text_input_is_found_with_its_validity() {
    let (mut state, root) = mounted();
    assert_eq!(state.focused_text_input(), None);
    assert!(state.focus(4, 0));
    assert_eq!(state.focused_text_input(), Some(4));
    assert!(!state.focused_text_input_is_invalid());
    let mut invalid_root = root;
    invalid_root.children[2].accessibility.invalid = true;
    state.dispatch.rebuild_dispatch_index(&invalid_root);
    assert!(state.focused_text_input_is_invalid());
    assert!(state.focus(2, 0));
    assert_eq!(state.focused_text_input(), None);
    assert!(!state.focused_text_input_is_invalid());
}

#[test]
fn scrollbars_reveal_on_scroll_then_hide_with_one_deadline() {
    let (mut state, _root) = mounted();
    let id = 7;
    let delay = 900 * MILLISECOND;
    let now = 50 * MILLISECOND;
    // The wheel moved the scroll offset of container 7.
    state.pointer.reveal_scrollbar(id, now, delay);
    let deadline = state.pointer.next_scrollbar_deadline().expect("scroll reveals thumb");
    assert_eq!(deadline - now, delay);
    assert!(!state.pointer.advance_scrollbars(deadline - MILLISECOND));
    assert!(state.pointer.advance_scrollbars(deadline));
    assert!(!state.pointer.advance_scrollbars(deadline));
    assert!(state.pointer.next_scrollbar_deadline().is_none());
    // A hovered scrollbar stays up while it is scrolled.
    assert!(state.pointer.update_scrollbar_hover(Some(id), now, delay));
    state.pointer.reveal_scrollbar(id, now, delay);
    assert!(state.pointer.next_scrollbar_deadline().is_none());
}

#[test]
fn regions_sort_by_paint_rank_keeping_paint_order_among_equals() {
    let mut regions = vec![
        HitRegion { order: 3, ..cursor_region(1, None) },
        HitRegion { order: 1, ..cursor_region(2, None) },
        HitRegion { order: 3, ..cursor_region(3, None) },
        HitRegion { order: 0, ..cursor_region(4, None) },
        HitRegion { order: 1, ..cursor_region(5, None) },
    ];
    sort_by_paint_order(&mut regions);
    let ids: Vec<u64> = regions.iter().map(|r| r.id).collect();
    assert_eq!(ids, vec![4, 2, 5, 1, 3]);
    let orders: Vec<u64> = regions.iter().map(|r| r.order).collect();
    assert_eq!(orders, vec![0, 1, 1, 3, 3]);
}

#[test]
fn a_scrollbar_drag_ends_when_its_scroll_region_is_not_painted() {
    let mut state = MountedState::new();
    state.pointer.scrollbar_drag = Some(7);
    state.pointer.hovered_scrollbar = Some(7);
    state.pointer.scrollbar_states.insert(7, ScrollbarState { hovered: true, dragging: true, visible_until: Some(5) });
    assert!(!state.pointer.end_vanished_scrollbar_drag(&vec![3, 7]));
    assert_eq!(state.pointer.scrollbar_drag, Some(7));
    assert!(state.pointer.end_vanished_scrollbar_drag(&vec![3]));
    assert_eq!(state.pointer.scrollbar_drag, None);
    assert_eq!(state.pointer.hovered_scrollbar, None);
    let idle = state.pointer.scrollbar_states[&7];
    assert!(!idle.hovered && !idle.dragging && idle.visible_until.is_none());
    assert!(!state.pointer.end_vanished_scrollbar_drag(&vec![]));
}
