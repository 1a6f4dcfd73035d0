use std::collections::{HashMap, HashSet};

use ui_tree::animation::AnimationPlayback;
use ui_tree::element::{button, div, text, AnimatedImage, AnimationRepeat, CursorStyle};
use ui_tree::registry::{collect_explicit_ids, UiError, ACCESSIBILITY_ROOT_ID};
use ui_tree::semantics::{accessibility_label, effective_cursor_style};
use ui_tree::ids::mix_id;
use ui_tree::selection::{
    push_bounded_text, static_selection_range_for_entry, StaticTextPosition, StaticTextSelection,
};

const MILLISECOND: u64 = 1_000_000;
const SECOND: u64 = 1_000_000_000;

fn playback_animation(repeat: AnimationRepeat) -> AnimatedImage {
    AnimatedImage::with_repeat(7, vec![40 * MILLISECOND, 60 * MILLISECOND], repeat).unwrap()
}

#[test]
fn generated_ids_are_path_stable() {
    assert_eq!(mix_id(42, 3), mix_id(42, 3));
    assert_ne!(mix_id(42, 3), mix_id(42, 4));
}

#[test]
fn animation_playback_uses_exact_deadlines_and_pauses_without_catching_up() {
    let started: u64 = 5 * SECOND;
    let mut playback =
        AnimationPlayback::new(playback_animation(AnimationRepeat::Infinite), started);
    playback.activate(started, true);
    assert_eq!(playback.deadline(), Some(started + 40 * MILLISECOND));

    assert!(!playback.advance(started + 39 * MILLISECOND));
    assert_eq!(playback.frame_index, 0);
    assert!(playback.advance(started + 40 * MILLISECOND));
    assert_eq!(playback.frame_index, 1);
    assert_eq!(playback.deadline(), Some(started + 100 * MILLISECOND));

    playback.active = false;
    playback.activate(started + 10 * SECOND, true);
    assert_eq!(
        playback.deadline(),
        Some(started + 10 * SECOND + 60 * MILLISECOND)
    );

    playback.active = false;
    playback.activate(started + 20 * SECOND, false);
    assert!(!playback.active);
    assert_eq!(playback.deadline(), None);

    playback.activate(started + 30 * SECOND, true);
    playback.seen = false;
    playback.finish_visibility();
    assert!(!playback.active);
    assert_eq!(playback.deadline(), None);
}

#[test]
fn finite_animation_playback_stops_scheduling_on_the_last_frame() {
    let started: u64 = 5 * SECOND;
    let repeat = AnimationRepeat::Finite(1);
    let mut playback = AnimationPlayback::new(playback_animation(repeat), started);
    playback.activate(started, true);
    assert!(playback.advance(started + 100 * MILLISECOND));
    assert_eq!(playback.frame_index, 1);
    assert!(playback.completed);
    assert_eq!(playback.deadline(), None);
}

#[test]
fn immutable_text_selection_clips_ranges_per_leaf() {
    let ids: [u64; 3] = [201, 202, 203];
    let indices = ids
        .into_iter()
        .enumerate()
        .map(|(index, id)| (id, index))
        .collect::<HashMap<_, _>>();
    let selection = Some(StaticTextSelection {
        anchor: StaticTextPosition {
            id: ids[0],
            offset: 2,
        },
        focus: StaticTextPosition {
            id: ids[2],
            offset: 3,
        },
    });

    assert_eq!(
        static_selection_range_for_entry(selection, &indices, 0, 5),
        Some(2..5)
    );
    assert_eq!(
        static_selection_range_for_entry(selection, &indices, 1, 4),
        Some(0..4)
    );
    assert_eq!(
        static_selection_range_for_entry(selection, &indices, 2, 5),
        Some(0..3)
    );
}

#[test]
fn immutable_text_copy_limit_keeps_utf8_boundaries() {
    let mut output = String::new();
    push_bounded_text(&mut output, "a🙂b", 4);
    assert_eq!(output, "a");
    assert!(output.is_char_boundary(output.len()));
}

#[test]
fn duplicate_explicit_ids_are_rejected_before_layout() {
    let mut seen = HashSet::new();
    let root = div().child(text("one").id(9)).child(text("two").id(9));
    let error = collect_explicit_ids(&root, &mut seen).unwrap_err();
    assert!(matches!(error, UiError::DuplicateId(_)));
}

#[test]
fn accessibility_root_id_is_reserved() {
    let mut seen = HashSet::from([ACCESSIBILITY_ROOT_ID]);
    let root = div().id(ACCESSIBILITY_ROOT_ID);
    let error = collect_explicit_ids(&root, &mut seen).unwrap_err();
    assert!(matches!(error, UiError::ReservedId(_)));
}

#[test]
fn controls_derive_accessible_names_from_text_children() {
    let control = button().child(text("Save changes"));
    assert_eq!(accessibility_label(&control).as_deref(), Some("Save changes"));
}

#[test]
fn controls_derive_accessible_names_from_styled_text_children() {
    let control = button().child(ui_tree::element::styled_text("Save changes"));
    assert_eq!(accessibility_label(&control).as_deref(), Some("Save changes"));
}

#[test]
fn accessibility_hidden_text_does_not_leak_into_a_parent_name() {
    let control = button()
        .child(text("Visible label"))
        .child(div().accessibility_hidden(true).child(text("Private duplicate")));
    assert_eq!(accessibility_label(&control).as_deref(), Some("Visible label"));
}

#[test]
fn inferred_cursors_disable_cleanly_while_explicit_not_allowed_survives() {
    let disabled_button = div().clickable().disabled(true);
    let explicit_disabled = div().clickable().disabled(true).cursor_not_allowed();
    let drag_source_of = || {
        let mut drag_source = div().clickable();
        drag_source.drag_source = true;
        drag_source
    };
    let drag_source = drag_source_of();
    let explicit_drag_source = drag_source_of().cursor_copy();

    assert_eq!(effective_cursor_style(&disabled_button, false), None);
    assert_eq!(
        effective_cursor_style(&explicit_disabled, false),
        Some(CursorStyle::OperationNotAllowed)
    );
    assert_eq!(effective_cursor_style(&drag_source, false), Some(CursorStyle::OpenHand));
    assert_eq!(
        effective_cursor_style(&explicit_drag_source, false),
        Some(CursorStyle::DragCopy)
    );
    assert_eq!(effective_cursor_style(&div(), true), Some(CursorStyle::IBeam));
}
