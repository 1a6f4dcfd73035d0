use std::collections::HashSet;

use ui_tree::element::{div, text, CursorStyle, Tooltip};
use ui_tree::hits::{element_hit_region, AppRegion, CursorStates, RegionFacts};
use ui_tree::ids::{assign_runtime_id, mix_id};
use ui_tree::password::PasswordDisplay;
use ui_tree::words::{word_range_at, word_range_in_pieces};

fn no_states() -> CursorStates {
    CursorStates { hover: None, active: None, focus: None, invalid: None, dragging: None, drag_over: None }
}

fn facts() -> RegionFacts {
    RegionFacts {
        selectable_text: false,
        stateful_paint: false,
        stateful_cursor: false,
        cursor_states: no_states(),
        app_region: None,
    }
}

#[test]
fn word_ranges_follow_the_given_word_pieces() {
    let pieces = vec![(0, 5), (5, 1), (6, 5)];
    assert_eq!(word_range_in_pieces("hello world", &pieces, 2), 0..5);
    assert_eq!(word_range_in_pieces("hello world", &pieces, 5), 5..6);
    assert_eq!(word_range_in_pieces("hello world", &pieces, 99), 6..11);
    // Adjacent word pieces merge into one word.
    let split = vec![(0, 3), (3, 2), (5, 1), (6, 5)];
    assert_eq!(word_range_in_pieces("hello world", &split, 1), 0..5);
    assert_eq!(word_range_in_pieces("", &Vec::new(), 0), 0..0);
    assert_eq!(word_range_at("hello world", 8), word_range_in_pieces("hello world", &pieces, 8));
}

#[test]
fn password_masks_follow_the_given_grapheme_pieces() {
    let display = PasswordDisplay::from_graphemes("e\u{301}x", &vec![(0, 3), (3, 1)]);
    assert_eq!(display.content, "\u{2022}\u{2022}");
    assert_eq!(display.source_boundaries, vec![0, 3, 4]);
    assert_eq!(display.display_index(3), 3);
    assert_eq!(display.source_index(3), 3);
    let per_char = PasswordDisplay::from_graphemes("e\u{301}x", &vec![(0, 1), (1, 2), (3, 1)]);
    assert_eq!(per_char.content, "\u{2022}\u{2022}\u{2022}");
    assert_eq!(PasswordDisplay::new("e\u{301}x").content, display.content);
}

#[test]
fn runtime_ids_are_explicit_or_the_first_free_generated_candidate() {
    let mut seen: HashSet<u64> = HashSet::from([5]);
    assert_eq!(assign_runtime_id(Some(5), 1, 0, &mut seen), Some(5));
    assert_eq!(seen, HashSet::from([5]));

    let first = mix_id(1, 0);
    assert_eq!(assign_runtime_id(None, 1, 0, &mut seen), Some(first));
    assert!(seen.contains(&first));

    // The same child again collides and is re-mixed with its collision count.
    let second = mix_id(first, 1);
    assert_eq!(assign_runtime_id(None, 1, 0, &mut seen), Some(second));
    let third = mix_id(second, 2);
    assert_eq!(assign_runtime_id(None, 1, 0, &mut seen), Some(third));
    assert_eq!(seen.len(), 4);
}

#[test]
fn painted_elements_get_hit_regions_only_for_a_reason() {
    assert_eq!(element_hit_region(&div().id(1), facts(), true, 0, false), None);
    assert_eq!(element_hit_region(&text("plain").id(1), facts(), true, 0, false), None);

    let mut tipped = div().id(2);
    tipped.tooltip = Some(Tooltip { text: String::from("tip"), delay: 0 });
    let region = element_hit_region(&tipped, facts(), true, 7, true).expect("tooltip region");
    assert_eq!((region.id, region.order, region.overlay, region.contains_pointer), (2, 7, true, true));
    assert!(!region.clickable && !region.focusable);

    let mut button = ui_tree::element::button().id(3).disabled(true);
    button.drag_source = true;
    let region = element_hit_region(&button, facts(), false, 1, false).expect("button region");
    assert!(!region.clickable && !region.focusable && !region.drag_source);
    assert_eq!(region.cursor_style, None);

    let enabled = ui_tree::element::button().id(4);
    let region = element_hit_region(&enabled, facts(), false, 1, false).expect("button region");
    assert!(region.clickable && region.focusable);
    assert_eq!(region.cursor_style, Some(CursorStyle::PointingHand));

    let mut pinch = div().id(5);
    pinch.pinch_listener = true;
    assert!(element_hit_region(&pinch, facts(), false, 0, false).is_some());

    let selectable = RegionFacts { selectable_text: true, ..facts() };
    let region = element_hit_region(&text("copy").id(6), selectable, false, 0, false).expect("text region");
    assert_eq!(region.cursor_style, Some(CursorStyle::IBeam));

    let dragging = RegionFacts { app_region: Some(AppRegion::Drag), ..facts() };
    assert_eq!(element_hit_region(&div().id(7), dragging, false, 0, false).unwrap().app_region, Some(AppRegion::Drag));

    let states = CursorStates { invalid: Some(CursorStyle::OperationNotAllowed), ..no_states() };
    let stateful = RegionFacts { stateful_cursor: true, cursor_states: states, ..facts() };
    let mut field = div().id(8);
    assert_eq!(element_hit_region(&field, stateful, false, 0, false).unwrap().cursor_states.invalid, None);
    field.accessibility.invalid = true;
    assert_eq!(
        element_hit_region(&field, stateful, false, 0, false).unwrap().cursor_states.invalid,
        Some(CursorStyle::OperationNotAllowed)
    );
}

#[test]
fn display_offsets_count_three_bytes_per_grapheme_before_the_source_offset() {
    let secret = "sk-\u{e9}x";
    let display = PasswordDisplay::new(secret);
    // Graphemes: s k - é x, starting at 0 1 2 3 5.
    assert_eq!(display.display_index(0), 0);
    assert_eq!(display.display_index(3), 9);
    assert_eq!(display.display_index(4), 9);
    assert_eq!(display.display_index(5), 12);
    assert_eq!(display.display_index(6), 15);
    for boundary in [0, 1, 2, 3, 5, 6] {
        assert_eq!(display.source_index(display.display_index(boundary)), boundary);
    }
}
