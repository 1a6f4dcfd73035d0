use std::collections::HashSet;

use ui_tree::motion::{register_motion_id, register_motion_ids, AnimationStage, DeclarativeAnimationPlayback, StagePhase};
use ui_tree::registry::UiError;

const MILLISECOND: u64 = 1_000_000;

fn once(duration_ms: u64) -> AnimationStage {
    AnimationStage { duration: duration_ms * MILLISECOND, oneshot: true, synced: false, frame_interval: None }
}

/// The value a linear stage eases a phase to.
fn linear(phase: Option<StagePhase>) -> f64 {
    match phase {
        None | Some(StagePhase::Start) => 0.0,
        Some(StagePhase::End) => 1.0,
        Some(StagePhase::Within { elapsed, duration }) => elapsed as f64 / duration as f64,
    }
}

#[test]
fn declarative_animation_chains_carry_elapsed_time_across_stages() {
    let start = 10_000 * MILLISECOND;
    let stages = [once(100), once(200)];
    let mut playback = DeclarativeAnimationPlayback::new(start);

    let first = playback.sample(&stages, start, start, true, false);
    assert_eq!(first.animation_ix, 0);
    assert_eq!(linear(first.phase), 0.0);

    let second = playback.sample(&stages, start + 150 * MILLISECOND, start, true, false);
    assert_eq!(second.animation_ix, 1);
    assert!((linear(second.phase) - 0.25).abs() < 0.001);

    let final_sample = playback.sample(&stages, start + 300 * MILLISECOND, start, true, false);
    assert_eq!(final_sample.animation_ix, 1);
    assert_eq!(linear(final_sample.phase), 1.0);
    assert!(!final_sample.request_frame);
    assert_eq!(final_sample.deadline, None);
}

#[test]
fn capped_declarative_oneshots_always_schedule_their_terminal_frame() {
    let start = 10_000 * MILLISECOND;
    // A cap of half a frame per second: one frame every two seconds.
    let stages = [AnimationStage { frame_interval: Some(2_000 * MILLISECOND), ..once(100) }];
    let mut playback = DeclarativeAnimationPlayback::new(start);
    let sample = playback.sample(&stages, start, start, true, false);
    assert_eq!(sample.deadline, Some(start + 100 * MILLISECOND));
}

#[test]
fn paused_clocks_keep_their_time_and_resume_without_catching_up() {
    let start = 0;
    let stages = [once(100)];
    let mut playback = DeclarativeAnimationPlayback::new(start);
    let first = playback.sample(&stages, start, start, true, false);
    assert!(first.request_frame);
    playback.sample(&stages, 40 * MILLISECOND, start, true, false);
    playback.pause(60 * MILLISECOND);
    assert_eq!(playback.elapsed, 60 * MILLISECOND);
    assert!(!playback.active);
    // Motion off: the last phase stays and nothing is scheduled.
    let off = playback.sample(&stages, 500 * MILLISECOND, start, false, false);
    assert_eq!(off.phase, Some(StagePhase::Within { elapsed: 40 * MILLISECOND, duration: 100 * MILLISECOND }));
    assert!(!off.request_frame);
    playback.resume(1_000 * MILLISECOND);
    let resumed = playback.sample(&stages, 1_020 * MILLISECOND, start, true, false);
    assert_eq!(resumed.phase, Some(StagePhase::Within { elapsed: 80 * MILLISECOND, duration: 100 * MILLISECOND }));
}

#[test]
fn reduced_motion_shows_the_last_stage_at_once() {
    let stages = [once(100), AnimationStage { oneshot: false, ..once(50) }];
    let mut playback = DeclarativeAnimationPlayback::new(0);
    let sample = playback.sample(&stages, 0, 0, true, true);
    assert_eq!(sample.animation_ix, 1);
    assert_eq!(sample.phase, Some(StagePhase::Start));
    assert!(!sample.request_frame && sample.deadline.is_none());
    let stages = [once(100)];
    assert_eq!(playback.sample(&stages, 0, 0, true, true).phase, Some(StagePhase::End));
}

#[test]
fn repeating_stages_wrap_and_synced_ones_follow_the_window_clock() {
    let repeat = AnimationStage { oneshot: false, ..once(100) };
    let mut playback = DeclarativeAnimationPlayback::new(0);
    let sample = playback.sample(&[repeat], 250 * MILLISECOND, 0, true, false);
    assert_eq!(sample.phase, Some(StagePhase::Within { elapsed: 50 * MILLISECOND, duration: 100 * MILLISECOND }));
    assert!(sample.request_frame);
    let synced = AnimationStage { synced: true, ..repeat };
    let mut late = DeclarativeAnimationPlayback::new(200 * MILLISECOND);
    let sample = late.sample(&[synced], 230 * MILLISECOND, 0, true, false);
    assert_eq!(sample.phase, Some(StagePhase::Within { elapsed: 30 * MILLISECOND, duration: 100 * MILLISECOND }));
    // Zero-length one-shot stages are skipped.
    let mut skip = DeclarativeAnimationPlayback::new(0);
    let sample = skip.sample(&[once(0), once(100)], 10 * MILLISECOND, 0, true, false);
    assert_eq!(sample.animation_ix, 1);
}

#[test]
fn a_completed_clock_stays_at_its_end() {
    let stages = [once(100)];
    let mut playback = DeclarativeAnimationPlayback::new(0);
    playback.sample(&stages, 200 * MILLISECOND, 0, true, false);
    assert!(playback.completed);
    let later = playback.sample(&stages, 900 * MILLISECOND, 0, true, false);
    assert_eq!(later.phase, Some(StagePhase::End));
    assert!(!later.request_frame);
    assert_eq!(later.deadline, None);
    assert_eq!(playback.elapsed, 100 * MILLISECOND);
}

#[test]
fn motion_ids_register_in_document_order_until_one_is_refused() {
    let mut seen: HashSet<u64> = HashSet::from([7]);
    let mut resolved = Vec::new();
    assert_eq!(register_motion_ids(&[1, 2, 3], &mut seen, &mut resolved, 4), Ok(()));
    assert_eq!(resolved, vec![1, 2, 3]);
    assert_eq!(seen, HashSet::from([1, 2, 3, 7]));

    let mut seen: HashSet<u64> = HashSet::new();
    let mut resolved = Vec::new();
    assert_eq!(register_motion_ids(&[4, 5, 4, 6], &mut seen, &mut resolved, 8), Err(UiError::DuplicateAnimationId(4)));
    assert_eq!(resolved, vec![4, 5]);
    assert_eq!(seen, HashSet::from([4, 5]));

    let mut seen: HashSet<u64> = HashSet::new();
    let mut resolved = Vec::new();
    assert_eq!(register_motion_ids(&[1, 2, 3], &mut seen, &mut resolved, 2), Err(UiError::TooManyDeclarativeAnimations));
    assert_eq!(resolved, vec![1, 2]);
}

#[test]
fn one_motion_id_is_refused_when_seen_or_when_the_window_is_full() {
    let mut seen: HashSet<u64> = HashSet::from([9]);
    let mut resolved = vec![9];
    assert_eq!(register_motion_id(&mut seen, &mut resolved, 9, 5), Err(UiError::DuplicateAnimationId(9)));
    assert_eq!(register_motion_id(&mut seen, &mut resolved, 10, 1), Err(UiError::TooManyDeclarativeAnimations));
    assert_eq!(resolved, vec![9]);
    assert_eq!(register_motion_id(&mut seen, &mut resolved, 10, 2), Ok(()));
    assert_eq!(resolved, vec![9, 10]);
    assert!(seen.contains(&10));
}
