use vstd::prelude::*;
use std::collections::HashSet;
use crate::element::ElementId;
use crate::registry::UiError;

verus! {

/// One stage of a declarative animation, by its timing (what value a phase eases to is the
/// animation's own business). Times are nanoseconds.
#[derive(Clone, Copy, Debug, PartialEq, Eq, Structural)]
pub struct AnimationStage {
    pub duration: u64,
    /// Plays once and then hands over to the next stage; otherwise repeats.
    pub oneshot: bool,
    /// A repeating stage that keeps in step with the window's animation clock instead of its
    /// own elapsed time.
    pub synced: bool,
    /// The least time between two frames, when the stage caps its frame rate; otherwise it asks
    /// for every display frame.
    pub frame_interval: Option<u64>,
}

/// How far into its stage an animation is: at the start, at the end, or `elapsed` of
/// `duration` (the phase `elapsed / duration`).
#[derive(Clone, Copy, Debug, PartialEq, Eq, Structural)]
pub enum StagePhase {
    Start,
    End,
    Within { elapsed: u64, duration: u64 },
}

/// The clock of one declarative animation.
#[derive(Clone, Copy, Debug, PartialEq, Eq, Structural)]
pub struct DeclarativeAnimationPlayback {
    /// The stage playing.
    pub animation_ix: usize,
    /// Time played in that stage.
    pub elapsed: u64,
    pub last_advanced_at: u64,
    pub next_frame_at: Option<u64>,
    /// The stage `next_frame_at` was scheduled for.
    pub scheduled_stage: usize,
    /// The phase last sampled (none before the first sample).
    pub last_phase: Option<StagePhase>,
    pub completed: bool,
    pub active: bool,
}

/// What a sample of the clock gives: the stage and its phase, and when the next frame is due
/// (at the next display frame when `request_frame`, else at `deadline` if any).
#[derive(Clone, Copy, Debug, PartialEq, Eq, Structural)]
pub struct DeclarativeAnimationSample {
    pub animation_ix: usize,
    pub phase: Option<StagePhase>,
    pub request_frame: bool,
    pub deadline: Option<u64>,
}

pub open spec fn time_since(now: u64, then: u64) -> u64 {
    if now >= then { (now - then) as u64 } else { 0 }
}

pub open spec fn add_time(a: u64, b: u64) -> u64 {
    if a + b <= u64::MAX { (a + b) as u64 } else { u64::MAX }
}

pub open spec fn deadline_after(now: u64, delay: u64) -> Option<u64> {
    if now + delay <= u64::MAX { Some((now + delay) as u64) } else { None }
}

/// Where the clock `p` stands in `stages` at `now` (with `epoch` the window's animation clock
/// origin), and the clock after it got there: zero-length one-shot stages are skipped, a
/// finished one-shot stage hands its surplus time to the next, and the last one ends the
/// animation. The result is the stage, its phase and whether the animation is still running.
pub open spec fn resolve_spec(stages: Seq<AnimationStage>, p: DeclarativeAnimationPlayback, now: u64, epoch: u64)
    -> (DeclarativeAnimationPlayback, (usize, StagePhase, bool))
    decreases stages.len() - p.animation_ix when stages.len() <= usize::MAX
{
    let ix = p.animation_ix;
    if p.completed {
        (p, (ix, StagePhase::End, false))
    } else if ix >= stages.len() {
        (p, (ix, StagePhase::Start, false))
    } else {
        let stage = stages[ix as int];
        let d = stage.duration;
        if d == 0 {
            if stage.oneshot && ix + 1 < stages.len() {
                resolve_spec(stages, DeclarativeAnimationPlayback {
                    animation_ix: (ix + 1) as usize,
                    elapsed: 0,
                    next_frame_at: None,
                    ..p
                }, now, epoch)
            } else {
                (DeclarativeAnimationPlayback { completed: stage.oneshot, ..p },
                    (ix, if stage.oneshot { StagePhase::End } else { StagePhase::Start }, false))
            }
        } else if !stage.oneshot && stage.synced {
            (p, (ix, StagePhase::Within { elapsed: (time_since(now, epoch) % d) as u64, duration: d }, true))
        } else if stage.oneshot {
            if p.elapsed >= d {
                if ix + 1 < stages.len() {
                    resolve_spec(stages, DeclarativeAnimationPlayback {
                        elapsed: (p.elapsed - d) as u64,
                        animation_ix: (ix + 1) as usize,
                        next_frame_at: None,
                        ..p
                    }, now, epoch)
                } else {
                    (DeclarativeAnimationPlayback { elapsed: d, completed: true, ..p }, (ix, StagePhase::End, false))
                }
            } else {
                (p, (ix, StagePhase::Within { elapsed: p.elapsed, duration: d }, true))
            }
        } else {
            (p, (ix, StagePhase::Within { elapsed: (p.elapsed % d) as u64, duration: d }, true))
        }
    }
}

/// The clock `p` sampled at `now` for `stages`, and the clock after the sample.
///
/// A clock left past the stages restarts their last one. Under reduced motion the last stage
/// shows at once (at its end if it plays once, else at its start) and nothing is scheduled;
/// with motion off the last sampled phase stays. Otherwise the clock runs on from its last
/// advance (unless it completed), resolves its stage (see `resolve_spec`), and a running stage
/// asks for the next display frame, or, with a capped frame rate, keeps (or, when due or for a
/// new stage, schedules) one deadline: one interval ahead, or the stage's end if that comes
/// first for a one-shot stage.
pub open spec fn sample_spec(
    stages: Seq<AnimationStage>, p0: DeclarativeAnimationPlayback, now: u64, epoch: u64, enabled: bool, reduce_motion: bool,
) -> (DeclarativeAnimationPlayback, DeclarativeAnimationSample) {
    let last = (stages.len() - 1) as usize;
    let p1 = if p0.animation_ix >= stages.len() {
        DeclarativeAnimationPlayback { animation_ix: last, elapsed: 0, completed: false, next_frame_at: None, ..p0 }
    } else {
        p0
    };
    if reduce_motion {
        let phase = if stages[last as int].oneshot { StagePhase::End } else { StagePhase::Start };
        (DeclarativeAnimationPlayback { active: false, next_frame_at: None, last_phase: Some(phase), ..p1 },
            DeclarativeAnimationSample { animation_ix: last, phase: Some(phase), request_frame: false, deadline: None })
    } else if !enabled {
        (p1, DeclarativeAnimationSample { animation_ix: p1.animation_ix, phase: p1.last_phase, request_frame: false, deadline: None })
    } else {
        let p2 = DeclarativeAnimationPlayback {
            elapsed: if p1.completed { p1.elapsed } else { add_time(p1.elapsed, time_since(now, p1.last_advanced_at)) },
            last_advanced_at: now,
            ..p1
        };
        let (p3, resolved) = resolve_spec(stages, p2, now, epoch);
        let (ix, phase, active) = resolved;
        let p4 = DeclarativeAnimationPlayback { last_phase: Some(phase), active, ..p3 };
        let stage = stages[ix as int];
        if !active {
            (DeclarativeAnimationPlayback { next_frame_at: None, ..p4 },
                DeclarativeAnimationSample { animation_ix: ix, phase: Some(phase), request_frame: false, deadline: None })
        } else {
            match stage.frame_interval {
                None => (DeclarativeAnimationPlayback { next_frame_at: None, ..p4 },
                    DeclarativeAnimationSample { animation_ix: ix, phase: Some(phase), request_frame: true, deadline: None }),
                Some(interval) => {
                    let due = p4.scheduled_stage != ix || (match p4.next_frame_at {
                        Some(d) => d <= now,
                        None => true,
                    });
                    let delay = if stage.oneshot {
                        let left = time_since(stage.duration, p4.elapsed);
                        if interval <= left { interval } else { left }
                    } else {
                        interval
                    };
                    let p5 = if due {
                        DeclarativeAnimationPlayback { next_frame_at: deadline_after(now, delay), scheduled_stage: ix, ..p4 }
                    } else {
                        p4
                    };
                    (p5, DeclarativeAnimationSample { animation_ix: ix, phase: Some(phase), request_frame: false, deadline: p5.next_frame_at })
                },
            }
        }
    }
}

proof fn lemma_resolve_in_range(stages: Seq<AnimationStage>, p: DeclarativeAnimationPlayback, now: u64, epoch: u64)
    requires
        p.animation_ix < stages.len() <= usize::MAX,
    ensures
        resolve_spec(stages, p, now, epoch).1.0 < stages.len(),
        resolve_spec(stages, p, now, epoch).0.animation_ix == resolve_spec(stages, p, now, epoch).1.0,
    decreases stages.len() - p.animation_ix,
{
    let ix = p.animation_ix;
    if !p.completed {
        let stage = stages[ix as int];
        let d = stage.duration;
        if d == 0 {
            if stage.oneshot && ix + 1 < stages.len() {
                lemma_resolve_in_range(stages, DeclarativeAnimationPlayback {
                    animation_ix: (ix + 1) as usize,
                    elapsed: 0,
                    next_frame_at: None,
                    ..p
                }, now, epoch);
            }
        } else if stage.oneshot && p.elapsed >= d && ix + 1 < stages.len() {
            lemma_resolve_in_range(stages, DeclarativeAnimationPlayback {
                elapsed: (p.elapsed - d) as u64,
                animation_ix: (ix + 1) as usize,
                next_frame_at: None,
                ..p
            }, now, epoch);
        }
    }
}

/// A running clock that completed stays at the end of its stage and schedules nothing more.
pub proof fn lemma_completed_clock_stays_done(stages: Seq<AnimationStage>, p: DeclarativeAnimationPlayback, now: u64, epoch: u64)
    requires
        p.completed,
        p.animation_ix < stages.len() <= usize::MAX,
    ensures
        ({
            let (q, sample) = sample_spec(stages, p, now, epoch, true, false);
            &&& sample.animation_ix == p.animation_ix
            &&& sample.phase == Some(StagePhase::End)
            &&& !sample.request_frame && sample.deadline is None
            &&& q.completed && q.animation_ix == p.animation_ix
        }),
{
}

impl DeclarativeAnimationPlayback {
    /// A clock that starts at `now`, on the first stage.
    pub fn new(now: u64) -> (p: DeclarativeAnimationPlayback)
        ensures
            p == (DeclarativeAnimationPlayback {
                animation_ix: 0,
                elapsed: 0,
                last_advanced_at: now,
                next_frame_at: None,
                scheduled_stage: 0,
                last_phase: None,
                completed: false,
                active: false,
            }),
    {
        DeclarativeAnimationPlayback {
            animation_ix: 0,
            elapsed: 0,
            last_advanced_at: now,
            next_frame_at: None,
            scheduled_stage: 0,
            last_phase: None,
            completed: false,
            active: false,
        }
    }

    /// Stops the clock at `now`, keeping the time played so far.
    pub fn pause(&mut self, now: u64)
        ensures
            *final(self) == (DeclarativeAnimationPlayback {
                elapsed: if old(self).active && !old(self).completed {
                    add_time(old(self).elapsed, time_since(now, old(self).last_advanced_at))
                } else {
                    old(self).elapsed
                },
                last_advanced_at: now,
                next_frame_at: None,
                active: false,
                ..*old(self)
            }),
    {
        if self.active && !self.completed {
            self.elapsed = self.elapsed.saturating_add(now.saturating_sub(self.last_advanced_at));
        }
        self.last_advanced_at = now;
        self.next_frame_at = None;
        self.active = false;
    }

    /// Lets the clock run again from `now` (the paused time does not count).
    pub fn resume(&mut self, now: u64)
        ensures
            *final(self) == (DeclarativeAnimationPlayback { last_advanced_at: now, next_frame_at: None, ..*old(self) }),
    {
        self.last_advanced_at = now;
        self.next_frame_at = None;
    }

    /// Moves the clock to the stage it stands in (see `resolve_spec`).
    pub fn resolve_phase(&mut self, stages: &[AnimationStage], now: u64, epoch: u64) -> (resolved: (usize, StagePhase, bool))
        requires
            old(self).animation_ix < stages@.len(),
        ensures
            (*final(self), resolved) == resolve_spec(stages@, *old(self), now, epoch),
    {
        assert(stages@.len() <= usize::MAX) by {
            assert(stages@.len() == stages.len());
        }
        if self.completed {
            return (self.animation_ix, StagePhase::End, false);
        }
        loop
            invariant
                self.animation_ix < stages@.len() <= usize::MAX,
                !self.completed,
                resolve_spec(stages@, *self, now, epoch) == resolve_spec(stages@, *old(self), now, epoch),
            decreases stages@.len() - self.animation_ix,
        {
            let ix = self.animation_ix;
            let stage = stages[ix];
            let d = stage.duration;
            if d == 0 {
                if stage.oneshot && ix + 1 < stages.len() {
                    self.animation_ix = ix + 1;
                    self.elapsed = 0;
                    self.next_frame_at = None;
                    continue;
                }
                self.completed = stage.oneshot;
                return (ix, if stage.oneshot { StagePhase::End } else { StagePhase::Start }, false);
            }
            if !stage.oneshot && stage.synced {
                let since = now.saturating_sub(epoch);
                return (ix, StagePhase::Within { elapsed: since % d, duration: d }, true);
            }
            if stage.oneshot {
                if self.elapsed >= d {
                    if ix + 1 < stages.len() {
                        self.elapsed = self.elapsed - d;
                        self.animation_ix = ix + 1;
                        self.next_frame_at = None;
                        continue;
                    }
                    self.elapsed = d;
                    self.completed = true;
                    return (ix, StagePhase::End, false);
                }
                return (ix, StagePhase::Within { elapsed: self.elapsed, duration: d }, true);
            }
            return (ix, StagePhase::Within { elapsed: self.elapsed % d, duration: d }, true);
        }
    }

    /// Samples the clock at `now` (see `sample_spec`); `epoch` is the origin of the window's
    /// animation clock.
    pub fn sample(&mut self, stages: &[AnimationStage], now: u64, epoch: u64, enabled: bool, reduce_motion: bool)
        -> (sample: DeclarativeAnimationSample)
        requires
            stages@.len() > 0,
        ensures
            (*final(self), sample) == sample_spec(stages@, *old(self), now, epoch, enabled, reduce_motion),
    {
        let last = stages.len() - 1;
        if self.animation_ix >= stages.len() {
            self.animation_ix = last;
            self.elapsed = 0;
            self.completed = false;
            self.next_frame_at = None;
        }
        if reduce_motion {
            let phase = if stages[last].oneshot { StagePhase::End } else { StagePhase::Start };
            self.active = false;
            self.next_frame_at = None;
            self.last_phase = Some(phase);
            return DeclarativeAnimationSample { animation_ix: last, phase: Some(phase), request_frame: false, deadline: None };
        }
        if !enabled {
            return DeclarativeAnimationSample {
                animation_ix: self.animation_ix,
                phase: self.last_phase,
                request_frame: false,
                deadline: None,
            };
        }
        if !self.completed {
            self.elapsed = self.elapsed.saturating_add(now.saturating_sub(self.last_advanced_at));
        }
        self.last_advanced_at = now;
        proof {
            assert(stages@.len() == stages.len());
            lemma_resolve_in_range(stages@, *self, now, epoch);
        }
        let (ix, phase, active) = self.resolve_phase(stages, now, epoch);
        self.last_phase = Some(phase);
        self.active = active;
        let stage = stages[ix];
        if !active {
            self.next_frame_at = None;
            return DeclarativeAnimationSample { animation_ix: ix, phase: Some(phase), request_frame: false, deadline: None };
        }
        match stage.frame_interval {
            None => {
                self.next_frame_at = None;
                DeclarativeAnimationSample { animation_ix: ix, phase: Some(phase), request_frame: true, deadline: None }
            },
            Some(interval) => {
                let due = self.scheduled_stage != ix || match self.next_frame_at {
                    Some(deadline) => deadline <= now,
                    None => true,
                };
                if due {
                    let delay = if stage.oneshot {
                        let left = stage.duration.saturating_sub(self.elapsed);
                        if interval <= left { interval } else { left }
                    } else {
                        interval
                    };
                    self.next_frame_at = now.checked_add(delay);
                    self.scheduled_stage = ix;
                }
                DeclarativeAnimationSample { animation_ix: ix, phase: Some(phase), request_frame: false, deadline: self.next_frame_at }
            },
        }
    }
}


// ----- motion ids -----

/// Registers the motion ids that a view declares, in document order, against the ids already
/// registered in the window (`seen`) and the window's `limit`: the set afterwards, the ids
/// registered, and the error that stopped registration, if any. An id seen before is a
/// duplicate; a new id when `limit` ids are registered is one too many.
pub open spec fn register_motion(seen: Set<ElementId>, ids: Seq<ElementId>, limit: nat)
    -> (Set<ElementId>, Seq<ElementId>, Option<UiError>)
    decreases ids.len(),
{
    if ids.len() == 0 {
        (seen, Seq::empty(), None)
    } else if seen.contains(ids[0]) {
        (seen, Seq::empty(), Some(UiError::DuplicateAnimationId(ids[0])))
    } else if seen.len() == limit {
        (seen, Seq::empty(), Some(UiError::TooManyDeclarativeAnimations))
    } else {
        let rest = register_motion(seen.insert(ids[0]), ids.drop_first(), limit);
        (rest.0, seq![ids[0]] + rest.1, rest.2)
    }
}

/// Registers one declared motion id: refused as a duplicate when already registered, refused
/// when `limit` ids are registered, otherwise recorded in `motion_ids` and appended to
/// `resolved`.
pub fn register_motion_id(
    motion_ids: &mut HashSet<ElementId>,
    resolved: &mut Vec<ElementId>,
    id: ElementId,
    limit: usize,
) -> (result: Result<(), UiError>)
    ensures
        ({
            let r = register_motion(old(motion_ids)@, seq![id], limit as nat);
            &&& final(motion_ids)@ == r.0
            &&& final(resolved)@ == old(resolved)@ + r.1
            &&& result == (match r.2 {
                Some(e) => Err(e),
                None => Ok::<(), UiError>(()),
            })
        }),
{
    proof {
        reveal_with_fuel(register_motion, 2);
        assert(seq![id].drop_first() =~= Seq::<ElementId>::empty());
    }
    if motion_ids.contains(&id) {
        return Err(UiError::DuplicateAnimationId(id));
    }
    if motion_ids.len() == limit {
        return Err(UiError::TooManyDeclarativeAnimations);
    }
    motion_ids.insert(id);
    resolved.push(id);
    assert(resolved@ =~= old(resolved)@ + seq![id]);
    Ok(())
}

proof fn lemma_register_motion_step(seen: Set<ElementId>, ids: Seq<ElementId>, k: int, limit: nat)
    requires
        0 <= k < ids.len(),
        register_motion(seen, ids.subrange(0, k), limit).2 is None,
    ensures
        ({
            let before = register_motion(seen, ids.subrange(0, k), limit);
            let step = register_motion(before.0, seq![ids[k]], limit);
            let after = register_motion(seen, ids.subrange(0, k + 1), limit);
            &&& after.0 == step.0
            &&& after.1 == before.1 + step.1
            &&& after.2 == step.2
        }),
    decreases k,
{
    reveal_with_fuel(register_motion, 2);
    let head = ids.subrange(0, k + 1);
    if k == 0 {
        assert(ids.subrange(0, 0) =~= Seq::<ElementId>::empty());
        assert(head =~= seq![ids[0]]);
        assert(head.drop_first() =~= Seq::<ElementId>::empty());
        assert(seq![ids[0]].drop_first() =~= Seq::<ElementId>::empty());
    } else {
        let prefix = ids.subrange(0, k);
        assert(prefix[0] == ids[0]);
        assert(head[0] == ids[0]);
        let seen1 = seen.insert(ids[0]);
        let tail = ids.drop_first();
        assert(prefix.drop_first() =~= tail.subrange(0, k - 1));
        assert(head.drop_first() =~= tail.subrange(0, k));
        lemma_register_motion_step(seen1, tail, k - 1, limit);
        assert(tail[k - 1] == ids[k]);
        let r = register_motion(seen1, tail.subrange(0, k), limit);
        let b = register_motion(seen1, tail.subrange(0, k - 1), limit);
        assert(seq![ids[0]] + r.1 =~= (seq![ids[0]] + b.1) + register_motion(b.0, seq![ids[k]], limit).1);
    }
}

/// Registers the motion ids a view declares, in document order, stopping at the first one
/// refused (those before it stay registered).
pub fn register_motion_ids(
    ids: &[ElementId],
    motion_ids: &mut HashSet<ElementId>,
    resolved: &mut Vec<ElementId>,
    limit: usize,
) -> (result: Result<(), UiError>)
    ensures
        ({
            let r = register_motion(old(motion_ids)@, ids@, limit as nat);
            &&& final(motion_ids)@ == r.0
            &&& final(resolved)@ == old(resolved)@ + r.1
            &&& result == (match r.2 {
                Some(e) => Err(e),
                None => Ok::<(), UiError>(()),
            })
        }),
{
    let ghost seen = motion_ids@;
    let mut k: usize = 0;
    proof {
        assert(ids@.subrange(0, 0) =~= Seq::<ElementId>::empty());
    }
    while k < ids.len()
        invariant
            k <= ids@.len(),
            seen == old(motion_ids)@,
            register_motion(seen, ids@.subrange(0, k as int), limit as nat).2 is None,
            motion_ids@ == register_motion(seen, ids@.subrange(0, k as int), limit as nat).0,
            resolved@ == old(resolved)@ + register_motion(seen, ids@.subrange(0, k as int), limit as nat).1,
        decreases ids@.len() - k,
    {
        proof {
            lemma_register_motion_step(seen, ids@, k as int, limit as nat);
        }
        let ghost before = resolved@;
        let step = register_motion_id(motion_ids, resolved, ids[k], limit);
        proof {
            let b = register_motion(seen, ids@.subrange(0, k as int), limit as nat);
            assert(resolved@ =~= old(resolved)@ + register_motion(seen, ids@.subrange(0, k + 1), limit as nat).1);
        }
        if step.is_err() {
            proof {
                lemma_register_motion_prefix_error(seen, ids@, k as int + 1, limit as nat);
                assert(ids@.subrange(0, ids@.len() as int) =~= ids@);
            }
            return step;
        }
        k += 1;
    }
    proof {
        assert(ids@.subrange(0, ids@.len() as int) =~= ids@);
    }
    Ok(())
}

/// Once a prefix of the ids is refused, so is the whole sequence, with the same outcome.
proof fn lemma_register_motion_prefix_error(seen: Set<ElementId>, ids: Seq<ElementId>, k: int, limit: nat)
    requires
        0 <= k <= ids.len(),
        register_motion(seen, ids.subrange(0, k), limit).2 is Some,
    ensures
        register_motion(seen, ids, limit) == register_motion(seen, ids.subrange(0, k), limit),
    decreases k,
{
    let prefix = ids.subrange(0, k);
    assert(prefix.len() > 0);
    assert(prefix[0] == ids[0]);
    if !seen.contains(ids[0]) && seen.len() != limit {
        assert(prefix.drop_first() =~= ids.drop_first().subrange(0, k - 1));
        lemma_register_motion_prefix_error(seen.insert(ids[0]), ids.drop_first(), k - 1, limit);
    }
}

/// Registration of the declared motion ids succeeds exactly when they are pairwise distinct,
/// none is registered already, and all of them fit under the window's limit.
pub proof fn lemma_register_motion_succeeds_iff(seen: Set<ElementId>, ids: Seq<ElementId>, limit: nat)
    requires
        seen.finite(),
        seen.len() <= limit,
    ensures
        register_motion(seen, ids, limit).2 is None <==> {
            &&& ids.no_duplicates()
            &&& forall|i: int| 0 <= i < ids.len() ==> !seen.contains(#[trigger] ids[i])
            &&& seen.len() + ids.len() <= limit
        },
        register_motion(seen, ids, limit).2 is None ==> register_motion(seen, ids, limit).1 == ids,
    decreases ids.len(),
{
    if ids.len() > 0 {
        let rest = ids.drop_first();
        if seen.contains(ids[0]) {
        } else if seen.len() == limit {
        } else {
            let seen1 = seen.insert(ids[0]);
            lemma_register_motion_succeeds_iff(seen1, rest, limit);
            assert(seen1.len() == seen.len() + 1);
            if ids.no_duplicates() && (forall|i: int| 0 <= i < ids.len() ==> !seen.contains(#[trigger] ids[i])) {
                assert forall|i: int| 0 <= i < rest.len() implies !seen1.contains(#[trigger] rest[i]) by {
                    assert(rest[i] == ids[i + 1]);
                }
                assert(rest.no_duplicates()) by {
                    assert forall|i: int, j: int| 0 <= i < rest.len() && 0 <= j < rest.len() && i != j
                        implies rest[i] != rest[j] by {
                        assert(rest[i] == ids[i + 1] && rest[j] == ids[j + 1]);
                    }
                }
            }
            if rest.no_duplicates() && (forall|i: int| 0 <= i < rest.len() ==> !seen1.contains(#[trigger] rest[i])) {
                assert forall|i: int| 0 <= i < ids.len() implies !seen.contains(#[trigger] ids[i]) by {
                    if i > 0 {
                        assert(ids[i] == rest[i - 1]);
                    }
                }
                assert(ids.no_duplicates()) by {
                    assert forall|i: int, j: int| 0 <= i < ids.len() && 0 <= j < ids.len() && i != j
                        implies ids[i] != ids[j] by {
                        if i > 0 && j > 0 {
                            assert(ids[i] == rest[i - 1] && ids[j] == rest[j - 1]);
                        } else if i == 0 {
                            assert(ids[j] == rest[j - 1]);
                            assert(!seen1.contains(rest[j - 1]));
                        } else {
                            assert(ids[i] == rest[i - 1]);
                            assert(!seen1.contains(rest[i - 1]));
                        }
                    }
                }
            }
            if register_motion(seen, ids, limit).2 is None {
                assert(seq![ids[0]] + rest =~= ids);
            }
        }
    }
}

} // verus!
