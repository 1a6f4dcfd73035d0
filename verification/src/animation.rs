use vstd::prelude::*;
use std::collections::{HashMap, HashSet};
use crate::element::{AnimatedImage, AnimationRepeat, Element, ElementId, ElementKind, preorder, forest, keep_shown};
use crate::traverse::lemma_forest_zero;

verus! {

broadcast use {vstd::std_specs::vec::group_vec_axioms, vstd::std_specs::hash::group_hash_axioms};

/// Sum of the first `n` frame durations.
pub open spec fn prefix_duration(durations: Seq<u64>, n: int) -> nat
    decreases n,
{
    if n <= 0 || n > durations.len() {
        0
    } else {
        prefix_duration(durations, n - 1) + durations[n - 1] as nat
    }
}

/// Length of one full loop of the animation.
pub open spec fn loop_duration(durations: Seq<u64>) -> nat {
    prefix_duration(durations, durations.len() as int)
}

/// Frame shown `position` nanoseconds into a loop: the first frame that ends after it.
pub open spec fn frame_at_position(durations: Seq<u64>, position: nat, index: int) -> bool {
    &&& 0 <= index < durations.len()
    &&& prefix_duration(durations, index) <= position < prefix_duration(durations, index + 1)
}

pub proof fn lemma_prefix_monotonic(durations: Seq<u64>, m: int, n: int)
    requires
        0 <= m <= n <= durations.len(),
    ensures
        prefix_duration(durations, m) <= prefix_duration(durations, n),
    decreases n - m,
{
    if m < n {
        lemma_prefix_monotonic(durations, m, n - 1);
    }
}

impl AnimatedImage {
    /// A usable animation: at least one frame, every frame lasts, and a loop fits in 64 bits.
    pub open spec fn wf(&self) -> bool {
        &&& self.frame_durations.len() > 0
        &&& forall|i: int| 0 <= i < self.frame_durations.len() ==> #[trigger] self.frame_durations[i] > 0
        &&& loop_duration(self.frame_durations@) <= u64::MAX
    }

    /// Nanoseconds of playback after which the animation stops, if it stops.
    pub open spec fn stop_after(&self) -> Option<nat> {
        match self.repeat {
            AnimationRepeat::Infinite => None,
            AnimationRepeat::Finite(n) => Some(n as nat * loop_duration(self.frame_durations@)),
        }
    }

    /// Frame index and completion after `elapsed` nanoseconds of playback.
    pub open spec fn spec_frame_index_at(&self, elapsed: nat) -> (int, bool) {
        let len = self.frame_durations.len() as int;
        match self.stop_after() {
            Some(stop) if elapsed >= stop => (len - 1, true),
            _ => (
                choose|i: int| #[trigger] frame_at_position(self.frame_durations@, elapsed % loop_duration(self.frame_durations@), i),
                false,
            ),
        }
    }

    /// Builds an animation from its frame durations; refuses an empty or zero-length frame list
    /// and one whose loop does not fit in 64 bits.
    pub fn with_repeat(id: u64, frame_durations: Vec<u64>, repeat: AnimationRepeat) -> (image: Option<AnimatedImage>)
        ensures
            match image {
                Some(image) => image.wf() && image.id == id && image.frame_durations@ == frame_durations@
                    && image.repeat == repeat,
                None => !(AnimatedImage { id, frame_durations, repeat }).wf(),
            },
    {
        if frame_durations.len() == 0 {
            return None;
        }
        let mut total: u64 = 0;
        let mut i: usize = 0;
        while i < frame_durations.len()
            invariant
                i <= frame_durations.len(),
                total == prefix_duration(frame_durations@, i as int),
                forall|j: int| 0 <= j < i ==> #[trigger] frame_durations@[j] > 0,
            decreases frame_durations.len() - i,
        {
            let d = frame_durations[i];
            if d == 0 {
                return None;
            }
            if total > u64::MAX - d {
                proof {
                    lemma_prefix_monotonic(frame_durations@, i + 1, frame_durations.len() as int);
                }
                return None;
            }
            total = total + d;
            i += 1;
        }
        Some(AnimatedImage { id, frame_durations, repeat })
    }

    /// Number of frames.
    pub fn frame_count(&self) -> (count: usize)
        ensures
            count == self.frame_durations.len(),
    {
        self.frame_durations.len()
    }

    /// Length of one loop.
    pub fn loop_length(&self) -> (total: u64)
        requires
            self.wf(),
        ensures
            total == loop_duration(self.frame_durations@),
    {
        let mut total: u64 = 0;
        let mut i: usize = 0;
        while i < self.frame_durations.len()
            invariant
                self.wf(),
                i <= self.frame_durations.len(),
                total == prefix_duration(self.frame_durations@, i as int),
            decreases self.frame_durations.len() - i,
        {
            proof {
                lemma_prefix_monotonic(self.frame_durations@, i + 1, self.frame_durations.len() as int);
            }
            total = total + self.frame_durations[i];
            i += 1;
        }
        total
    }

    /// Index of the frame shown `position` nanoseconds into a loop, and where that frame ends.
    fn frame_in_loop(&self, position: u64) -> (found: (usize, u64))
        requires
            self.wf(),
            position < loop_duration(self.frame_durations@),
        ensures
            frame_at_position(self.frame_durations@, position as nat, found.0 as int),
            found.1 == prefix_duration(self.frame_durations@, found.0 + 1),
    {
        let mut end: u64 = 0;
        let mut i: usize = 0;
        while i < self.frame_durations.len()
            invariant
                self.wf(),
                position < loop_duration(self.frame_durations@),
                i <= self.frame_durations.len(),
                end == prefix_duration(self.frame_durations@, i as int),
                end <= position,
            decreases self.frame_durations.len() - i,
        {
            proof {
                lemma_prefix_monotonic(self.frame_durations@, i + 1, self.frame_durations.len() as int);
            }
            let next = end + self.frame_durations[i];
            if position < next {
                return (i, next);
            }
            end = next;
            i += 1;
        }
        (i, end)
    }

    /// Frame index shown after `elapsed` nanoseconds of playback, and whether a finite animation
    /// has finished (it then rests on its last frame).
    pub fn frame_index_at(&self, elapsed: u64) -> (result: (usize, bool))
        requires
            self.wf(),
        ensures
            result.1 == (self.stop_after() matches Some(stop) && elapsed >= stop),
            result.1 ==> result.0 == self.frame_durations.len() - 1,
            !result.1 ==> frame_at_position(self.frame_durations@,
                elapsed as nat % loop_duration(self.frame_durations@), result.0 as int),
    {
        let total = self.loop_length();
        proof {
            assert(self.frame_durations[0] > 0);
            lemma_prefix_monotonic(self.frame_durations@, 1, self.frame_durations.len() as int);
            assert(prefix_duration(self.frame_durations@, 1) == self.frame_durations@[0]) by {
                assert(prefix_duration(self.frame_durations@, 0) == 0);
            }
        }
        match self.repeat {
            AnimationRepeat::Finite(n) => {
                assert((n as u128) * (total as u128) <= 0xffff_ffff_u128 * 0xffff_ffff_ffff_ffff_u128)
                    by (nonlinear_arith)
                    requires n <= 0xffff_ffff_u32, total <= 0xffff_ffff_ffff_ffff_u64;
                let stop = (n as u128) * (total as u128);
                if (elapsed as u128) >= stop {
                    return (self.frame_durations.len() - 1, true);
                }
            }
            AnimationRepeat::Infinite => {}
        }
        let position = elapsed % total;
        let (index, _) = self.frame_in_loop(position);
        (index, false)
    }

    /// Time left in frame `index` after `elapsed` nanoseconds of playback.
    pub fn remaining_in_frame(&self, elapsed: u64, index: usize) -> (remaining: u64)
        requires
            self.wf(),
            index < self.frame_durations.len(),
        ensures
            remaining == if prefix_duration(self.frame_durations@, index + 1)
                > elapsed as nat % loop_duration(self.frame_durations@) {
                prefix_duration(self.frame_durations@, index + 1) - elapsed as nat % loop_duration(self.frame_durations@)
            } else {
                0
            },
    {
        let total = self.loop_length();
        proof {
            assert(self.frame_durations[0] > 0);
            lemma_prefix_monotonic(self.frame_durations@, 1, self.frame_durations.len() as int);
            assert(prefix_duration(self.frame_durations@, 1) == self.frame_durations@[0]) by {
                assert(prefix_duration(self.frame_durations@, 0) == 0);
            }
        }
        let position = elapsed % total;
        let mut end: u64 = 0;
        let mut i: usize = 0;
        while i <= index
            invariant
                self.wf(),
                index < self.frame_durations.len(),
                i <= index + 1,
                end == prefix_duration(self.frame_durations@, i as int),
            decreases index + 1 - i,
        {
            proof {
                lemma_prefix_monotonic(self.frame_durations@, i + 1, self.frame_durations.len() as int);
            }
            end = end + self.frame_durations[i];
            i += 1;
        }
        end.saturating_sub(position)
    }

    /// A copy of this animation's timing.
    pub fn duplicate(&self) -> (copy: AnimatedImage)
        ensures
            copy@ == self@,
    {
        let mut frame_durations: Vec<u64> = Vec::new();
        let mut i: usize = 0;
        while i < self.frame_durations.len()
            invariant
                i <= self.frame_durations.len(),
                frame_durations@ == self.frame_durations@.take(i as int),
            decreases self.frame_durations.len() - i,
        {
            frame_durations.push(self.frame_durations[i]);
            proof {
                assert(self.frame_durations@.take(i + 1) == self.frame_durations@.take(i as int).push(self.frame_durations@[i as int]));
            }
            i += 1;
        }
        assert(self.frame_durations@.take(self.frame_durations.len() as int) == self.frame_durations@);
        AnimatedImage { id: self.id, frame_durations, repeat: self.repeat }
    }
}

/// What an animated image is, as a value: its id, frame durations and repeat mode.
pub struct AnimatedImageView {
    pub id: u64,
    pub frame_durations: Seq<u64>,
    pub repeat: AnimationRepeat,
}

impl View for AnimatedImage {
    type V = AnimatedImageView;

    open spec fn view(&self) -> AnimatedImageView {
        AnimatedImageView { id: self.id, frame_durations: self.frame_durations@, repeat: self.repeat }
    }
}

/// What a playback clock is, as a value.
pub struct PlaybackView {
    pub asset: AnimatedImageView,
    pub asset_id: u64,
    pub frame_index: usize,
    pub elapsed: u64,
    pub last_advanced_at: u64,
    pub active: bool,
    pub seen: bool,
    pub completed: bool,
}

/// Playback clock of one mounted animated image. Times are nanoseconds on a monotonic clock.
pub struct AnimationPlayback {
    pub asset: AnimatedImage,
    pub asset_id: u64,
    pub frame_index: usize,
    pub elapsed: u64,
    pub last_advanced_at: u64,
    pub active: bool,
    pub seen: bool,
    pub completed: bool,
}

impl View for AnimationPlayback {
    type V = PlaybackView;

    open spec fn view(&self) -> PlaybackView {
        PlaybackView {
            asset: self.asset@,
            asset_id: self.asset_id,
            frame_index: self.frame_index,
            elapsed: self.elapsed,
            last_advanced_at: self.last_advanced_at,
            active: self.active,
            seen: self.seen,
            completed: self.completed,
        }
    }
}

impl AnimationPlayback {
    /// Playback state every method keeps.
    pub open spec fn wf(&self) -> bool {
        &&& self.asset.wf()
        &&& self.frame_index < self.asset.frame_durations.len()
        &&& self.asset_id == self.asset.id
    }

    /// A paused playback at the first frame.
    pub fn new(asset: AnimatedImage, now: u64) -> (playback: AnimationPlayback)
        requires
            asset.wf(),
        ensures
            playback.wf(),
            playback@ == fresh_playback(asset@, now),
            playback.asset == asset,
            playback.frame_index == 0,
            playback.elapsed == 0,
            playback.last_advanced_at == now,
            !playback.active,
            !playback.seen,
            !playback.completed,
    {
        AnimationPlayback {
            asset_id: asset.id,
            asset,
            frame_index: 0,
            elapsed: 0,
            last_advanced_at: now,
            active: false,
            seen: false,
            completed: false,
        }
    }

    /// Marks the image as seen this frame and starts its clock when it can run.
    pub fn activate(&mut self, now: u64, enabled: bool)
        ensures
            final(self).seen,
            final(self).asset == old(self).asset,
            final(self).asset_id == old(self).asset_id,
            final(self).frame_index == old(self).frame_index,
            final(self).elapsed == old(self).elapsed,
            final(self).completed == old(self).completed,
            if enabled && !old(self).completed && old(self).asset.frame_durations.len() > 1 && !old(self).active {
                final(self).active && final(self).last_advanced_at == now
            } else {
                final(self).active == old(self).active && final(self).last_advanced_at == old(self).last_advanced_at
            },
    {
        self.seen = true;
        if enabled && !self.completed && self.asset.frame_count() > 1 && !self.active {
            self.active = true;
            self.last_advanced_at = now;
        }
    }

    /// Advances a running clock to `now`; returns whether the shown frame changed.
    pub fn advance(&mut self, now: u64) -> (changed: bool)
        requires
            old(self).wf(),
        ensures
            final(self).wf(),
            advanced(*old(self), *final(self), now, changed),
    {
        if !self.active || self.completed {
            return false;
        }
        self.elapsed = self.elapsed.saturating_add(now.saturating_sub(self.last_advanced_at));
        self.last_advanced_at = now;
        let previous = self.frame_index;
        let (frame_index, completed) = self.asset.frame_index_at(self.elapsed);
        self.frame_index = frame_index;
        self.completed = completed;
        if self.completed {
            self.active = false;
        }
        self.frame_index != previous
    }

    /// Stops an image that was not seen in the latest paint.
    pub fn finish_visibility(&mut self)
        ensures
            final(self).active == (old(self).active && old(self).seen),
            final(self).asset == old(self).asset,
            final(self).asset_id == old(self).asset_id,
            final(self).frame_index == old(self).frame_index,
            final(self).elapsed == old(self).elapsed,
            final(self).last_advanced_at == old(self).last_advanced_at,
            final(self).seen == old(self).seen,
            final(self).completed == old(self).completed,
    {
        if !self.seen {
            self.active = false;
        }
    }

    /// Exact instant at which the shown frame ends, while the clock runs.
    pub fn deadline(&self) -> (deadline: Option<u64>)
        requires
            self.wf(),
        ensures
            deadline == playback_deadline(self@),
    {
        if self.active && !self.completed && self.asset.frame_count() > 1 {
            self.last_advanced_at.checked_add(self.asset.remaining_in_frame(self.elapsed, self.frame_index))
        } else {
            None
        }
    }
}

/// `after` is `before` advanced to `now`, `changed` telling whether the shown frame changed: a
/// stopped or completed clock is left as it is; a running one adds the time since it was last
/// advanced (saturating), shows the frame of that point of its loop, and completes (showing its
/// last frame) once its repeats are played out.
pub open spec fn advanced(before: AnimationPlayback, after: AnimationPlayback, now: u64, changed: bool) -> bool {
    &&& after.asset == before.asset
    &&& after.asset_id == before.asset_id
    &&& after.seen == before.seen
    &&& (!before.active || before.completed ==> after == before && !changed)
    &&& (before.active && !before.completed ==> {
        let elapsed = if before.elapsed + (if now >= before.last_advanced_at { now - before.last_advanced_at } else { 0 }) > u64::MAX {
            u64::MAX as int
        } else {
            before.elapsed + (if now >= before.last_advanced_at { now - before.last_advanced_at } else { 0 })
        };
        let (frame, completed) = before.asset.spec_frame_index_at(elapsed as nat);
        &&& after.elapsed == elapsed
        &&& after.last_advanced_at == now
        &&& after.completed == completed
        &&& (completed ==> after.frame_index == before.asset.frame_durations.len() - 1)
        &&& (!completed ==> frame_at_position(before.asset.frame_durations@,
                elapsed as nat % loop_duration(before.asset.frame_durations@), after.frame_index as int))
        &&& after.active == !completed
        &&& changed == (after.frame_index != before.frame_index)
    })
}

/// A playback value every method keeps: its asset is usable and its frame index in range.
pub open spec fn playback_wf(p: PlaybackView) -> bool {
    &&& p.asset.frame_durations.len() > 0
    &&& forall|i: int| 0 <= i < p.asset.frame_durations.len() ==> #[trigger] p.asset.frame_durations[i] > 0
    &&& loop_duration(p.asset.frame_durations) <= u64::MAX
    &&& p.frame_index < p.asset.frame_durations.len()
    &&& p.asset_id == p.asset.id
}

/// Every playback of the map is well formed.
pub open spec fn playbacks_wf(m: Map<ElementId, PlaybackView>) -> bool {
    forall|id: ElementId| #[trigger] m.contains_key(id) ==> playback_wf(m[id])
}

/// The instant the shown frame of a running multi-frame playback ends (none when that instant
/// does not fit in 64 bits, or the clock is stopped).
pub open spec fn playback_deadline(p: PlaybackView) -> Option<u64> {
    if p.active && !p.completed && p.asset.frame_durations.len() > 1 {
        let end = prefix_duration(p.asset.frame_durations, p.frame_index + 1);
        let position = p.elapsed as nat % loop_duration(p.asset.frame_durations);
        let remaining = if end > position { end - position } else { 0 };
        if p.last_advanced_at + remaining <= u64::MAX {
            Some((p.last_advanced_at + remaining) as u64)
        } else {
            None
        }
    } else {
        None
    }
}

pub(crate) proof fn lemma_register_animations_wf(m: Map<ElementId, PlaybackView>, s: Seq<Element>, now: u64)
    requires
        playbacks_wf(m),
        images_wf(s),
    ensures
        playbacks_wf(register_animations(m, s, now)),
    decreases s.len(),
{
    if s.len() > 0 {
        assert(images_wf(s.drop_last())) by {
            assert forall|i: int| 0 <= i < s.drop_last().len() && (#[trigger] animated_image(s.drop_last()[i])) is Some
                implies animated_image(s.drop_last()[i]).unwrap().wf() by {
                assert(s.drop_last()[i] == s[i]);
            }
        }
        lemma_register_animations_wf(m, s.drop_last(), now);
        assert(s.last() == s[s.len() - 1]);
    }
}

/// Pointer and timer state of one overlay scrollbar.
#[derive(Clone, Copy, Debug)]
pub struct ScrollbarState {
    pub hovered: bool,
    pub dragging: bool,
    pub visible_until: Option<u64>,
}

impl ScrollbarState {
    /// Whether the scrollbar is drawn at `now`: while hovered or dragged, or until its reveal ends.
    pub fn visible(self, now: u64) -> (visible: bool)
        ensures
            visible == (self.hovered || self.dragging || (self.visible_until matches Some(deadline) && deadline > now)),
    {
        self.hovered || self.dragging || match self.visible_until {
            Some(deadline) => deadline > now,
            None => false,
        }
    }
}


/// The animated image an element shows, if any.
pub open spec fn animated_image(e: Element) -> Option<AnimatedImage> {
    match e.kind {
        ElementKind::Image { animated } => animated,
        _ => None,
    }
}

/// Every animated image of the sequence is usable.
pub open spec fn images_wf(s: Seq<Element>) -> bool {
    forall|i: int| 0 <= i < s.len() && (#[trigger] animated_image(s[i])) is Some ==> animated_image(s[i]).unwrap().wf()
}

/// The playbacks after registering the animated images of `s`: an image keeps its playback while
/// it shows the same asset, and gets a fresh one (started at `now`) otherwise.
pub open spec fn register_animations(m: Map<ElementId, PlaybackView>, s: Seq<Element>, now: u64) -> Map<ElementId, PlaybackView>
    decreases s.len(),
{
    if s.len() == 0 {
        m
    } else {
        let prev = register_animations(m, s.drop_last(), now);
        let e = s.last();
        match animated_image(e) {
            Some(asset) => if prev.contains_key(e.runtime_id) && prev[e.runtime_id].asset_id == asset.id {
                prev
            } else {
                prev.insert(e.runtime_id, fresh_playback(asset@, now))
            },
            None => prev,
        }
    }
}

/// A new paused playback of `asset` at its first frame.
pub open spec fn fresh_playback(asset: AnimatedImageView, now: u64) -> PlaybackView {
    PlaybackView {
        asset,
        asset_id: asset.id,
        frame_index: 0,
        elapsed: 0,
        last_advanced_at: now,
        active: false,
        seen: false,
        completed: false,
    }
}

/// The playbacks of a map, as values.
pub open spec fn playback_views(m: Map<ElementId, AnimationPlayback>) -> Map<ElementId, PlaybackView> {
    m.map_values(|p: AnimationPlayback| p@)
}

/// Ids of the elements of `s` that show an animated image.
pub open spec fn animated_ids(s: Seq<Element>) -> Set<ElementId> {
    Set::new(|id: ElementId| exists|i: int| 0 <= i < s.len() && (#[trigger] animated_image(s[i])) is Some && s[i].runtime_id == id)
}

proof fn lemma_register_animations_concat(m: Map<ElementId, PlaybackView>, a: Seq<Element>, b: Seq<Element>, now: u64)
    ensures
        register_animations(m, a + b, now) == register_animations(register_animations(m, a, now), b, now),
    decreases b.len(),
{
    if b.len() == 0 {
        assert(a + b == a);
    } else {
        lemma_register_animations_concat(m, a, b.drop_last(), now);
        assert((a + b).drop_last() == a + b.drop_last());
        assert((a + b).last() == b.last());
    }
}

proof fn lemma_animated_ids_concat(a: Seq<Element>, b: Seq<Element>)
    ensures
        animated_ids(a + b) == animated_ids(a).union(animated_ids(b)),
{
    assert forall|id: ElementId| animated_ids(a + b).contains(id) implies animated_ids(a).union(animated_ids(b)).contains(id) by {
        let i = choose|i: int| 0 <= i < (a + b).len() && (#[trigger] animated_image((a + b)[i])) is Some && (a + b)[i].runtime_id == id;
        if i < a.len() {
            assert((a + b)[i] == a[i]);
        } else {
            assert((a + b)[i] == b[i - a.len()]);
        }
    }
    assert forall|id: ElementId| animated_ids(a).union(animated_ids(b)).contains(id) implies animated_ids(a + b).contains(id) by {
        if animated_ids(a).contains(id) {
            let i = choose|i: int| 0 <= i < a.len() && (#[trigger] animated_image(a[i])) is Some && a[i].runtime_id == id;
            assert((a + b)[i] == a[i]);
        } else {
            let i = choose|i: int| 0 <= i < b.len() && (#[trigger] animated_image(b[i])) is Some && b[i].runtime_id == id;
            assert((a + b)[a.len() + i] == b[i]);
        }
    }
    assert(animated_ids(a + b) =~= animated_ids(a).union(animated_ids(b)));
}

/// Keeps one playback per shown animated image, restarting it when the image's asset changed.
pub fn sync_animations(
    element: &Element,
    animations: &mut HashMap<ElementId, AnimationPlayback>,
    ids: &mut HashSet<ElementId>,
    now: u64,
)
    requires
        images_wf(preorder(*element, keep_shown())),
    ensures
        playback_views(final(animations)@) == register_animations(playback_views(old(animations)@), preorder(*element, keep_shown()), now),
        final(ids)@ == old(ids)@.union(animated_ids(preorder(*element, keep_shown()))),
    decreases element,
{
    let ghost keep = keep_shown();
    if element.display_none || element.visibility_hidden {
        assert(animated_ids(Seq::<Element>::empty()) =~= Set::<ElementId>::empty());
        assert(ids@ =~= old(ids)@.union(Set::<ElementId>::empty()));
        return;
    }
    proof {
        lemma_forest_zero(*element, keep);
        assert(seq![*element] + forest(*element, 0, keep) == seq![*element]);
        assert(seq![*element].drop_last() == Seq::<Element>::empty());
        assert(seq![*element].last() == *element);
        assert(register_animations(playback_views(old(animations)@), Seq::<Element>::empty(), now) == playback_views(old(animations)@));
        assert(preorder(*element, keep) == seq![*element] + forest(*element, element.children.len() as int, keep));
        assert(preorder(*element, keep)[0] == *element);
    }
    if let ElementKind::Image { animated: Some(asset) } = &element.kind {
        ids.insert(element.runtime_id);
        let replace = match animations.get(&element.runtime_id) {
            None => true,
            Some(playback) => playback.asset_id != asset.id,
        };
        if replace {
            let ghost before = animations@;
            let playback = AnimationPlayback::new(asset.duplicate(), now);
            animations.insert(element.runtime_id, playback);
            proof {
                assert(playback_views(animations@) =~= playback_views(before).insert(element.runtime_id, playback@));
            }
        }
    }
    proof {
        if animated_image(*element) is Some {
            assert(animated_ids(seq![*element]) =~= set![element.runtime_id]);
        } else {
            assert(animated_ids(seq![*element]) =~= Set::<ElementId>::empty());
        }
        assert(ids@ =~= old(ids)@.union(animated_ids(seq![*element])));
    }
    let mut i: usize = 0;
    while i < element.children.len()
        invariant
            i <= element.children.len(),
            keep == keep_shown(),
            images_wf(preorder(*element, keep)),
            preorder(*element, keep) == seq![*element] + forest(*element, element.children.len() as int, keep),
            playback_views(animations@) == register_animations(playback_views(old(animations)@), seq![*element] + forest(*element, i as int, keep), now),
            ids@ == old(ids)@.union(animated_ids(seq![*element] + forest(*element, i as int, keep))),
        decreases element.children.len() - i,
    {
        let ghost prev = seq![*element] + forest(*element, i as int, keep);
        let ghost sub = preorder(element.children[i as int], keep);
        proof {
            crate::traverse::lemma_preorder_split(*element, i as int + 1, keep);
            assert(forest(*element, i + 1, keep) == forest(*element, i as int, keep) + sub);
            let whole = preorder(*element, keep);
            assert forall|k: int| 0 <= k < sub.len() && (#[trigger] animated_image(sub[k])) is Some
                implies animated_image(sub[k]).unwrap().wf() by {
                assert(whole[prev.len() + k] == sub[k]);
            }
        }
        sync_animations(&element.children[i], animations, ids, now);
        proof {
            assert(prev + sub == seq![*element] + forest(*element, i + 1, keep));
            lemma_register_animations_concat(playback_views(old(animations)@), prev, sub, now);
            lemma_animated_ids_concat(prev, sub);
            assert(ids@ =~= old(ids)@.union(animated_ids(prev + sub)));
        }
        i += 1;
    }
}

} // verus!
