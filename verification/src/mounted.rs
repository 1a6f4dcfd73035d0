use vstd::prelude::*;
use std::collections::{HashMap, HashSet};
use crate::element::{Element, ElementId, Tooltip, preorder, keep_displayed, keep_shown, match_ids, id_set};
use crate::tree::{
    collect_displayed_ids, collect_visible_ids, collect_style_transition_ids, collect_text_input_ids,
    find_auto_focus, has_transition, is_text_input, wants_auto_focus,
};
use crate::traverse::first_match_id;
use crate::focus_order::{
    FocusCandidate, FocusContext, candidate_list, clickable_pred, collect_focus_candidates, entry_ids, focus_entries,
    focus_key_order, sort_focus_candidates, takes_focus_pred,
};
use crate::layers::{spec_topmost_focus_trap, topmost_focus_trap};
use crate::focus::{
    GroupNeighbors, Grouping, first_position_at, lemma_neighbor_fold_records_neighbors, navigable_ids, collect_radio_neighbors, collect_tab_neighbors, group_containing, keep_group_scope,
    neighbor_fold, radio_group_for_focused, spec_tab_stop_for_focused_tab, tab_list_for_focused, tab_stop_for_focused_tab,
};
use crate::element::postorder;
use crate::traverse::first_match;
use vstd::relations::sorted_by;
use crate::animation::{
    AnimationPlayback, ScrollbarState, animated_ids, images_wf, playback_views, register_animations, sync_animations,
    playbacks_wf, playback_deadline, lemma_register_animations_wf, advanced,
};
use crate::registry::{UiError, collect_tooltips, register_tooltips};
use crate::selection::{StaticTextSelection, StaticTextSelectionUnit};
use crate::selectable::{
    SelectableTextEntry, collect_selectable_texts, entries_view, indices_in_bounds, lemma_register_selectable_in_bounds,
    register_selectable, spec_sync_selection, sync_static_text_selection, selection_on_boundaries,
    lemma_synced_selection_on_boundaries, selected_static_text, spec_selected_static_text,
};
use crate::selection::StaticTextPosition;
use crate::tree::accessibility_tree_contains;
use vstd::utf8::encode_utf8;
use crate::element::{keep_accessible};
use crate::retain::{map_keys, retain_ids, retain_keys};
use crate::text_ids::{kept_text_ids, sync_accessibility_text_ids, text_ids_wf};
use crate::registry::ACCESSIBILITY_ROOT_ID;
use crate::dispatch::{climb, climb_to_key, DispatchIndex, dispatch_entries, entry_match_ids, is_form, parent_map};
use crate::listeners::MouseHoverState;

verus! {

broadcast use {vstd::std_specs::vec::group_vec_axioms, vstd::std_specs::hash::group_hash_axioms};

/// Which elements of the mounted tree are displayed (not `display: none`) and which are visible
/// (painted and interactive).
pub struct Membership {
    pub displayed_ids: HashSet<ElementId>,
    pub visible_ids: HashSet<ElementId>,
}

impl Membership {
    pub fn new() -> (m: Membership)
        ensures
            m.displayed_ids@ == Set::<ElementId>::empty(),
            m.visible_ids@ == Set::<ElementId>::empty(),
    {
        Membership { displayed_ids: HashSet::new(), visible_ids: HashSet::new() }
    }

    /// Recollects both id sets from `root`.
    pub fn sync(&mut self, root: &Element)
        ensures
            final(self).displayed_ids@ == id_set(preorder(*root, keep_displayed())),
            final(self).visible_ids@ == id_set(preorder(*root, keep_shown())),
    {
        self.displayed_ids.clear();
        collect_displayed_ids(root, &mut self.displayed_ids);
        assert(self.displayed_ids@ =~= id_set(preorder(*root, keep_displayed())));
        self.visible_ids.clear();
        collect_visible_ids(root, &mut self.visible_ids);
        assert(self.visible_ids@ =~= id_set(preorder(*root, keep_shown())));
    }
}

/// Style transitions and animated-image clocks, keyed by element.
pub struct MotionRegistry {
    pub style_transition_ids: HashSet<ElementId>,
    /// Elements with a running style transition.
    pub style_transitions: HashSet<ElementId>,
    pub animation_ids: HashSet<ElementId>,
    pub animations: HashMap<ElementId, AnimationPlayback>,
    /// Whether motion runs (reduced motion turns it off).
    pub animations_enabled: bool,
}

impl MotionRegistry {
    pub fn new() -> (m: MotionRegistry)
        ensures
            m.style_transition_ids@ == Set::<ElementId>::empty(),
            m.style_transitions@ == Set::<ElementId>::empty(),
            m.animation_ids@ == Set::<ElementId>::empty(),
            m.animations@ == Map::<ElementId, AnimationPlayback>::empty(),
            m.animations_enabled,
    {
        MotionRegistry {
            style_transition_ids: HashSet::new(),
            style_transitions: HashSet::new(),
            animation_ids: HashSet::new(),
            animations: HashMap::new(),
            animations_enabled: true,
        }
    }

    /// Turns motion on or off at `now`: turning it off brings every animated-image clock up to
    /// `now` and stops it (turning it back on leaves them stopped until they are next shown).
    pub fn set_animations_enabled(&mut self, enabled: bool, now: u64)
        requires
            playbacks_wf(playback_views(old(self).animations@)),
        ensures
            final(self).animations_enabled == enabled,
            enabled || old(self).animations_enabled == enabled ==> final(self).animations == old(self).animations,
            !enabled && old(self).animations_enabled ==> {
                &&& final(self).animations@.dom() == old(self).animations@.dom()
                &&& forall|id: ElementId| #[trigger] final(self).animations@.contains_key(id)
                    ==> exists|p: AnimationPlayback, c: bool| advanced(old(self).animations@[id], p, now, c)
                        && final(self).animations@[id] == (AnimationPlayback { active: false, ..p })
            },
            playbacks_wf(playback_views(final(self).animations@)),
            final(self).animation_ids == old(self).animation_ids,
            final(self).style_transitions == old(self).style_transitions,
            final(self).style_transition_ids == old(self).style_transition_ids,
    {
        if self.animations_enabled == enabled {
            return;
        }
        if !enabled {
            let keys = map_keys(&self.animations);
            let ghost original = self.animations@;
            let mut i: usize = 0;
            while i < keys.len()
                invariant
                    i <= keys.len(),
                    keys@.to_set() == original.dom(),
                    keys@.no_duplicates(),
                    self.animations@.dom() == original.dom(),
                    playbacks_wf(playback_views(self.animations@)),
                    forall|id: ElementId| #[trigger] self.animations@.contains_key(id) ==> if keys@.take(i as int).contains(id) {
                        exists|p: AnimationPlayback, c: bool| advanced(original[id], p, now, c)
                            && self.animations@[id] == (AnimationPlayback { active: false, ..p })
                    } else {
                        self.animations@[id] == original[id]
                    },
                    self.animation_ids == old(self).animation_ids,
                    self.style_transitions == old(self).style_transitions,
                    self.style_transition_ids == old(self).style_transition_ids,
                decreases keys.len() - i,
            {
                let id = keys[i];
                let ghost before = self.animations@;
                proof {
                    assert(keys@.contains(id));
                    assert(keys@.to_set().contains(id));
                    assert(playback_views(before).contains_key(id));
                    assert(!keys@.take(i as int).contains(id)) by {
                        if keys@.take(i as int).contains(id) {
                            let j = choose|j: int| 0 <= j < i && keys@.take(i as int)[j] == id;
                            assert(keys@[j] == keys@[i as int]);
                        }
                    }
                    assert forall|k: ElementId| #[trigger] keys@.take(i + 1).contains(k) <==> (keys@.take(i as int).contains(k) || k == id) by {
                        if keys@.take(i + 1).contains(k) {
                            let j = choose|j: int| 0 <= j < i + 1 && #[trigger] keys@.take(i + 1)[j] == k;
                            if j < i {
                                assert(keys@.take(i as int)[j] == k);
                            }
                        }
                        if k == id {
                            assert(keys@.take(i + 1)[i as int] == id);
                        }
                        if keys@.take(i as int).contains(k) {
                            let j = choose|j: int| 0 <= j < i && #[trigger] keys@.take(i as int)[j] == k;
                            assert(keys@.take(i + 1)[j] == k);
                        }
                    }
                }
                match self.animations.remove(&id) {
                    Some(mut playback) => {
                        let moved = playback.advance(now);
                        let ghost advanced_playback = playback;
                        playback.active = false;
                        self.animations.insert(id, playback);
                        proof {
                            assert(self.animations@ == before.insert(id, playback));
                            assert(advanced(original[id], advanced_playback, now, moved));
                            assert(playback == (AnimationPlayback { active: false, ..advanced_playback }));
                            assert(playback_views(self.animations@) =~= playback_views(before).insert(id, playback@));
                            assert forall|k: ElementId| #[trigger] self.animations@.contains_key(k) implies (if keys@.take(i + 1).contains(k) {
                                exists|p: AnimationPlayback, c: bool| advanced(original[k], p, now, c)
                                    && self.animations@[k] == (AnimationPlayback { active: false, ..p })
                            } else {
                                self.animations@[k] == original[k]
                            }) by {
                                if k == id {
                                    assert(advanced(original[k], advanced_playback, now, moved)
                                        && self.animations@[k] == (AnimationPlayback { active: false, ..advanced_playback }));
                                } else {
                                    assert(self.animations@[k] == before[k]);
                                    assert(before.contains_key(k));
                                }
                            }
                        }
                    },
                    None => {
                        proof {
                            assert(before.contains_key(id));
                            assert(false);
                        }
                    },
                }
                i += 1;
            }
            proof {
                assert(keys@.take(keys.len() as int) == keys@);
                assert forall|id: ElementId| #[trigger] original.contains_key(id) implies keys@.contains(id) by {
                    assert(keys@.to_set().contains(id));
                }
            }
        }
        self.animations_enabled = enabled;
    }

    /// Style transitions and animated images follow the shown elements that declare them: a
    /// transition or clock of an element that no longer declares one is dropped.
    pub fn sync(&mut self, root: &Element, now: u64)
        requires
            images_wf(preorder(*root, keep_shown())),
            playbacks_wf(playback_views(old(self).animations@)),
        ensures
            playbacks_wf(playback_views(final(self).animations@)),
            final(self).style_transition_ids@ == match_ids(preorder(*root, keep_shown()), has_transition()),
            final(self).style_transitions@ == old(self).style_transitions@.intersect(
                match_ids(preorder(*root, keep_shown()), has_transition())),
            final(self).animation_ids@ == animated_ids(preorder(*root, keep_shown())),
            playback_views(final(self).animations@) == register_animations(
                playback_views(old(self).animations@), preorder(*root, keep_shown()), now,
            ).restrict(animated_ids(preorder(*root, keep_shown()))),
    {
        self.style_transition_ids.clear();
        collect_style_transition_ids(root, &mut self.style_transition_ids);
        assert(self.style_transition_ids@ =~= match_ids(preorder(*root, keep_shown()), has_transition()));
        retain_ids(&mut self.style_transitions, &self.style_transition_ids);
        self.animation_ids.clear();
        sync_animations(root, &mut self.animations, &mut self.animation_ids, now);
        assert(self.animation_ids@ =~= animated_ids(preorder(*root, keep_shown())));
        let ghost before = self.animations@;
        proof {
            crate::animation::lemma_register_animations_wf(playback_views(old(self).animations@), preorder(*root, keep_shown()), now);
        }
        retain_keys(&mut self.animations, &self.animation_ids);
        assert(playback_views(self.animations@) =~= playback_views(before).restrict(self.animation_ids@));
    }

    /// How many animated images are mounted, and how many of them are running.
    pub fn animation_counts(&self) -> (counts: (usize, usize))
        ensures
            counts.0 == self.animations@.len(),
            counts.1 == self.animations@.dom().filter(|id: ElementId| self.animations@[id].active).len(),
    {
        let keys = map_keys(&self.animations);
        let ghost active = |id: ElementId| self.animations@[id].active;
        let mut running: usize = 0;
        let mut i: usize = 0;
        proof {
            vstd::seq_lib::seq_to_set_is_finite(keys@);
            assert(keys@.take(0).to_set() =~= Set::<ElementId>::empty());
            assert(Set::<ElementId>::empty().filter(active) =~= Set::<ElementId>::empty());
        }
        while i < keys.len()
            invariant
                i <= keys.len(),
                keys@.to_set() == self.animations@.dom(),
                keys@.no_duplicates(),
                active == (|id: ElementId| self.animations@[id].active),
                running == keys@.take(i as int).to_set().filter(active).len(),
                running <= i,
            decreases keys.len() - i,
        {
            let id = keys[i];
            let ghost prefix = keys@.take(i as int).to_set();
            proof {
                assert(keys@.take(i + 1) == keys@.take(i as int).push(id));
                keys@.take(i as int).lemma_push_to_set_commute(id);
                assert(!prefix.contains(id)) by {
                    if prefix.contains(id) {
                        let j = choose|j: int| 0 <= j < i && keys@.take(i as int)[j] == id;
                        assert(keys@[j] == keys@[i as int]);
                    }
                }
                vstd::seq_lib::seq_to_set_is_finite(keys@.take(i as int));
                if active(id) {
                    assert(prefix.insert(id).filter(active) =~= prefix.filter(active).insert(id));
                    assert(!prefix.filter(active).contains(id));
                } else {
                    assert(prefix.insert(id).filter(active) =~= prefix.filter(active));
                }
                assert(keys@.to_set().contains(id));
            }
            match self.animations.get(&id) {
                Some(playback) => if playback.active {
                    running += 1;
                },
                None => {},
            }
            i += 1;
        }
        proof {
            assert(keys@.take(keys.len() as int) == keys@);
            assert(keys@.len() == self.animations@.dom().len()) by {
                keys@.unique_seq_to_set();
            }
        }
        (self.animations.len(), running)
    }

    /// Advances every animated-image clock to `now`; whether any shown frame changed.
    pub fn advance_animations(&mut self, now: u64) -> (changed: bool)
        requires
            playbacks_wf(playback_views(old(self).animations@)),
        ensures
            final(self).animations@.dom() == old(self).animations@.dom(),
            forall|id: ElementId| #[trigger] final(self).animations@.contains_key(id)
                ==> exists|c: bool| advanced(old(self).animations@[id], final(self).animations@[id], now, c),
            changed == exists|id: ElementId| #[trigger] old(self).animations@.contains_key(id)
                && final(self).animations@[id].frame_index != old(self).animations@[id].frame_index,
            playbacks_wf(playback_views(final(self).animations@)),
            final(self).animation_ids == old(self).animation_ids,
            final(self).style_transitions == old(self).style_transitions,
            final(self).style_transition_ids == old(self).style_transition_ids,
    {
        let keys = map_keys(&self.animations);
        let ghost original = self.animations@;
        let mut changed = false;
        let mut i: usize = 0;
        while i < keys.len()
            invariant
                i <= keys.len(),
                keys@.to_set() == original.dom(),
                keys@.no_duplicates(),
                self.animations@.dom() == original.dom(),
                playbacks_wf(playback_views(self.animations@)),
                forall|id: ElementId| #[trigger] self.animations@.contains_key(id) ==> if keys@.take(i as int).contains(id) {
                    exists|c: bool| advanced(original[id], self.animations@[id], now, c)
                } else {
                    self.animations@[id] == original[id]
                },
                changed == exists|id: ElementId| #[trigger] original.contains_key(id) && keys@.take(i as int).contains(id)
                    && self.animations@[id].frame_index != original[id].frame_index,
                self.animation_ids == old(self).animation_ids,
                self.style_transitions == old(self).style_transitions,
                self.style_transition_ids == old(self).style_transition_ids,
            decreases keys.len() - i,
        {
            let id = keys[i];
            let ghost before = self.animations@;
            proof {
                assert(keys@.contains(id));
                assert(keys@.to_set().contains(id));
                assert(playback_views(before).contains_key(id));
                assert(!keys@.take(i as int).contains(id)) by {
                    if keys@.take(i as int).contains(id) {
                        let j = choose|j: int| 0 <= j < i && keys@.take(i as int)[j] == id;
                        assert(keys@[j] == keys@[i as int]);
                    }
                }
                assert forall|k: ElementId| #[trigger] keys@.take(i + 1).contains(k) <==> (keys@.take(i as int).contains(k) || k == id) by {
                    if keys@.take(i + 1).contains(k) {
                        let j = choose|j: int| 0 <= j < i + 1 && #[trigger] keys@.take(i + 1)[j] == k;
                        if j < i {
                            assert(keys@.take(i as int)[j] == k);
                        }
                    }
                    if k == id {
                        assert(keys@.take(i + 1)[i as int] == id);
                    }
                    if keys@.take(i as int).contains(k) {
                        let j = choose|j: int| 0 <= j < i && #[trigger] keys@.take(i as int)[j] == k;
                        assert(keys@.take(i + 1)[j] == k);
                    }
                }
            }
            match self.animations.remove(&id) {
                Some(mut playback) => {
                    let ghost previous = playback;
                    let moved = playback.advance(now);
                    changed = changed || moved;
                    self.animations.insert(id, playback);
                    proof {
                        assert(self.animations@ == before.insert(id, playback));
                        assert(previous == original[id]);
                        assert(advanced(original[id], self.animations@[id], now, moved));
                        assert(moved == (self.animations@[id].frame_index != original[id].frame_index));
                        assert(playback_views(self.animations@) =~= playback_views(before).insert(id, playback@));
                        assert forall|k: ElementId| #[trigger] self.animations@.contains_key(k) implies (if keys@.take(i + 1).contains(k) {
                            exists|c: bool| advanced(original[k], self.animations@[k], now, c)
                        } else {
                            self.animations@[k] == original[k]
                        }) by {
                            if k == id {
                                assert(advanced(original[k], self.animations@[k], now, moved));
                            } else {
                                assert(self.animations@[k] == before[k]);
                                assert(before.contains_key(k));
                            }
                        }
                        assert(changed == exists|k: ElementId| #[trigger] original.contains_key(k) && keys@.take(i + 1).contains(k)
                            && self.animations@[k].frame_index != original[k].frame_index) by {
                            if changed && !moved {
                                let k = choose|k: ElementId| #[trigger] original.contains_key(k) && keys@.take(i as int).contains(k)
                                    && before[k].frame_index != original[k].frame_index;
                                assert(k != id);
                                assert(self.animations@[k] == before[k]);
                                assert(keys@.take(i + 1).contains(k));
                            }
                            if moved {
                                assert(keys@.take(i + 1).contains(id));
                                assert(original.contains_key(id));
                            }
                            if !changed {
                                assert forall|k: ElementId| #[trigger] original.contains_key(k) && keys@.take(i + 1).contains(k)
                                    implies self.animations@[k].frame_index == original[k].frame_index by {
                                    if k != id {
                                        assert(keys@.take(i as int).contains(k));
                                        assert(self.animations@[k] == before[k]);
                                    }
                                }
                            }
                        }
                    }
                },
                None => {
                    proof {
                        assert(before.contains_key(id));
                        assert(false);
                    }
                },
            }
            i += 1;
        }
        proof {
            assert(keys@.take(keys.len() as int) == keys@);
            assert forall|id: ElementId| #[trigger] original.contains_key(id) implies keys@.contains(id) by {
                assert(keys@.to_set().contains(id));
            }
        }
        changed
    }

    /// The earliest instant at which a running animated image shows its next frame.
    pub fn next_animation_deadline(&self) -> (deadline: Option<u64>)
        requires
            playbacks_wf(playback_views(self.animations@)),
        ensures
            match deadline {
                None => forall|id: ElementId| #[trigger] self.animations@.contains_key(id)
                    ==> playback_deadline(self.animations@[id]@) is None,
                Some(d) => {
                    &&& exists|id: ElementId| #[trigger] self.animations@.contains_key(id)
                        && playback_deadline(self.animations@[id]@) == Some(d)
                    &&& forall|id: ElementId| #[trigger] self.animations@.contains_key(id)
                        && playback_deadline(self.animations@[id]@) is Some
                        ==> d <= playback_deadline(self.animations@[id]@).unwrap()
                },
            },
    {
        let keys = map_keys(&self.animations);
        let mut earliest: Option<u64> = None;
        let mut i: usize = 0;
        while i < keys.len()
            invariant
                i <= keys.len(),
                keys@.to_set() == self.animations@.dom(),
                playbacks_wf(playback_views(self.animations@)),
                match earliest {
                    None => forall|j: int| 0 <= j < i ==> playback_deadline(self.animations@[#[trigger] keys@[j]]@) is None,
                    Some(d) => {
                        &&& exists|j: int| 0 <= j < i && playback_deadline(self.animations@[#[trigger] keys@[j]]@) == Some(d)
                        &&& forall|j: int| 0 <= j < i && playback_deadline(self.animations@[#[trigger] keys@[j]]@) is Some
                            ==> d <= playback_deadline(self.animations@[keys@[j]]@).unwrap()
                    },
                },
            decreases keys.len() - i,
        {
            let id = keys[i];
            proof {
                assert(keys@.contains(id));
                assert(keys@.to_set().contains(id));
                assert(playback_views(self.animations@).contains_key(id));
            }
            match self.animations.get(&id) {
                Some(playback) => {
                    let candidate = playback.deadline();
                    match candidate {
                        Some(c) => {
                            earliest = match earliest {
                                Some(d) => if c < d { Some(c) } else { Some(d) },
                                None => Some(c),
                            };
                        },
                        None => {},
                    }
                },
                None => {},
            }
            i += 1;
        }
        proof {
            assert forall|id: ElementId| #[trigger] self.animations@.contains_key(id)
                implies exists|j: int| 0 <= j < keys@.len() && keys@[j] == id by {
                assert(keys@.to_set().contains(id));
            }
            match earliest {
                None => {
                    assert forall|id: ElementId| #[trigger] self.animations@.contains_key(id)
                        implies playback_deadline(self.animations@[id]@) is None by {
                        let j = choose|j: int| 0 <= j < keys@.len() && keys@[j] == id;
                        assert(playback_deadline(self.animations@[keys@[j]]@) is None);
                    }
                },
                Some(d) => {
                    let j = choose|j: int| 0 <= j < keys@.len() && playback_deadline(self.animations@[#[trigger] keys@[j]]@) == Some(d);
                    assert(keys@.to_set().contains(keys@[j]));
                    assert(self.animations@.contains_key(keys@[j]));
                    assert forall|id: ElementId| #[trigger] self.animations@.contains_key(id)
                        && playback_deadline(self.animations@[id]@) is Some
                        implies d <= playback_deadline(self.animations@[id]@).unwrap() by {
                        let k = choose|k: int| 0 <= k < keys@.len() && keys@[k] == id;
                        assert(playback_deadline(self.animations@[keys@[k]]@) is Some);
                    }
                },
            }
        }
        earliest
    }
}

/// A tooltip waiting for its delay to pass.
#[derive(Clone, Copy, Debug, PartialEq, Eq, Structural)]
pub struct PendingTooltip {
    pub target: ElementId,
    /// When (nanoseconds on the monotonic clock) it shows.
    pub show_at: u64,
}

/// Declared tooltips and the tooltip the pointer is engaged with.
pub struct TooltipState {
    pub tooltips: HashMap<ElementId, Tooltip>,
    /// Whether a tooltip overlay is laid out.
    pub overlay: bool,
    pub hovered: Option<ElementId>,
    pub pointer: Option<ElementId>,
    pub pending: Option<PendingTooltip>,
    pub visible: Option<ElementId>,
}

impl TooltipState {
    pub fn new() -> (t: TooltipState)
        ensures
            t.tooltips@ == Map::<ElementId, Tooltip>::empty(),
            !t.overlay,
            t.hovered is None && t.pointer is None && t.pending is None && t.visible is None,
    {
        TooltipState { tooltips: HashMap::new(), overlay: false, hovered: None, pointer: None, pending: None, visible: None }
    }

    /// Recollects the tooltips of the shown elements; the pointer's tooltip is forgotten when its
    /// target no longer declares one. Fails, leaving the registry as it was, when more than
    /// `limit` tooltips are declared.
    pub fn sync(&mut self, root: &Element, limit: usize) -> (result: Result<(), UiError>)
        ensures
            ({
                let (map, ok) = register_tooltips(Map::empty(), preorder(*root, keep_shown()), limit as nat);
                &&& (result is Ok <==> ok)
                &&& (result is Err ==> result == Err::<(), UiError>(UiError::TooManyTooltips) && *final(self) == *old(self))
                &&& (result is Ok ==> {
                    &&& final(self).tooltips@ == map
                    &&& !final(self).overlay
                    &&& if old(self).hovered matches Some(target) && !map.contains_key(target) {
                        final(self).hovered is None && final(self).pointer is None && final(self).pending is None
                            && final(self).visible is None
                    } else {
                        final(self).hovered == old(self).hovered && final(self).pointer == old(self).pointer
                            && final(self).pending == old(self).pending && final(self).visible == old(self).visible
                    }
                })
            }),
    {
        let mut tooltips: HashMap<ElementId, Tooltip> = HashMap::new();
        match collect_tooltips(root, &mut tooltips, limit) {
            Ok(()) => {},
            Err(e) => return Err(e),
        }
        self.tooltips = tooltips;
        self.overlay = false;
        let stale = match self.hovered {
            Some(target) => !self.tooltips.contains_key(&target),
            None => false,
        };
        if stale {
            self.hovered = None;
            self.pointer = None;
            self.pending = None;
            self.visible = None;
        }
        Ok(())
    }
}

/// Editing and immutable-text selection state.
pub struct TextState {
    /// Text inputs that hold editing state.
    pub text_inputs: HashSet<ElementId>,
    /// The text input a pointer selection is extending.
    pub selecting_input: Option<ElementId>,
    pub selectable_texts: Vec<SelectableTextEntry>,
    pub selectable_text_indices: HashMap<ElementId, usize>,
    pub static_text_selection: Option<StaticTextSelection>,
    /// The pointer gesture extending the immutable-text selection.
    pub static_text_gesture: Option<StaticTextGesture>,
    /// The latest click on immutable text (for double and triple clicks).
    pub last_static_text_click: Option<StaticTextClick>,
}

/// A press on immutable text that the pointer may drag to extend the selection (where the press
/// landed is kept by the platform layer, which measures how far the pointer has travelled).
#[derive(Clone, Copy, Debug, PartialEq, Eq, Structural)]
pub struct StaticTextGesture {
    /// The pointer travelled far enough (or the press selected a word or a line) that releasing
    /// it is no click.
    pub moved: bool,
    pub unit: StaticTextSelectionUnit,
    /// The range the press selected, which the drag keeps selected.
    pub base_start: StaticTextPosition,
    pub base_end: StaticTextPosition,
}

/// A click on immutable text: on which leaf, when, and how many clicks in a row it ends.
#[derive(Clone, Copy, Debug, PartialEq, Eq, Structural)]
pub struct StaticTextClick {
    pub id: ElementId,
    pub at: u64,
    pub count: u8,
}

/// The leaf of a recorded click.
pub open spec fn click_leaf(click: Option<StaticTextClick>) -> Option<ElementId> {
    match click {
        Some(c) => Some(c.id),
        None => None,
    }
}

/// `candidate` if it is in `ids`, else nothing.
pub open spec fn kept_if_in(candidate: Option<ElementId>, ids: Set<ElementId>) -> Option<ElementId> {
    match candidate {
        Some(id) => if ids.contains(id) { Some(id) } else { None },
        None => None,
    }
}

fn keep_if_in(candidate: Option<ElementId>, ids: &HashSet<ElementId>) -> (kept: Option<ElementId>)
    ensures
        kept == kept_if_in(candidate, ids@),
{
    match candidate {
        Some(id) => if ids.contains(&id) { Some(id) } else { None },
        None => None,
    }
}

impl TextState {
    pub fn new() -> (t: TextState)
        ensures
            t.text_inputs@ == Set::<ElementId>::empty(),
            t.selecting_input is None,
            t.selectable_texts@.len() == 0,
            t.selectable_text_indices@ == Map::<ElementId, usize>::empty(),
            t.static_text_selection is None,
            t.static_text_gesture is None,
            t.last_static_text_click is None,
    {
        TextState {
            text_inputs: HashSet::new(),
            selecting_input: None,
            selectable_texts: Vec::new(),
            selectable_text_indices: HashMap::new(),
            static_text_selection: None,
            static_text_gesture: None,
            last_static_text_click: None,
        }
    }

    /// Recollects the text inputs and selectable leaves of `root` and revalidates every selection
    /// against them.
    pub fn sync(&mut self, root: &Element)
        ensures
            final(self).text_inputs@ == match_ids(preorder(*root, keep_displayed()), is_text_input()),
            final(self).selecting_input == kept_if_in(old(self).selecting_input, final(self).text_inputs@),
            ({
                let (entries, indices) = register_selectable(Seq::empty(), Map::empty(), preorder(*root, keep_shown()));
                &&& entries_view(final(self).selectable_texts@) == entries
                &&& final(self).selectable_text_indices@ == indices
                &&& final(self).static_text_selection == spec_sync_selection(
                    old(self).static_text_selection, final(self).selectable_texts@, indices)
            }),
            final(self).static_text_gesture == (if final(self).static_text_selection is Some {
                old(self).static_text_gesture
            } else {
                None
            }),
            final(self).last_static_text_click == (match old(self).last_static_text_click {
                Some(c) => if final(self).selectable_text_indices@.contains_key(c.id) { Some(c) } else { None },
                None => None,
            }),
            indices_in_bounds(final(self).selectable_text_indices@, final(self).selectable_texts.len() as nat),
            selection_on_boundaries(final(self).static_text_selection, entries_view(final(self).selectable_texts@),
                final(self).selectable_text_indices@),
    {
        let mut input_ids: HashSet<ElementId> = HashSet::new();
        collect_text_input_ids(root, &mut input_ids);
        assert(input_ids@ =~= match_ids(preorder(*root, keep_displayed()), is_text_input()));
        self.text_inputs = input_ids;
        self.selecting_input = keep_if_in(self.selecting_input, &self.text_inputs);

        let mut entries: Vec<SelectableTextEntry> = Vec::new();
        let mut indices: HashMap<ElementId, usize> = HashMap::new();
        assert(entries_view(entries@) =~= Seq::<(ElementId, Seq<char>)>::empty());
        collect_selectable_texts(root, &mut entries, &mut indices);
        proof {
            let r = register_selectable(Seq::empty(), Map::empty(), preorder(*root, keep_shown()));
            assert(entries@.len() == entries.len());
            assert(entries_view(entries@) == r.0);
            assert(indices@ == r.1);
            assert(entries_view(entries@).len() == entries@.len());
            lemma_register_selectable_in_bounds(Seq::empty(), Map::empty(), preorder(*root, keep_shown()));
        }
        self.selectable_texts = entries;
        self.selectable_text_indices = indices;
        let ghost previous = self.static_text_selection;
        sync_static_text_selection(&mut self.static_text_selection, &self.selectable_texts, &self.selectable_text_indices);
        proof {
            lemma_synced_selection_on_boundaries(previous, self.selectable_texts@, self.selectable_text_indices@);
        }
        if self.static_text_gesture.is_some() && self.static_text_selection.is_none() {
            self.static_text_gesture = None;
        }
        self.last_static_text_click = match self.last_static_text_click {
            Some(c) => if self.selectable_text_indices.contains_key(&c.id) { Some(c) } else { None },
            None => None,
        };
    }
}

/// The context the root is visited with: outside any group, tab list or trap.
pub open spec fn root_focus_context() -> FocusContext {
    FocusContext {
        inside_radio_group: false,
        radio_tab_stop: None,
        inside_tab_list: false,
        tab_stop: None,
        inside_active_focus_trap: false,
    }
}

/// Every shown element of `root` with the context it is visited in, under its topmost focus trap.
pub open spec fn root_focus_entries(root: Element) -> Seq<(Element, FocusContext)> {
    focus_entries(root, root_focus_context(), spec_topmost_focus_trap(root))
}

/// `order` lists the ids of the tab-order candidates of `root`, sorted by tab order.
pub open spec fn is_focus_order(order: Seq<ElementId>, root: Element) -> bool {
    exists|sorted: Seq<FocusCandidate>| {
        &&& sorted_by(sorted, focus_key_order())
        &&& sorted.to_multiset() == candidate_list(root_focus_entries(root), 0).to_multiset()
        &&& order == sorted.map_values(|c: FocusCandidate| c.id)
    }
}

/// Keyboard focus and the tab order.
pub struct FocusState {
    pub focusable_ids: HashSet<ElementId>,
    pub clickable_ids: HashSet<ElementId>,
    pub focus_order: Vec<ElementId>,
    pub active_focus_trap: Option<ElementId>,
    pub focused: Option<ElementId>,
    /// Whether the initial (auto) focus has been decided.
    pub initialized: bool,
}

fn candidate_ids(sorted: &Vec<FocusCandidate>) -> (ids: Vec<ElementId>)
    ensures
        ids@ == sorted@.map_values(|c: FocusCandidate| c.id),
{
    let mut ids: Vec<ElementId> = Vec::new();
    let mut i: usize = 0;
    while i < sorted.len()
        invariant
            i <= sorted.len(),
            ids@ == sorted@.take(i as int).map_values(|c: FocusCandidate| c.id),
        decreases sorted.len() - i,
    {
        ids.push(sorted[i].id);
        proof {
            assert(sorted@.take(i + 1) == sorted@.take(i as int).push(sorted@[i as int]));
            assert(sorted@.take(i + 1).map_values(|c: FocusCandidate| c.id)
                =~= sorted@.take(i as int).map_values(|c: FocusCandidate| c.id).push(sorted@[i as int].id));
        }
        i += 1;
    }
    assert(sorted@.take(sorted.len() as int) == sorted@);
    ids
}

impl FocusState {
    pub fn new() -> (f: FocusState)
        ensures
            f.focusable_ids@ == Set::<ElementId>::empty(),
            f.clickable_ids@ == Set::<ElementId>::empty(),
            f.focus_order@.len() == 0,
            f.active_focus_trap is None,
            f.focused is None,
            !f.initialized,
    {
        FocusState {
            focusable_ids: HashSet::new(),
            clickable_ids: HashSet::new(),
            focus_order: Vec::new(),
            active_focus_trap: None,
            focused: None,
            initialized: false,
        }
    }

    /// Rebuilds the focusable and clickable sets and the tab order of `root`; inside an active
    /// focus trap, focus that is not on a focusable element moves to the first tab stop (or to
    /// the trap itself).
    pub fn rebuild_focus_index(&mut self, root: &Element)
        ensures
            final(self).active_focus_trap == spec_topmost_focus_trap(*root),
            final(self).focusable_ids@ == entry_ids(root_focus_entries(*root), takes_focus_pred()),
            final(self).clickable_ids@ == entry_ids(root_focus_entries(*root), clickable_pred()),
            is_focus_order(final(self).focus_order@, *root),
            final(self).initialized == old(self).initialized,
            final(self).focused == (match spec_topmost_focus_trap(*root) {
                Some(trap) => if old(self).focused matches Some(f) && final(self).focusable_ids@.contains(f) {
                    old(self).focused
                } else if final(self).focus_order@.len() > 0 {
                    Some(final(self).focus_order@[0])
                } else if final(self).focusable_ids@.contains(trap) {
                    Some(trap)
                } else {
                    None
                },
                None => old(self).focused,
            }),
    {
        let trap = topmost_focus_trap(root);
        self.active_focus_trap = trap;
        let mut focusable: HashSet<ElementId> = HashSet::new();
        let mut clickable: HashSet<ElementId> = HashSet::new();
        let mut candidates: Vec<FocusCandidate> = Vec::new();
        collect_focus_candidates(root, &mut focusable, &mut clickable, &mut candidates, trap, false, None, false, None, false);
        assert(focusable@ =~= entry_ids(root_focus_entries(*root), takes_focus_pred()));
        assert(clickable@ =~= entry_ids(root_focus_entries(*root), clickable_pred()));
        assert(candidates@ =~= candidate_list(root_focus_entries(*root), 0));
        let sorted = sort_focus_candidates(&candidates);
        let order = candidate_ids(&sorted);
        assert(is_focus_order(order@, *root));
        self.focusable_ids = focusable;
        self.clickable_ids = clickable;
        self.focus_order = order;
        if let Some(t) = trap {
            let keeps = match self.focused {
                Some(f) => self.focusable_ids.contains(&f),
                None => false,
            };
            if !keeps {
                self.focused = if self.focus_order.len() > 0 {
                    Some(self.focus_order[0])
                } else if self.focusable_ids.contains(&t) {
                    Some(t)
                } else {
                    None
                };
            }
        }
    }

    /// The first time, focus goes to the first shown element that asks for it, when it can take
    /// focus.
    pub fn initialize_focus_if_needed(&mut self, root: &Element)
        ensures
            final(self).focusable_ids == old(self).focusable_ids,
            final(self).clickable_ids == old(self).clickable_ids,
            final(self).focus_order == old(self).focus_order,
            final(self).active_focus_trap == old(self).active_focus_trap,
            final(self).initialized,
            final(self).focused == if old(self).focused is None && !old(self).initialized {
                kept_if_in(first_match_id(preorder(*root, keep_shown()), wants_auto_focus()), old(self).focusable_ids@)
            } else {
                old(self).focused
            },
    {
        if self.focused.is_none() && !self.initialized {
            self.focused = keep_if_in(find_auto_focus(root), &self.focusable_ids);
        }
        self.initialized = true;
    }
}

/// Idle pointer state of a scrollbar that is not on screen.
pub open spec fn idle_scrollbar() -> ScrollbarState {
    ScrollbarState { hovered: false, dragging: false, visible_until: None }
}

/// The scrollbars of `states` after those of elements off screen have gone idle.
pub open spec fn idled_scrollbars(states: Map<ElementId, ScrollbarState>, visible: Set<ElementId>) -> Map<ElementId, ScrollbarState> {
    Map::new(
        |id: ElementId| states.dom().contains(id),
        |id: ElementId| if visible.contains(id) { states[id] } else { idle_scrollbar() },
    )
}

fn idle_hidden_scrollbars(states: &mut HashMap<ElementId, ScrollbarState>, visible: &HashSet<ElementId>)
    ensures
        final(states)@ == idled_scrollbars(old(states)@, visible@),
{
    let keys = map_keys(states);
    let ghost original = states@;
    let mut i: usize = 0;
    while i < keys.len()
        invariant
            i <= keys.len(),
            keys@.to_set() == original.dom(),
            states@ == Map::new(
                |id: ElementId| original.dom().contains(id),
                |id: ElementId| if keys@.take(i as int).contains(id) && !visible@.contains(id) {
                    idle_scrollbar()
                } else {
                    original[id]
                },
            ),
        decreases keys.len() - i,
    {
        let id = keys[i];
        proof {
            assert(keys@.take(i + 1) == keys@.take(i as int).push(id));
            assert(keys@.contains(id));
            assert(original.dom().contains(id));
        }
        if !visible.contains(&id) {
            states.insert(id, ScrollbarState { hovered: false, dragging: false, visible_until: None });
        }
        proof {
            assert forall|k: ElementId| #[trigger] keys@.take(i + 1).contains(k) <==> (keys@.take(i as int).contains(k) || k == id) by {
                if keys@.take(i + 1).contains(k) {
                    let j = choose|j: int| 0 <= j < keys@.take(i + 1).len() && #[trigger] keys@.take(i + 1)[j] == k;
                    if j < i {
                        assert(keys@.take(i as int)[j] == k);
                    }
                }
                if k == id {
                    assert(keys@.take(i + 1)[i as int] == id);
                }
                if keys@.take(i as int).contains(k) {
                    let j = choose|j: int| 0 <= j < keys@.take(i as int).len() && #[trigger] keys@.take(i as int)[j] == k;
                    assert(keys@.take(i + 1)[j] == k);
                }
            }
            assert(states@ =~= Map::new(
                |k: ElementId| original.dom().contains(k),
                |k: ElementId| if keys@.take(i + 1).contains(k) && !visible@.contains(k) {
                    idle_scrollbar()
                } else {
                    original[k]
                },
            ));
        }
        i += 1;
    }
    proof {
        assert(keys@.take(keys.len() as int) == keys@);
        assert forall|id: ElementId| original.dom().contains(id) implies keys@.contains(id) by {
            assert(keys@.to_set().contains(id));
        }
        assert(states@ =~= idled_scrollbars(original, visible@));
    }
}

/// Pointer, drag and scroll state that refers to elements by id.
pub struct PointerState {
    /// The scroll container whose scrollbar thumb is being dragged.
    pub scrollbar_drag: Option<ElementId>,
    /// Scroll containers with a retained scroll position.
    pub scroll_offsets: HashSet<ElementId>,
    /// Scroll containers with a retained end-of-scroll state.
    pub scroll_end_states: HashSet<ElementId>,
    pub scrollbar_states: HashMap<ElementId, ScrollbarState>,
    pub hovered_scrollbar: Option<ElementId>,
    pub hovered: HashSet<ElementId>,
    pub pressed: Option<ElementId>,
    pub dragging: Option<ElementId>,
    pub drag_over: Option<ElementId>,
    /// A drag from outside the window (files, text from another application) is over it.
    pub external_drag_active: bool,
}

impl PointerState {
    pub fn new() -> (p: PointerState)
        ensures
            p.scrollbar_drag is None,
            p.scroll_offsets@ == Set::<ElementId>::empty(),
            p.scroll_end_states@ == Set::<ElementId>::empty(),
            p.scrollbar_states@ == Map::<ElementId, ScrollbarState>::empty(),
            p.hovered_scrollbar is None,
            p.hovered@ == Set::<ElementId>::empty(),
            p.pressed is None && p.dragging is None && p.drag_over is None,
            !p.external_drag_active,
    {
        PointerState {
            scrollbar_drag: None,
            scroll_offsets: HashSet::new(),
            scroll_end_states: HashSet::new(),
            scrollbar_states: HashMap::new(),
            hovered_scrollbar: None,
            hovered: HashSet::new(),
            pressed: None,
            dragging: None,
            drag_over: None,
            external_drag_active: false,
        }
    }

    /// Forgets what refers to elements that are gone: scroll state of undisplayed containers,
    /// and pointer state (hover, press, drag, drop target, scrollbar) of elements not visible.
    /// A scrollbar of a displayed but hidden container goes idle.
    pub fn prune(&mut self, displayed: &HashSet<ElementId>, visible: &HashSet<ElementId>)
        ensures
            final(self).scrollbar_drag == kept_if_in(old(self).scrollbar_drag, visible@),
            final(self).scroll_offsets@ == old(self).scroll_offsets@.intersect(displayed@),
            final(self).scroll_end_states@ == old(self).scroll_end_states@.intersect(displayed@),
            final(self).scrollbar_states@ == idled_scrollbars(old(self).scrollbar_states@.restrict(displayed@), visible@),
            final(self).hovered_scrollbar == kept_if_in(old(self).hovered_scrollbar, visible@),
            final(self).hovered@ == old(self).hovered@.intersect(visible@),
            final(self).pressed == kept_if_in(old(self).pressed, visible@),
            final(self).dragging == kept_if_in(old(self).dragging, visible@),
            final(self).drag_over == (if kept_if_in(old(self).dragging, visible@) is None && old(self).dragging is Some {
                None
            } else {
                kept_if_in(old(self).drag_over, visible@)
            }),
            final(self).external_drag_active == old(self).external_drag_active,
    {
        self.scrollbar_drag = keep_if_in(self.scrollbar_drag, visible);
        retain_ids(&mut self.scroll_offsets, displayed);
        retain_ids(&mut self.scroll_end_states, displayed);
        retain_keys(&mut self.scrollbar_states, displayed);
        idle_hidden_scrollbars(&mut self.scrollbar_states, visible);
        self.hovered_scrollbar = keep_if_in(self.hovered_scrollbar, visible);
        retain_ids(&mut self.hovered, visible);
        self.pressed = keep_if_in(self.pressed, visible);
        if let Some(id) = self.dragging {
            if !visible.contains(&id) {
                self.dragging = None;
                self.drag_over = None;
            }
        }
        self.drag_over = keep_if_in(self.drag_over, visible);
    }
}

/// The assertive announcement of a failed form submission, on an auxiliary semantic node.
#[derive(Debug)]
pub struct ValidationAnnouncement {
    pub form: ElementId,
    pub node: u64,
    pub message: String,
}

/// The form an announcement is about.
pub open spec fn announced_form(announcement: Option<ValidationAnnouncement>) -> Option<ElementId> {
    match announcement {
        Some(a) => Some(a.form),
        None => None,
    }
}

/// Everything the tree keeps between frames about its mounted elements.
pub struct MountedState {
    pub membership: Membership,
    pub motion: MotionRegistry,
    pub tooltips: TooltipState,
    pub text: TextState,
    pub focus: FocusState,
    pub pointer: PointerState,
    pub dispatch: DispatchIndex,
    pub mouse_hover: MouseHoverState,
    /// The live announcement of a failed form submission.
    pub validation_announcement: Option<ValidationAnnouncement>,
    /// Id of the text run node of each text input and selectable leaf.
    pub accessibility_text_ids: HashMap<ElementId, u64>,
    /// Where the search for the next fresh text run id starts.
    pub next_accessibility_text_id: u64,
    /// Whether the state must be synchronised with a new root before it is used.
    pub dirty: bool,
}

/// The elements that own a text run: text inputs with editing state and selectable leaves.
fn text_owners(text: &TextState) -> (owners: HashSet<ElementId>)
    ensures
        owners@ == text.text_inputs@.union(text.selectable_text_indices@.dom()),
{
    let mut owners: HashSet<ElementId> = HashSet::new();
    let inputs = crate::retain::set_members(&text.text_inputs);
    let mut i: usize = 0;
    while i < inputs.len()
        invariant
            i <= inputs.len(),
            owners@ == inputs@.take(i as int).to_set(),
        decreases inputs.len() - i,
    {
        owners.insert(inputs[i]);
        proof {
            assert(inputs@.take(i + 1) == inputs@.take(i as int).push(inputs@[i as int]));
            inputs@.take(i as int).lemma_push_to_set_commute(inputs@[i as int]);
        }
        i += 1;
    }
    assert(inputs@.take(inputs.len() as int) == inputs@);
    let leaves = map_keys(&text.selectable_text_indices);
    let mut j: usize = 0;
    while j < leaves.len()
        invariant
            j <= leaves.len(),
            owners@ == text.text_inputs@.union(leaves@.take(j as int).to_set()),
        decreases leaves.len() - j,
    {
        owners.insert(leaves[j]);
        proof {
            assert(leaves@.take(j + 1) == leaves@.take(j as int).push(leaves@[j as int]));
            leaves@.take(j as int).lemma_push_to_set_commute(leaves@[j as int]);
            assert(owners@ =~= text.text_inputs@.union(leaves@.take(j + 1).to_set()));
        }
        j += 1;
    }
    assert(leaves@.take(leaves.len() as int) == leaves@);
    owners
}

/// Where keyboard focus settles when a tree is re-rendered: the focus index is rebuilt (inside
/// the topmost focus trap a focus outside it moves to the trap's first stop, or the trap itself),
/// a focus on an element that no longer takes focus is dropped, and a tree whose initial focus
/// was never decided focuses its first auto-focus element.
pub open spec fn synced_focus(
    focused: Option<ElementId>,
    initialized: bool,
    root: Element,
    focusable: Set<ElementId>,
    order: Seq<ElementId>,
) -> Option<ElementId> {
    let rebuilt = match spec_topmost_focus_trap(root) {
        Some(trap) => if focused matches Some(f) && focusable.contains(f) {
            focused
        } else if order.len() > 0 {
            Some(order[0])
        } else if focusable.contains(trap) {
            Some(trap)
        } else {
            None
        },
        None => focused,
    };
    let kept = kept_if_in(rebuilt, focusable);
    if kept is None && !initialized {
        kept_if_in(first_match_id(preorder(root, keep_shown()), wants_auto_focus()), focusable)
    } else {
        kept
    }
}

/// `candidate`, when present, is in `ids`.
pub open spec fn refers_into(candidate: Option<ElementId>, ids: Set<ElementId>) -> bool {
    candidate matches Some(id) ==> ids.contains(id)
}

impl MountedState {
    /// The state of a tree that has mounted nothing yet: every id set, registry, index and
    /// selection empty, nothing focused, pressed, hovered or dragged, motion enabled, and the
    /// text run ids counting down from just below the accessibility root.
    pub open spec fn is_fresh(&self) -> bool {
        &&& self.membership.displayed_ids@.is_empty() && self.membership.visible_ids@.is_empty()
        &&& self.motion.style_transition_ids@.is_empty() && self.motion.style_transitions@.is_empty()
        &&& self.motion.animation_ids@.is_empty() && self.motion.animations@.is_empty()
        &&& self.motion.animations_enabled
        &&& self.tooltips.tooltips@.is_empty() && !self.tooltips.overlay
        &&& self.tooltips.hovered is None && self.tooltips.pointer is None
        &&& self.tooltips.pending is None && self.tooltips.visible is None
        &&& self.text.text_inputs@.is_empty() && self.text.selecting_input is None
        &&& self.text.selectable_texts@.len() == 0 && self.text.selectable_text_indices@.is_empty()
        &&& self.text.static_text_selection is None && self.text.static_text_gesture is None
        &&& self.text.last_static_text_click is None
        &&& self.focus.focusable_ids@.is_empty() && self.focus.clickable_ids@.is_empty()
        &&& self.focus.focus_order@.len() == 0 && self.focus.active_focus_trap is None
        &&& self.focus.focused is None && !self.focus.initialized
        &&& self.pointer.scrollbar_drag is None && self.pointer.hovered_scrollbar is None
        &&& self.pointer.scroll_offsets@.is_empty() && self.pointer.scroll_end_states@.is_empty()
        &&& self.pointer.scrollbar_states@.is_empty() && self.pointer.hovered@.is_empty()
        &&& self.pointer.pressed is None && self.pointer.dragging is None && self.pointer.drag_over is None
        &&& !self.pointer.external_drag_active
        &&& self.dispatch.parents@.is_empty() && self.dispatch.activation_targets@.is_empty()
        &&& self.dispatch.invalid_ids@.is_empty() && self.dispatch.form_ids@.is_empty()
        &&& self.dispatch.form_submitter_ids@.is_empty() && self.dispatch.context_menu_ids@.is_empty()
        &&& self.dispatch.scroll_wheel_ids@.is_empty() && self.dispatch.touch_ids@.is_empty()
        &&& self.dispatch.mouse_pressure_ids@.is_empty() && self.dispatch.pinch_ids@.is_empty()
        &&& self.dispatch.rotation_ids@.is_empty() && self.dispatch.smart_magnify_ids@.is_empty()
        &&& self.dispatch.listeners.mouse@.is_empty() && self.dispatch.listeners.mouse_elements@.len() == 0
        &&& self.dispatch.listeners.key@.is_empty() && self.dispatch.listeners.action@.is_empty()
        &&& self.dispatch.listeners.key_contexts@.is_empty()
        &&& self.mouse_hover.path@.len() == 0 && self.mouse_hover.pending@.len() == 0
        &&& self.validation_announcement is None
        &&& self.accessibility_text_ids@.is_empty()
        &&& self.next_accessibility_text_id == ACCESSIBILITY_ROOT_ID - 1
        &&& self.dirty
    }

    pub fn new() -> (m: MountedState)
        ensures
            m.is_fresh(),
            m.membership.displayed_ids@ == Set::<ElementId>::empty(),
            m.membership.visible_ids@ == Set::<ElementId>::empty(),
            m.motion.animations@ == Map::<ElementId, AnimationPlayback>::empty(),
            m.tooltips.tooltips@ == Map::<ElementId, Tooltip>::empty(),
            m.focus.focused is None && !m.focus.initialized,
            m.pointer.hovered@ == Set::<ElementId>::empty(),
            m.dirty,
            m.refs_consistent(),
            text_ids_wf(m.accessibility_text_ids@),
            playbacks_wf(playback_views(m.motion.animations@)),
    {
        MountedState {
            membership: Membership::new(),
            motion: MotionRegistry::new(),
            tooltips: TooltipState::new(),
            text: TextState::new(),
            focus: FocusState::new(),
            pointer: PointerState::new(),
            dispatch: DispatchIndex::new(),
            mouse_hover: MouseHoverState::new(),
            validation_announcement: None,
            accessibility_text_ids: HashMap::new(),
            next_accessibility_text_id: ACCESSIBILITY_ROOT_ID - 1,
            dirty: true,
        }
    }

    /// No state refers to an element that is gone: pointer state only to visible elements,
    /// scroll state only to displayed ones, focus only to a focusable one, every registry only to
    /// elements that still declare what it records.
    pub open spec fn refs_consistent(&self) -> bool {
        let visible = self.membership.visible_ids@;
        let displayed = self.membership.displayed_ids@;
        &&& self.pointer.hovered@.subset_of(visible)
        &&& refers_into(self.pointer.pressed, visible)
        &&& refers_into(self.pointer.dragging, visible)
        &&& refers_into(self.pointer.drag_over, visible)
        &&& refers_into(self.pointer.hovered_scrollbar, visible)
        &&& refers_into(self.pointer.scrollbar_drag, visible)
        &&& self.pointer.scroll_offsets@.subset_of(displayed)
        &&& self.pointer.scroll_end_states@.subset_of(displayed)
        &&& self.pointer.scrollbar_states@.dom().subset_of(displayed)
        &&& (forall|id: ElementId| #[trigger] self.pointer.scrollbar_states@.contains_key(id) && !visible.contains(id)
            ==> self.pointer.scrollbar_states@[id] == idle_scrollbar())
        &&& refers_into(self.focus.focused, self.focus.focusable_ids@)
        &&& self.motion.animations@.dom().subset_of(self.motion.animation_ids@)
        &&& self.motion.style_transitions@.subset_of(self.motion.style_transition_ids@)
        &&& refers_into(self.tooltips.hovered, self.tooltips.tooltips@.dom())
        &&& refers_into(self.text.selecting_input, self.text.text_inputs@)
        &&& refers_into(click_leaf(self.text.last_static_text_click), self.text.selectable_text_indices@.dom())
        &&& indices_in_bounds(self.text.selectable_text_indices@, self.text.selectable_texts.len() as nat)
        &&& (self.text.static_text_gesture is Some ==> self.text.static_text_selection is Some)
        &&& selection_on_boundaries(self.text.static_text_selection, entries_view(self.text.selectable_texts@),
            self.text.selectable_text_indices@)
        &&& refers_into(announced_form(self.validation_announcement), self.dispatch.form_ids@)
    }

    /// Synchronises every registry with a newly built root: recollects the displayed and visible
    /// elements, style transitions, animated images, tooltips, text inputs, selectable text and
    /// the tab order, then forgets every reference to an element that is gone and settles focus.
    /// Fails with `TooManyTooltips` (after the id sets and motion registries are updated, before
    /// anything else is) when `root` declares more than `max_tooltips` tooltips.
    pub fn sync_mounted_root(
        &mut self,
        root: &Element,
        element_ids: &HashSet<ElementId>,
        now: u64,
        max_tooltips: usize,
    ) -> (result: Result<(), UiError>)
        requires
            images_wf(preorder(*root, keep_shown())),
            playbacks_wf(playback_views(old(self).motion.animations@)),
            text_ids_wf(old(self).accessibility_text_ids@),
        ensures
            (result is Ok) == register_tooltips(Map::empty(), preorder(*root, keep_shown()), max_tooltips as nat).1,
            result is Err ==> result == Err::<(), UiError>(UiError::TooManyTooltips),
            final(self).pointer.scrollbar_drag == kept_if_in(old(self).pointer.scrollbar_drag, id_set(preorder(*root, keep_shown()))),
            result is Err ==> {
                &&& final(self).pointer == (PointerState { scrollbar_drag: final(self).pointer.scrollbar_drag, ..old(self).pointer })
                &&& final(self).tooltips == old(self).tooltips
                &&& final(self).text == old(self).text
                &&& final(self).focus == old(self).focus
                &&& final(self).dispatch == old(self).dispatch
                &&& final(self).mouse_hover == old(self).mouse_hover
                &&& final(self).validation_announcement == old(self).validation_announcement
                &&& final(self).accessibility_text_ids == old(self).accessibility_text_ids
                &&& final(self).dirty == old(self).dirty
            },
            final(self).membership.displayed_ids@ == id_set(preorder(*root, keep_displayed())),
            final(self).membership.visible_ids@ == id_set(preorder(*root, keep_shown())),
            final(self).motion.style_transition_ids@ == match_ids(preorder(*root, keep_shown()), has_transition()),
            final(self).motion.style_transitions@ == old(self).motion.style_transitions@.intersect(
                match_ids(preorder(*root, keep_shown()), has_transition())),
            final(self).motion.animation_ids@ == animated_ids(preorder(*root, keep_shown())),
            playback_views(final(self).motion.animations@) == register_animations(
                playback_views(old(self).motion.animations@), preorder(*root, keep_shown()), now,
            ).restrict(animated_ids(preorder(*root, keep_shown()))),
            result is Ok ==> {
                &&& final(self).tooltips.tooltips@ == register_tooltips(Map::empty(), preorder(*root, keep_shown()), max_tooltips as nat).0
                &&& final(self).text.text_inputs@ == match_ids(preorder(*root, keep_displayed()), is_text_input())
                &&& entries_view(final(self).text.selectable_texts@)
                    == register_selectable(Seq::empty(), Map::empty(), preorder(*root, keep_shown())).0
                &&& final(self).text.selectable_text_indices@
                    == register_selectable(Seq::empty(), Map::empty(), preorder(*root, keep_shown())).1
                &&& final(self).text.static_text_selection == spec_sync_selection(
                    old(self).text.static_text_selection, final(self).text.selectable_texts@,
                    final(self).text.selectable_text_indices@)
                &&& final(self).focus.active_focus_trap == spec_topmost_focus_trap(*root)
                &&& final(self).focus.focusable_ids@ == entry_ids(root_focus_entries(*root), takes_focus_pred())
                &&& final(self).focus.clickable_ids@ == entry_ids(root_focus_entries(*root), clickable_pred())
                &&& is_focus_order(final(self).focus.focus_order@, *root)
                &&& final(self).focus.initialized
                &&& final(self).pointer.hovered@ == old(self).pointer.hovered@.intersect(id_set(preorder(*root, keep_shown())))
                &&& final(self).pointer.pressed == kept_if_in(old(self).pointer.pressed, id_set(preorder(*root, keep_shown())))
                &&& final(self).pointer.dragging == kept_if_in(old(self).pointer.dragging, id_set(preorder(*root, keep_shown())))
                &&& final(self).pointer.drag_over == (if kept_if_in(old(self).pointer.dragging, id_set(preorder(*root, keep_shown()))) is None
                    && old(self).pointer.dragging is Some {
                    None
                } else {
                    kept_if_in(old(self).pointer.drag_over, id_set(preorder(*root, keep_shown())))
                })
                &&& final(self).pointer.hovered_scrollbar == kept_if_in(old(self).pointer.hovered_scrollbar, id_set(preorder(*root, keep_shown())))
                &&& final(self).pointer.scroll_offsets@ == old(self).pointer.scroll_offsets@.intersect(id_set(preorder(*root, keep_displayed())))
                &&& final(self).pointer.scroll_end_states@ == old(self).pointer.scroll_end_states@.intersect(id_set(preorder(*root, keep_displayed())))
                &&& final(self).pointer.external_drag_active == old(self).pointer.external_drag_active
                &&& final(self).mouse_hover == old(self).mouse_hover
                &&& final(self).focus.focused == synced_focus(old(self).focus.focused, old(self).focus.initialized, *root,
                    final(self).focus.focusable_ids@, final(self).focus.focus_order@)
                &&& final(self).pointer.scrollbar_states@ == idled_scrollbars(
                    old(self).pointer.scrollbar_states@.restrict(id_set(preorder(*root, keep_displayed()))),
                    id_set(preorder(*root, keep_shown())))
                &&& final(self).dispatch.parents@ == parent_map(Map::empty(), dispatch_entries(*root, None))
                &&& final(self).dispatch.form_ids@ == entry_match_ids(dispatch_entries(*root, None), is_form())
                &&& (if refers_into(announced_form(old(self).validation_announcement), final(self).dispatch.form_ids@) {
                    final(self).validation_announcement == old(self).validation_announcement
                } else {
                    final(self).validation_announcement is None
                })
                &&& final(self).refs_consistent()
                &&& text_ids_wf(final(self).accessibility_text_ids@)
                &&& playbacks_wf(playback_views(final(self).motion.animations@))
                &&& ({
                    let owners = final(self).text.text_inputs@.union(final(self).text.selectable_text_indices@.dom());
                    element_ids@.len() + owners.len() + 2 < 0x1_0000_0000_0000_0000 ==> {
                        &&& final(self).accessibility_text_ids@.dom() == owners
                        &&& forall|k: ElementId| #[trigger] final(self).accessibility_text_ids@.contains_key(k)
                            ==> !element_ids@.contains(final(self).accessibility_text_ids@[k])
                        &&& forall|k: ElementId| #[trigger] kept_text_ids(old(self).accessibility_text_ids@, owners, element_ids@).contains_key(k)
                            ==> final(self).accessibility_text_ids@[k] == old(self).accessibility_text_ids@[k]
                    }
                })
                &&& !final(self).dirty
            },
    {
        self.membership.sync(root);
        self.pointer.scrollbar_drag = keep_if_in(self.pointer.scrollbar_drag, &self.membership.visible_ids);
        self.motion.sync(root, now);
        match self.tooltips.sync(root, max_tooltips) {
            Ok(()) => {},
            Err(e) => return Err(e),
        }
        self.text.sync(root);
        let owners = text_owners(&self.text);
        if (element_ids.len() as u128) + (owners.len() as u128) + 2 < 0x1_0000_0000_0000_0000u128 {
            sync_accessibility_text_ids(&owners, element_ids, &mut self.accessibility_text_ids, &mut self.next_accessibility_text_id);
        }
        self.focus.rebuild_focus_index(root);
        self.dispatch.rebuild_dispatch_index(root);
        let stale = match &self.validation_announcement {
            Some(announcement) => !self.dispatch.form_ids.contains(&announcement.form),
            None => false,
        };
        if stale {
            self.validation_announcement = None;
        }
        self.pointer.prune(&self.membership.displayed_ids, &self.membership.visible_ids);
        self.focus.focused = keep_if_in(self.focus.focused, &self.focus.focusable_ids);
        self.focus.initialize_focus_if_needed(root);
        if self.tooltips.pointer.is_none() {
            proof {
                if let Some(f) = self.focus.focused {
                    crate::dispatch::lemma_climb_finds_member(self.dispatch.parents@, self.tooltips.tooltips@.dom(), f,
                        self.dispatch.parents@.len());
                }
            }
            self.reconcile_tooltip(now);
        }
        self.dirty = false;
        assert(self.motion.animations@.dom() =~= self.motion.animations@.dom().intersect(self.motion.animation_ids@)) by {
            assert(playback_views(self.motion.animations@).dom() == self.motion.animations@.dom());
        }
        Ok(())
    }
}

/// `i` is the first position of `id` in `s`.
pub open spec fn is_first_position(s: Seq<ElementId>, id: ElementId, i: int) -> bool {
    &&& 0 <= i < s.len()
    &&& s[i] == id
    &&& forall|j: int| 0 <= j < i ==> s[j] != id
}

/// The first position of `id` in `s`, if it occurs.
pub open spec fn position_of(s: Seq<ElementId>, id: ElementId) -> Option<int> {
    if s.contains(id) { Some(choose|i: int| is_first_position(s, id, i)) } else { None }
}

proof fn lemma_first_position_exists(s: Seq<ElementId>, id: ElementId, k: int)
    requires
        0 <= k < s.len(),
        s[k] == id,
    ensures
        exists|i: int| is_first_position(s, id, i),
    decreases k,
{
    if exists|j: int| 0 <= j < k && s[j] == id {
        let j = choose|j: int| 0 <= j < k && s[j] == id;
        lemma_first_position_exists(s, id, j);
    } else {
        assert(is_first_position(s, id, k));
    }
}

proof fn lemma_position_of(s: Seq<ElementId>, id: ElementId)
    ensures
        match position_of(s, id) {
            Some(i) => is_first_position(s, id, i),
            None => !s.contains(id),
        },
{
    if s.contains(id) {
        let k = choose|k: int| 0 <= k < s.len() && s[k] == id;
        lemma_first_position_exists(s, id, k);
    }
}

/// In a list without repeats, an element's first position is its position.
pub proof fn lemma_position_of_distinct(s: Seq<ElementId>, i: int)
    requires
        s.no_duplicates(),
        0 <= i < s.len(),
    ensures
        position_of(s, s[i]) == Some(i),
{
    assert(s.contains(s[i]));
    lemma_position_of(s, s[i]);
}

fn first_position(s: &Vec<ElementId>, id: ElementId) -> (position: Option<usize>)
    ensures
        match position {
            Some(i) => position_of(s@, id) == Some(i as int) && i < s.len() && s@[i as int] == id,
            None => position_of(s@, id) is None,
        },
{
    proof {
        lemma_position_of(s@, id);
    }
    let mut i: usize = 0;
    while i < s.len()
        invariant
            i <= s.len(),
            forall|j: int| 0 <= j < i ==> s@[j] != id,
        decreases s.len() - i,
    {
        if s[i] == id {
            proof {
                assert(is_first_position(s@, id, i as int));
                if let Some(p) = position_of(s@, id) {
                    assert(p == i);
                }
            }
            return Some(i);
        }
        i += 1;
    }
    None
}

/// The position Tab (or Shift+Tab) moves to from `current` in a tab order of `len` stops.
pub open spec fn next_focus_index(current: Option<int>, len: int, reverse: bool) -> int {
    match current {
        Some(i) => if reverse { if i == 0 { len - 1 } else { i - 1 } } else { (i + 1) % len },
        None => if reverse { len - 1 } else { 0 },
    }
}

/// Where focus is in the tab order: the focused element's stop, or for a tab that is not its
/// list's tab stop, the stop of its list.
pub open spec fn focus_position(order: Seq<ElementId>, focused: Option<ElementId>, root: Element) -> Option<int> {
    match focused {
        None => None,
        Some(f) => match position_of(order, f) {
            Some(i) => Some(i),
            None => match spec_tab_stop_for_focused_tab(root, f) {
                Some(stop) => position_of(order, stop),
                None => None,
            },
        },
    }
}

/// The element Tab (or Shift+Tab) moves focus to.
pub open spec fn focus_next_target(order: Seq<ElementId>, focused: Option<ElementId>, root: Element, reverse: bool) -> ElementId {
    order[next_focus_index(focus_position(order, focused, root), order.len() as int, reverse)]
}

/// Tab then Shift+Tab returns to the starting stop of a tab order without repeats.
pub proof fn lemma_tab_round_trip(order: Seq<ElementId>, i: int, root: Element)
    requires
        order.no_duplicates(),
        0 <= i < order.len(),
    ensures
        focus_next_target(order, Some(focus_next_target(order, Some(order[i]), root, false)), root, true) == order[i],
        focus_next_target(order, Some(focus_next_target(order, Some(order[i]), root, true)), root, false) == order[i],
{
    let n = order.len() as int;
    lemma_position_of_distinct(order, i);
    let forward = (i + 1) % n;
    let backward = if i == 0 { n - 1 } else { i - 1 };
    lemma_position_of_distinct(order, forward);
    lemma_position_of_distinct(order, backward);
    assert(forward == if i == n - 1 { 0 } else { i + 1 }) by (nonlinear_arith)
        requires
            0 <= i < n,
            forward == (i + 1) % n,
    {
        if i < n - 1 {
            assert((i + 1) % n == i + 1);
        } else {
            assert((i + 1) % n == 0);
        }
    }
    assert((backward + 1) % n == i) by (nonlinear_arith)
        requires
            0 <= i < n,
            backward == if i == 0 { n - 1 } else { i - 1 },
    {
        if i == 0 {
            assert(n % n == 0);
        } else {
            assert(i % n == i);
        }
    }
}

impl TextState {
    /// Drops the immutable-text selection and its gesture; whether there was a selection.
    pub fn clear_static_text_selection(&mut self) -> (had_selection: bool)
        ensures
            had_selection == old(self).static_text_selection is Some,
            final(self).static_text_selection is None,
            final(self).static_text_gesture is None,
            final(self).text_inputs == old(self).text_inputs,
            final(self).selecting_input == old(self).selecting_input,
            final(self).selectable_texts == old(self).selectable_texts,
            final(self).selectable_text_indices == old(self).selectable_text_indices,
            final(self).last_static_text_click == old(self).last_static_text_click,
    {
        self.static_text_gesture = None;
        let had_selection = self.static_text_selection.is_some();
        self.static_text_selection = None;
        had_selection
    }
}

impl MountedState {
    /// Focuses `id` when it can take focus, as a pointer press does (no tooltip); focusing a text
    /// input drops the immutable-text selection. Returns whether anything changed.
    pub fn focus_from_pointer(&mut self, id: ElementId) -> (changed: bool)
        ensures
            !old(self).focus.focusable_ids@.contains(id) ==> !changed && *final(self) == *old(self),
            old(self).focus.focusable_ids@.contains(id) ==> {
                &&& final(self).focus.focused == Some(id)
                &&& if old(self).text.text_inputs@.contains(id) {
                    &&& final(self).text.static_text_selection is None
                    &&& final(self).text.static_text_gesture is None
                    &&& changed == (old(self).focus.focused != Some(id) || old(self).text.static_text_selection is Some)
                } else {
                    &&& final(self).text == old(self).text
                    &&& changed == (old(self).focus.focused != Some(id))
                }
            },
            final(self).membership == old(self).membership,
            final(self).text.text_inputs == old(self).text.text_inputs,
            final(self).text.selecting_input == old(self).text.selecting_input,
            final(self).text.selectable_texts == old(self).text.selectable_texts,
            final(self).text.selectable_text_indices == old(self).text.selectable_text_indices,
            final(self).text.last_static_text_click == old(self).text.last_static_text_click,
            final(self).focus.focusable_ids == old(self).focus.focusable_ids,
            final(self).focus.clickable_ids == old(self).focus.clickable_ids,
            final(self).focus.focus_order == old(self).focus.focus_order,
            final(self).focus.active_focus_trap == old(self).focus.active_focus_trap,
            final(self).focus.initialized == old(self).focus.initialized,
            final(self).pointer == old(self).pointer,
            final(self).motion == old(self).motion,
            final(self).tooltips == old(self).tooltips,
            final(self).dispatch == old(self).dispatch,
            final(self).validation_announcement == old(self).validation_announcement,
            final(self).accessibility_text_ids == old(self).accessibility_text_ids,
            final(self).next_accessibility_text_id == old(self).next_accessibility_text_id,
            final(self).dirty == old(self).dirty,
    {
        if !self.focus.focusable_ids.contains(&id) {
            return false;
        }
        let mut changed = match self.focus.focused {
            Some(current) => current != id,
            None => true,
        };
        self.focus.focused = Some(id);
        if self.text.text_inputs.contains(&id) {
            let cleared = self.text.clear_static_text_selection();
            changed = changed || cleared;
        }
        changed
    }

    /// Focuses `id` from the keyboard: as `focus_from_pointer`, and when focus moved, the tooltip
    /// follows it.
    pub fn focus(&mut self, id: ElementId, now: u64) -> (changed: bool)
        ensures
            !old(self).focus.focusable_ids@.contains(id) ==> !changed && *final(self) == *old(self),
            old(self).focus.focusable_ids@.contains(id) ==> {
                let moved = if old(self).text.text_inputs@.contains(id) {
                    old(self).focus.focused != Some(id) || old(self).text.static_text_selection is Some
                } else {
                    old(self).focus.focused != Some(id)
                };
                &&& final(self).focus.focused == Some(id)
                &&& changed == moved
                &&& if old(self).text.text_inputs@.contains(id) {
                    &&& final(self).text.static_text_selection is None
                    &&& final(self).text.static_text_gesture is None
                } else {
                    final(self).text == old(self).text
                }
                &&& final(self).tooltips == if moved {
                    reconciled(old(self).tooltips, Some(id), old(self).dispatch.parents@, now).0
                } else {
                    old(self).tooltips
                }
            },
            final(self).membership == old(self).membership,
            final(self).focus.focusable_ids == old(self).focus.focusable_ids,
            final(self).focus.clickable_ids == old(self).focus.clickable_ids,
            final(self).focus.focus_order == old(self).focus.focus_order,
            final(self).focus.active_focus_trap == old(self).focus.active_focus_trap,
            final(self).focus.initialized == old(self).focus.initialized,
            final(self).pointer == old(self).pointer,
            final(self).motion == old(self).motion,
            final(self).dispatch == old(self).dispatch,
            final(self).validation_announcement == old(self).validation_announcement,
            final(self).accessibility_text_ids == old(self).accessibility_text_ids,
            final(self).next_accessibility_text_id == old(self).next_accessibility_text_id,
            final(self).dirty == old(self).dirty,
    {
        let changed = self.focus_from_pointer(id);
        if changed {
            self.reconcile_tooltip(now);
        }
        changed
    }

    /// Removes keyboard focus, the tooltip following it; whether there was any.
    pub fn blur(&mut self, now: u64) -> (changed: bool)
        ensures
            changed == old(self).focus.focused is Some,
            final(self).focus.focused is None,
            final(self).tooltips == if changed {
                reconciled(old(self).tooltips, None, old(self).dispatch.parents@, now).0
            } else {
                old(self).tooltips
            },
            final(self).focus.focusable_ids == old(self).focus.focusable_ids,
            final(self).focus.focus_order == old(self).focus.focus_order,
            final(self).text == old(self).text,
            final(self).membership == old(self).membership,
            final(self).pointer == old(self).pointer,
            final(self).motion == old(self).motion,
            final(self).dispatch == old(self).dispatch,
    {
        let changed = self.focus.focused.is_some();
        self.focus.focused = None;
        if changed {
            self.reconcile_tooltip(now);
        }
        changed
    }

    /// The focused element when Enter or Space should activate it: a clickable element that is
    /// not a text input.
    pub fn activate_focused(&self) -> (target: Option<ElementId>)
        ensures
            target == (match self.focus.focused {
                Some(f) => if self.focus.clickable_ids@.contains(f) && !self.text.text_inputs@.contains(f) {
                    Some(f)
                } else {
                    None
                },
                None => None,
            }),
    {
        match self.focus.focused {
            Some(f) => if self.focus.clickable_ids.contains(&f) && !self.text.text_inputs.contains(&f) { Some(f) } else { None },
            None => None,
        }
    }

    /// Moves focus to the next (or previous) stop of the tab order, wrapping at its ends.
    pub fn focus_next(&mut self, root: &Element, reverse: bool, now: u64) -> (changed: bool)
        ensures
            old(self).focus.focus_order@.len() == 0 ==> !changed && *final(self) == *old(self),
            old(self).focus.focus_order@.len() > 0 ==> {
                let target = focus_next_target(old(self).focus.focus_order@, old(self).focus.focused, *root, reverse);
                &&& (old(self).focus.focusable_ids@.contains(target) ==> final(self).focus.focused == Some(target))
                &&& (old(self).focus.focusable_ids@.contains(target) ==> changed == if old(self).text.text_inputs@.contains(target) {
                    old(self).focus.focused != Some(target) || old(self).text.static_text_selection is Some
                } else {
                    old(self).focus.focused != Some(target)
                })
                &&& (!old(self).focus.focusable_ids@.contains(target) ==> !changed && *final(self) == *old(self))
            },
            final(self).focus.focus_order == old(self).focus.focus_order,
            final(self).focus.focusable_ids == old(self).focus.focusable_ids,
    {
        let len = self.focus.focus_order.len();
        if len == 0 {
            return false;
        }
        let current = match self.focus.focused {
            None => None,
            Some(f) => match first_position(&self.focus.focus_order, f) {
                Some(i) => Some(i),
                None => match tab_stop_for_focused_tab(root, f) {
                    Some(stop) => first_position(&self.focus.focus_order, stop),
                    None => None,
                },
            },
        };
        let next_index = match current {
            Some(i) => if reverse { if i == 0 { len - 1 } else { i - 1 } } else { (i + 1) % len },
            None => if reverse { len - 1 } else { 0 },
        };
        proof {
            if let Some(i) = current {
                assert(i < len);
            }
            if let Some(i) = current {
                if !reverse {
                    let k = i as int + 1;
                    let m = len as int;
                    assert(0 <= k % m < m) by (nonlinear_arith)
                        requires
                            m > 0,
                            k >= 0,
                    ;
                }
            }
            let c: Option<int> = match current { Some(i) => Some(i as int), None => None };
            assert(c == focus_position(self.focus.focus_order@, self.focus.focused, *root));
            assert(next_index as int == next_focus_index(c, len as int, reverse));
        }
        let next = self.focus.focus_order[next_index];
        self.focus(next, now)
    }
}

/// A tab that keyboard navigation moves to, and whether it is activated on arrival.
#[derive(Clone, Copy, Debug, PartialEq, Eq, Structural)]
pub struct TabNavigationTarget {
    pub id: ElementId,
    pub activate: bool,
}

pub open spec fn no_neighbors() -> GroupNeighbors {
    GroupNeighbors { first: None, previous: None, next: None, last: None, found_focus: false }
}

/// The navigation neighbours of `focused` inside its innermost group of kind `g`, with that group.
pub open spec fn group_neighbors(root: Element, g: Grouping, focused: ElementId) -> Option<(Element, GroupNeighbors)> {
    match first_match(postorder(root, keep_shown()), group_containing(g, focused)) {
        None => None,
        Some(group) => Some((group, neighbor_fold(no_neighbors(), preorder(group, keep_group_scope(g, group.runtime_id)), g, focused))),
    }
}

pub open spec fn or_else(a: Option<ElementId>, b: Option<ElementId>) -> Option<ElementId> {
    if a is Some { a } else { b }
}

/// The radio an arrow key moves to inside the focused radio group, wrapping at its ends.
pub open spec fn spec_adjacent_radio(root: Element, focused: Option<ElementId>, reverse: bool) -> Option<ElementId> {
    match focused {
        None => None,
        Some(f) => match group_neighbors(root, Grouping::Radios, f) {
            None => None,
            Some((_, n)) => if !n.found_focus {
                None
            } else if reverse {
                or_else(n.previous, n.last)
            } else {
                or_else(n.next, n.first)
            },
        },
    }
}

/// The tab an arrow key of the given axis moves to inside the focused tab list.
pub open spec fn spec_adjacent_tab(root: Element, focused: Option<ElementId>, vertical_axis: bool, reverse: bool)
    -> Option<TabNavigationTarget>
{
    match focused {
        None => None,
        Some(f) => match group_neighbors(root, Grouping::Tabs, f) {
            None => None,
            Some((list, n)) => match list.tab_list_behavior {
                None => None,
                Some(behavior) => {
                    let id = if reverse {
                        or_else(n.previous, if behavior.loop_focus { n.last } else { None })
                    } else {
                        or_else(n.next, if behavior.loop_focus { n.first } else { None })
                    };
                    if behavior.vertical != vertical_axis || !n.found_focus || id is None {
                        None
                    } else {
                        Some(TabNavigationTarget { id: id.unwrap(), activate: behavior.activate_on_focus })
                    }
                },
            },
        },
    }
}

/// The first (or last) tab of the focused tab list (Home / End).
pub open spec fn spec_edge_tab(root: Element, focused: Option<ElementId>, last: bool) -> Option<TabNavigationTarget> {
    match focused {
        None => None,
        Some(f) => match group_neighbors(root, Grouping::Tabs, f) {
            None => None,
            Some((list, n)) => match list.tab_list_behavior {
                None => None,
                Some(behavior) => {
                    let id = if last { n.last } else { n.first };
                    if !n.found_focus || id is None {
                        None
                    } else {
                        Some(TabNavigationTarget { id: id.unwrap(), activate: behavior.activate_on_focus })
                    }
                },
            },
        },
    }
}

fn or_else_exec(a: Option<ElementId>, b: Option<ElementId>) -> (r: Option<ElementId>)
    ensures
        r == or_else(a, b),
{
    match a {
        Some(_) => a,
        None => b,
    }
}

impl MountedState {
    /// The previous or next enabled radio of the focused radio group, wrapping at its ends.
    pub fn adjacent_radio(&self, root: &Element, reverse: bool) -> (target: Option<ElementId>)
        ensures
            target == spec_adjacent_radio(*root, self.focus.focused, reverse),
    {
        let focused = match self.focus.focused {
            Some(f) => f,
            None => return None,
        };
        let group = match radio_group_for_focused(root, focused) {
            Some(g) => g,
            None => return None,
        };
        let mut neighbors = GroupNeighbors::new();
        collect_radio_neighbors(group, group.runtime_id, focused, &mut neighbors);
        if !neighbors.found_focus {
            return None;
        }
        if reverse {
            or_else_exec(neighbors.previous, neighbors.last)
        } else {
            or_else_exec(neighbors.next, neighbors.first)
        }
    }

    /// The previous or next enabled tab of the focused tab list along `vertical_axis`, wrapping
    /// when the list loops.
    pub fn adjacent_tab(&self, root: &Element, vertical_axis: bool, reverse: bool) -> (target: Option<TabNavigationTarget>)
        ensures
            target == spec_adjacent_tab(*root, self.focus.focused, vertical_axis, reverse),
    {
        let focused = match self.focus.focused {
            Some(f) => f,
            None => return None,
        };
        let list = match tab_list_for_focused(root, focused) {
            Some(l) => l,
            None => return None,
        };
        let behavior = match list.tab_list_behavior {
            Some(b) => b,
            None => return None,
        };
        if behavior.vertical != vertical_axis {
            return None;
        }
        let mut neighbors = GroupNeighbors::new();
        collect_tab_neighbors(list, list.runtime_id, focused, &mut neighbors);
        if !neighbors.found_focus {
            return None;
        }
        let id = if reverse {
            or_else_exec(neighbors.previous, if behavior.loop_focus { neighbors.last } else { None })
        } else {
            or_else_exec(neighbors.next, if behavior.loop_focus { neighbors.first } else { None })
        };
        match id {
            Some(id) => Some(TabNavigationTarget { id, activate: behavior.activate_on_focus }),
            None => None,
        }
    }

    /// The first or last enabled tab of the focused tab list.
    pub fn edge_tab(&self, root: &Element, last: bool) -> (target: Option<TabNavigationTarget>)
        ensures
            target == spec_edge_tab(*root, self.focus.focused, last),
    {
        let focused = match self.focus.focused {
            Some(f) => f,
            None => return None,
        };
        let list = match tab_list_for_focused(root, focused) {
            Some(l) => l,
            None => return None,
        };
        let behavior = match list.tab_list_behavior {
            Some(b) => b,
            None => return None,
        };
        let mut neighbors = GroupNeighbors::new();
        collect_tab_neighbors(list, list.runtime_id, focused, &mut neighbors);
        if !neighbors.found_focus {
            return None;
        }
        let id = if last { neighbors.last } else { neighbors.first };
        match id {
            Some(id) => Some(TabNavigationTarget { id, activate: behavior.activate_on_focus }),
            None => None,
        }
    }
}

/// The owner of the text run `id` in `text_ids`, if any.
pub open spec fn text_run_owner(text_ids: Map<ElementId, u64>, id: u64) -> Option<ElementId> {
    if exists|k: ElementId| #[trigger] text_ids.contains_key(k) && text_ids[k] == id {
        Some(choose|k: ElementId| #[trigger] text_ids.contains_key(k) && text_ids[k] == id)
    } else {
        None
    }
}

fn find_text_run_owner(text_ids: &HashMap<ElementId, u64>, id: u64) -> (owner: Option<ElementId>)
    requires
        text_ids@.is_injective(),
    ensures
        owner == text_run_owner(text_ids@, id),
{
    let keys = map_keys(text_ids);
    let mut i: usize = 0;
    while i < keys.len()
        invariant
            i <= keys.len(),
            keys@.to_set() == text_ids@.dom(),
            text_ids@.is_injective(),
            forall|j: int| 0 <= j < i ==> text_ids@[#[trigger] keys@[j]] != id,
        decreases keys.len() - i,
    {
        let k = keys[i];
        proof {
            assert(keys@.contains(k));
            assert(keys@.to_set().contains(k));
        }
        match text_ids.get(&k) {
            Some(v) => if *v == id {
                proof {
                    assert(text_ids@.contains_key(k) && text_ids@[k] == id);
                    let c = choose|c: ElementId| #[trigger] text_ids@.contains_key(c) && text_ids@[c] == id;
                    assert(text_ids@.contains_key(c) && text_ids@[c] == id);
                    if c != k {
                        assert(text_ids@.dom().contains(c) && text_ids@.dom().contains(k));
                        assert(text_ids@[c] == text_ids@[k]);
                        assert(false);
                    }
                }
                return Some(k);
            },
            None => {},
        }
        i += 1;
    }
    proof {
        if exists|c: ElementId| #[trigger] text_ids@.contains_key(c) && text_ids@[c] == id {
            let c = choose|c: ElementId| #[trigger] text_ids@.contains_key(c) && text_ids@[c] == id;
            assert(keys@.to_set().contains(c));
            let j = choose|j: int| 0 <= j < keys@.len() && keys@[j] == c;
            assert(text_ids@[keys@[j]] != id);
        }
    }
    None
}

impl MountedState {
    /// The element an assistive-technology request for node `id` is about: the owner of a text
    /// run, or the element with that id, when it is in the semantic tree of `root`.
    pub fn accessibility_element(&self, root: &Element, id: u64) -> (element: Option<ElementId>)
        requires
            text_ids_wf(self.accessibility_text_ids@),
        ensures
            element == if id == ACCESSIBILITY_ROOT_ID {
                None
            } else {
                let target = match text_run_owner(self.accessibility_text_ids@, id) {
                    Some(owner) => owner,
                    None => id,
                };
                if id_set(preorder(*root, keep_accessible())).contains(target) { Some(target) } else { None }
            },
    {
        if id == ACCESSIBILITY_ROOT_ID {
            return None;
        }
        let target = match find_text_run_owner(&self.accessibility_text_ids, id) {
            Some(owner) => owner,
            None => id,
        };
        if accessibility_tree_contains(root, target) { Some(target) } else { None }
    }

    /// Selects all immutable text, from the start of the first leaf to the end of the last;
    /// whether the selection changed.
    pub fn select_all_static_text(&mut self) -> (changed: bool)
        ensures
            old(self).text.selectable_texts.len() == 0 ==> !changed && *final(self) == *old(self),
            old(self).text.selectable_texts.len() > 0 ==> {
                let texts = old(self).text.selectable_texts@;
                let all = StaticTextSelection {
                    anchor: StaticTextPosition { id: texts[0].id, offset: 0 },
                    focus: StaticTextPosition {
                        id: texts.last().id,
                        offset: encode_utf8(texts.last().content@).len() as usize,
                    },
                };
                &&& final(self).text.static_text_selection == Some(all)
                &&& final(self).text.static_text_gesture is None
                &&& changed == (old(self).text.static_text_selection != Some(all))
                &&& final(self).text.selectable_texts == old(self).text.selectable_texts
                &&& final(self).text.selectable_text_indices == old(self).text.selectable_text_indices
            },
    {
        let n = self.text.selectable_texts.len();
        if n == 0 {
            return false;
        }
        let first = self.text.selectable_texts[0].id;
        let last = &self.text.selectable_texts[n - 1];
        let next = StaticTextSelection {
            anchor: StaticTextPosition { id: first, offset: 0 },
            focus: StaticTextPosition { id: last.id, offset: crate::selection::byte_len(last.content.as_str()) },
        };
        let changed = match self.text.static_text_selection {
            Some(current) => current != next,
            None => true,
        };
        self.text.static_text_selection = Some(next);
        self.text.static_text_gesture = None;
        changed
    }

    /// The text a copy of the immutable-text selection yields (see `selected_static_text`).
    pub fn selected_static_text(&self, line_breaks: &Vec<bool>, limit: usize) -> (text: Option<String>)
        requires
            self.refs_consistent(),
            line_breaks.len() == self.text.selectable_texts.len(),
        ensures
            match text {
                Some(t) => spec_selected_static_text(self.text.static_text_selection,
                    entries_view(self.text.selectable_texts@), self.text.selectable_text_indices@, line_breaks@, limit)
                    == Some(t@),
                None => spec_selected_static_text(self.text.static_text_selection,
                    entries_view(self.text.selectable_texts@), self.text.selectable_text_indices@, line_breaks@, limit)
                    is None,
            },
    {
        selected_static_text(self.text.static_text_selection, &self.text.selectable_texts,
            &self.text.selectable_text_indices, line_breaks, limit)
    }
}

/// The element a tooltip follows: the pointer's target, else the focused element's nearest
/// element (itself or an ancestor) that declares a tooltip.
pub open spec fn tooltip_target(t: TooltipState, focused: Option<ElementId>, parents: Map<ElementId, ElementId>)
    -> Option<ElementId>
{
    match t.pointer {
        Some(p) => Some(p),
        None => match focused {
            Some(f) => climb(parents, t.tooltips@.dom(), f, parents.len()),
            None => None,
        },
    }
}

/// The tooltip state after it follows its target at `now`, and whether what is shown changed: a
/// new target hides the old tooltip and shows its own at once (no delay) or schedules it for
/// `now` plus its delay (unless that instant overflows).
pub open spec fn reconciled(t: TooltipState, focused: Option<ElementId>, parents: Map<ElementId, ElementId>, now: u64)
    -> (TooltipState, bool)
{
    let next = tooltip_target(t, focused, parents);
    if next == t.hovered {
        (t, false)
    } else {
        let declared = next matches Some(target) && t.tooltips@.contains_key(target);
        if declared && t.tooltips@[next.unwrap()].delay == 0 {
            (TooltipState { overlay: false, hovered: next, pending: None, visible: next, ..t }, true)
        } else {
            let delay = t.tooltips@[next.unwrap()].delay;
            (TooltipState {
                overlay: false,
                hovered: next,
                visible: None,
                pending: if declared && now + delay <= u64::MAX {
                    Some(PendingTooltip { target: next.unwrap(), show_at: (now + delay) as u64 })
                } else {
                    None
                },
                ..t
            }, t.visible is Some)
        }
    }
}

impl MountedState {
    /// The element whose tooltip applies to `id`: `id` itself or its nearest ancestor with one.
    pub fn tooltip_ancestor(&self, id: ElementId) -> (owner: Option<ElementId>)
        ensures
            owner == climb(self.dispatch.parents@, self.tooltips.tooltips@.dom(), id, self.dispatch.parents@.len()),
    {
        climb_to_key(&self.dispatch.parents, &self.tooltips.tooltips, id)
    }

    /// Hides any tooltip and forgets the pointer's; whether one was showing.
    pub fn clear_tooltip(&mut self) -> (changed: bool)
        ensures
            changed == old(self).tooltips.visible is Some,
            final(self).tooltips.pointer is None,
            final(self).tooltips.hovered is None,
            final(self).tooltips.pending is None,
            final(self).tooltips.visible is None,
            !final(self).tooltips.overlay,
            final(self).tooltips.tooltips == old(self).tooltips.tooltips,
            final(self).focus == old(self).focus,
            final(self).membership == old(self).membership,
            final(self).pointer == old(self).pointer,
            final(self).text == old(self).text,
            final(self).motion == old(self).motion,
            final(self).dispatch == old(self).dispatch,
            final(self).accessibility_text_ids == old(self).accessibility_text_ids,
            final(self).validation_announcement == old(self).validation_announcement,
    {
        self.tooltips.pointer = None;
        self.tooltips.hovered = None;
        self.tooltips.pending = None;
        let changed = self.tooltips.visible.is_some();
        self.tooltips.visible = None;
        self.tooltips.overlay = false;
        changed
    }

    /// Points the tooltip at the pointer's target, else at the focused element's: a new target
    /// hides the old tooltip and shows its own at once (no delay) or from `now` plus its delay.
    /// Whether what is shown changed.
    pub fn reconcile_tooltip(&mut self, now: u64) -> (changed: bool)
        ensures
            (final(self).tooltips, changed)
                == reconciled(old(self).tooltips, old(self).focus.focused, old(self).dispatch.parents@, now),
            final(self).mouse_hover == old(self).mouse_hover,
            final(self).focus == old(self).focus,
            final(self).membership == old(self).membership,
            final(self).pointer == old(self).pointer,
            final(self).text == old(self).text,
            final(self).motion == old(self).motion,
            final(self).dispatch == old(self).dispatch,
            final(self).accessibility_text_ids == old(self).accessibility_text_ids,
            final(self).next_accessibility_text_id == old(self).next_accessibility_text_id,
            final(self).validation_announcement == old(self).validation_announcement,
            final(self).dirty == old(self).dirty,
    {
        let next = match self.tooltips.pointer {
            Some(p) => Some(p),
            None => match self.focus.focused {
                Some(f) => self.tooltip_ancestor(f),
                None => None,
            },
        };
        if next == self.tooltips.hovered {
            return false;
        }
        let was_visible = self.tooltips.visible.is_some();
        self.tooltips.visible = None;
        self.tooltips.overlay = false;
        self.tooltips.pending = None;
        self.tooltips.hovered = next;
        let mut immediately_visible = false;
        if let Some(target) = next {
            match self.tooltips.tooltips.get(&target) {
                Some(tooltip) => {
                    if tooltip.delay == 0 {
                        self.tooltips.visible = Some(target);
                        immediately_visible = true;
                    } else {
                        match now.checked_add(tooltip.delay) {
                            Some(show_at) => {
                                self.tooltips.pending = Some(PendingTooltip { target, show_at });
                            },
                            None => {},
                        }
                    }
                },
                None => {},
            }
        }
        was_visible || immediately_visible
    }

    /// When the pending tooltip shows, if one is pending.
    pub fn next_tooltip_deadline(&self) -> (deadline: Option<u64>)
        ensures
            deadline == match self.tooltips.pending {
                Some(p) => Some(p.show_at),
                None => None,
            },
    {
        match self.tooltips.pending {
            Some(p) => Some(p.show_at),
            None => None,
        }
    }

    /// Shows a pending tooltip whose delay has passed at `now`, if its target is still the one
    /// hovered and still declares it; whether it was shown.
    pub fn advance_tooltips(&mut self, now: u64) -> (changed: bool)
        ensures
            match old(self).tooltips.pending {
                None => !changed && *final(self) == *old(self),
                Some(p) => if p.show_at > now {
                    !changed && *final(self) == *old(self)
                } else {
                    &&& final(self).tooltips.pending is None
                    &&& final(self).tooltips.hovered == old(self).tooltips.hovered
                    &&& final(self).tooltips.pointer == old(self).tooltips.pointer
                    &&& final(self).tooltips.tooltips == old(self).tooltips.tooltips
                    &&& if old(self).tooltips.hovered == Some(p.target) && old(self).tooltips.tooltips@.contains_key(p.target) {
                        changed && final(self).tooltips.visible == Some(p.target) && !final(self).tooltips.overlay
                    } else {
                        !changed && final(self).tooltips.visible == old(self).tooltips.visible
                            && final(self).tooltips.overlay == old(self).tooltips.overlay
                    }
                },
            },
            final(self).focus == old(self).focus,
            final(self).membership == old(self).membership,
            final(self).pointer == old(self).pointer,
            final(self).text == old(self).text,
            final(self).motion == old(self).motion,
            final(self).dispatch == old(self).dispatch,
    {
        let pending = match self.tooltips.pending {
            Some(p) => p,
            None => return false,
        };
        if pending.show_at > now {
            return false;
        }
        self.tooltips.pending = None;
        if self.tooltips.hovered == Some(pending.target) && self.tooltips.tooltips.contains_key(&pending.target) {
            self.tooltips.visible = Some(pending.target);
            self.tooltips.overlay = false;
            true
        } else {
            false
        }
    }
}

/// A scrollbar whose reveal has run out at `now` while it is neither hovered nor dragged.
pub open spec fn reveal_expired(state: ScrollbarState, now: u64) -> bool {
    !state.hovered && !state.dragging && (state.visible_until matches Some(deadline) && deadline <= now)
}

/// The scrollbars after the expired reveals at `now` end.
pub open spec fn expired_hidden(states: Map<ElementId, ScrollbarState>, now: u64) -> Map<ElementId, ScrollbarState> {
    Map::new(
        |id: ElementId| states.dom().contains(id),
        |id: ElementId| if reveal_expired(states[id], now) {
            ScrollbarState { visible_until: None, ..states[id] }
        } else {
            states[id]
        },
    )
}

/// Hiding expired scrollbars never drives a loop: once their reveals have ended at `now`, no
/// reveal is left to expire at `now` (or any earlier time), so a second advance changes nothing.
pub proof fn lemma_scrollbar_hide_fires_once(states: Map<ElementId, ScrollbarState>, now: u64, later: u64)
    requires
        later <= now,
    ensures
        forall|id: ElementId| #[trigger] expired_hidden(states, now).contains_key(id)
            ==> !reveal_expired(expired_hidden(states, now)[id], later),
        expired_hidden(expired_hidden(states, now), later) == expired_hidden(states, now),
{
    assert(expired_hidden(expired_hidden(states, now), later) =~= expired_hidden(states, now));
}

impl PointerState {
    /// Ends every scrollbar reveal that has run out at `now`; whether any did.
    pub fn advance_scrollbars(&mut self, now: u64) -> (changed: bool)
        ensures
            final(self).scrollbar_states@ == expired_hidden(old(self).scrollbar_states@, now),
            changed == exists|id: ElementId| #[trigger] old(self).scrollbar_states@.contains_key(id)
                && reveal_expired(old(self).scrollbar_states@[id], now),
            final(self).hovered == old(self).hovered,
            final(self).pressed == old(self).pressed,
            final(self).dragging == old(self).dragging,
            final(self).drag_over == old(self).drag_over,
            final(self).hovered_scrollbar == old(self).hovered_scrollbar,
            final(self).scrollbar_drag == old(self).scrollbar_drag,
            final(self).scroll_offsets == old(self).scroll_offsets,
            final(self).scroll_end_states == old(self).scroll_end_states,
    {
        let keys = map_keys(&self.scrollbar_states);
        let ghost original = self.scrollbar_states@;
        let mut changed = false;
        let mut i: usize = 0;
        while i < keys.len()
            invariant
                i <= keys.len(),
                keys@.to_set() == original.dom(),
                keys@.no_duplicates(),
                self.scrollbar_states@ == Map::new(
                    |id: ElementId| original.dom().contains(id),
                    |id: ElementId| if keys@.take(i as int).contains(id) && reveal_expired(original[id], now) {
                        ScrollbarState { visible_until: None, ..original[id] }
                    } else {
                        original[id]
                    },
                ),
                changed == exists|id: ElementId| #[trigger] original.contains_key(id) && keys@.take(i as int).contains(id)
                    && reveal_expired(original[id], now),
                self.hovered == old(self).hovered,
                self.pressed == old(self).pressed,
                self.dragging == old(self).dragging,
                self.drag_over == old(self).drag_over,
                self.hovered_scrollbar == old(self).hovered_scrollbar,
                self.scrollbar_drag == old(self).scrollbar_drag,
                self.scroll_offsets == old(self).scroll_offsets,
                self.scroll_end_states == old(self).scroll_end_states,
            decreases keys.len() - i,
        {
            let id = keys[i];
            proof {
                assert(keys@.contains(id));
                assert(keys@.to_set().contains(id));
                assert forall|k: ElementId| #[trigger] keys@.take(i + 1).contains(k) <==> (keys@.take(i as int).contains(k) || k == id) by {
                    if keys@.take(i + 1).contains(k) {
                        let j = choose|j: int| 0 <= j < i + 1 && #[trigger] keys@.take(i + 1)[j] == k;
                        if j < i {
                            assert(keys@.take(i as int)[j] == k);
                        }
                    }
                    if k == id {
                        assert(keys@.take(i + 1)[i as int] == id);
                    }
                    if keys@.take(i as int).contains(k) {
                        let j = choose|j: int| 0 <= j < i && #[trigger] keys@.take(i as int)[j] == k;
                        assert(keys@.take(i + 1)[j] == k);
                    }
                }
            }
            let ghost before = self.scrollbar_states@;
            proof {
                assert(!keys@.take(i as int).contains(id)) by {
                    if keys@.take(i as int).contains(id) {
                        let j = choose|j: int| 0 <= j < i && keys@.take(i as int)[j] == id;
                        assert(keys@[j] == keys@[i as int]);
                    }
                }
                assert(before[id] == original[id]);
            }
            let state = match self.scrollbar_states.get(&id) {
                Some(state) => *state,
                None => ScrollbarState { hovered: false, dragging: false, visible_until: None },
            };
            let expired = !state.hovered && !state.dragging && match state.visible_until {
                Some(deadline) => deadline <= now,
                None => false,
            };
            if expired {
                self.scrollbar_states.insert(id, ScrollbarState { visible_until: None, ..state });
                changed = true;
            }
            proof {
                assert(state == original[id]);
                assert(self.scrollbar_states@ =~= Map::new(
                    |k: ElementId| original.dom().contains(k),
                    |k: ElementId| if keys@.take(i + 1).contains(k) && reveal_expired(original[k], now) {
                        ScrollbarState { visible_until: None, ..original[k] }
                    } else {
                        original[k]
                    },
                ));
                if !expired && changed {
                    let k = choose|k: ElementId| #[trigger] original.contains_key(k) && keys@.take(i as int).contains(k)
                        && reveal_expired(original[k], now);
                    assert(keys@.take(i + 1).contains(k));
                }
                if expired {
                    assert(original.contains_key(id) && keys@.take(i + 1).contains(id) && reveal_expired(original[id], now));
                }
            }
            i += 1;
        }
        proof {
            assert(keys@.take(keys.len() as int) == keys@);
            assert forall|k: ElementId| #[trigger] original.contains_key(k) implies keys@.contains(k) by {
                assert(keys@.to_set().contains(k));
            }
            assert(self.scrollbar_states@ =~= expired_hidden(original, now));
        }
        changed
    }

    /// The earliest end of a running scrollbar reveal (not hovered, not dragged).
    pub fn next_scrollbar_deadline(&self) -> (deadline: Option<u64>)
        ensures
            match deadline {
                None => forall|id: ElementId| #[trigger] self.scrollbar_states@.contains_key(id)
                    ==> !(!self.scrollbar_states@[id].hovered && !self.scrollbar_states@[id].dragging
                        && self.scrollbar_states@[id].visible_until is Some),
                Some(d) => {
                    &&& exists|id: ElementId| #[trigger] self.scrollbar_states@.contains_key(id)
                        && !self.scrollbar_states@[id].hovered && !self.scrollbar_states@[id].dragging
                        && self.scrollbar_states@[id].visible_until == Some(d)
                    &&& forall|id: ElementId| #[trigger] self.scrollbar_states@.contains_key(id)
                        && !self.scrollbar_states@[id].hovered && !self.scrollbar_states@[id].dragging
                        && self.scrollbar_states@[id].visible_until is Some
                        ==> d <= self.scrollbar_states@[id].visible_until.unwrap()
                },
            },
    {
        let keys = map_keys(&self.scrollbar_states);
        let ghost m = self.scrollbar_states@;
        let mut earliest: Option<u64> = None;
        let mut i: usize = 0;
        while i < keys.len()
            invariant
                i <= keys.len(),
                m == self.scrollbar_states@,
                keys@.to_set() == m.dom(),
                match earliest {
                    None => forall|j: int| 0 <= j < i ==> !(!m[#[trigger] keys@[j]].hovered && !m[keys@[j]].dragging
                        && m[keys@[j]].visible_until is Some),
                    Some(d) => {
                        &&& exists|j: int| 0 <= j < i && !m[#[trigger] keys@[j]].hovered && !m[keys@[j]].dragging
                            && m[keys@[j]].visible_until == Some(d)
                        &&& forall|j: int| 0 <= j < i && !m[#[trigger] keys@[j]].hovered && !m[keys@[j]].dragging
                            && m[keys@[j]].visible_until is Some ==> d <= m[keys@[j]].visible_until.unwrap()
                    },
                },
            decreases keys.len() - i,
        {
            let id = keys[i];
            proof {
                assert(keys@.contains(id));
                assert(keys@.to_set().contains(id));
            }
            match self.scrollbar_states.get(&id) {
                Some(state) => if !state.hovered && !state.dragging {
                    match state.visible_until {
                        Some(c) => {
                            earliest = match earliest {
                                Some(d) => if c < d { Some(c) } else { Some(d) },
                                None => Some(c),
                            };
                        },
                        None => {},
                    }
                },
                None => {},
            }
            i += 1;
        }
        proof {
            assert forall|id: ElementId| #[trigger] m.contains_key(id) implies exists|j: int| 0 <= j < keys@.len() && keys@[j] == id by {
                assert(keys@.to_set().contains(id));
            }
            match earliest {
                None => {
                    assert forall|id: ElementId| #[trigger] m.contains_key(id)
                        implies !(!m[id].hovered && !m[id].dragging && m[id].visible_until is Some) by {
                        let j = choose|j: int| 0 <= j < keys@.len() && keys@[j] == id;
                        assert(!(!m[keys@[j]].hovered && !m[keys@[j]].dragging && m[keys@[j]].visible_until is Some));
                    }
                },
                Some(d) => {
                    let j = choose|j: int| 0 <= j < keys@.len() && !m[#[trigger] keys@[j]].hovered && !m[keys@[j]].dragging
                        && m[keys@[j]].visible_until == Some(d);
                    assert(keys@.to_set().contains(keys@[j]));
                    assert(m.contains_key(keys@[j]));
                    assert forall|id: ElementId| #[trigger] m.contains_key(id) && !m[id].hovered && !m[id].dragging
                        && m[id].visible_until is Some implies d <= m[id].visible_until.unwrap() by {
                        let k = choose|k: int| 0 <= k < keys@.len() && keys@[k] == id;
                        assert(!m[keys@[k]].hovered);
                    }
                },
            }
        }
        earliest
    }
}

impl MountedState {
    /// Abandons every pointer interaction in progress (press, scrollbar drag, selection gesture,
    /// tooltip); whether anything changed.
    pub fn cancel_pointer_interaction(&mut self) -> (changed: bool)
        ensures
            final(self).text.selecting_input is None,
            final(self).text.static_text_gesture is None,
            final(self).pointer.pressed is None,
            final(self).pointer.scrollbar_drag is None,
            old(self).pointer.scrollbar_drag is Some ==> {
                &&& final(self).pointer.scrollbar_states@ == idled_scrollbars(old(self).pointer.scrollbar_states@, Set::empty())
                &&& final(self).pointer.hovered_scrollbar is None
            },
            old(self).pointer.scrollbar_drag is None ==> {
                &&& final(self).pointer.scrollbar_states == old(self).pointer.scrollbar_states
                &&& final(self).pointer.hovered_scrollbar == old(self).pointer.hovered_scrollbar
            },
            final(self).tooltips.hovered is None && final(self).tooltips.pointer is None
                && final(self).tooltips.pending is None && final(self).tooltips.visible is None,
            changed == (old(self).pointer.pressed is Some || old(self).pointer.scrollbar_drag is Some
                || old(self).text.static_text_gesture is Some || old(self).tooltips.visible is Some),
            final(self).focus == old(self).focus,
            final(self).membership == old(self).membership,
            final(self).pointer.hovered == old(self).pointer.hovered,
    {
        self.text.selecting_input = None;
        let gesture_changed = self.text.static_text_gesture.is_some();
        self.text.static_text_gesture = None;
        let scrollbar_changed = self.pointer.scrollbar_drag.is_some();
        self.pointer.scrollbar_drag = None;
        if scrollbar_changed {
            let nothing_visible: HashSet<ElementId> = HashSet::new();
            idle_hidden_scrollbars(&mut self.pointer.scrollbar_states, &nothing_visible);
            self.pointer.hovered_scrollbar = None;
        }
        let pressed_changed = self.pointer.pressed.is_some();
        self.pointer.pressed = None;
        let tooltip_changed = self.clear_tooltip();
        pressed_changed || scrollbar_changed || gesture_changed || tooltip_changed
    }
}

/// The scrollbar of `id` in `states`, idle when it has none yet.
pub open spec fn scrollbar_or_idle(states: Map<ElementId, ScrollbarState>, id: ElementId) -> ScrollbarState {
    if states.contains_key(id) { states[id] } else { idle_scrollbar() }
}

fn scrollbar_state_of(states: &HashMap<ElementId, ScrollbarState>, id: ElementId) -> (state: ScrollbarState)
    ensures
        state == scrollbar_or_idle(states@, id),
{
    match states.get(&id) {
        Some(state) => *state,
        None => ScrollbarState { hovered: false, dragging: false, visible_until: None },
    }
}

/// `now` plus `delay`, when it fits.
pub open spec fn after_delay(now: u64, delay: u64) -> Option<u64> {
    if now + delay <= u64::MAX { Some((now + delay) as u64) } else { None }
}

impl PointerState {
    /// After a paint, ends a scrollbar drag whose scroll container no longer painted a scroll
    /// region (`scroll_regions` holds the ids of those that did): the drag ends, that scrollbar
    /// goes idle, and it stops being the hovered one. Whether a drag was ended.
    pub fn end_vanished_scrollbar_drag(&mut self, scroll_regions: &Vec<ElementId>) -> (ended: bool)
        ensures
            ended == (old(self).scrollbar_drag matches Some(d) && !scroll_regions@.contains(d)),
            !ended ==> *final(self) == *old(self),
            ended ==> {
                let d = old(self).scrollbar_drag.unwrap();
                &&& final(self).scrollbar_drag is None
                &&& final(self).scrollbar_states@ == if old(self).scrollbar_states@.contains_key(d) {
                    old(self).scrollbar_states@.insert(d, idle_scrollbar())
                } else {
                    old(self).scrollbar_states@
                }
                &&& final(self).hovered_scrollbar == if old(self).hovered_scrollbar == Some(d) {
                    None
                } else {
                    old(self).hovered_scrollbar
                }
                &&& final(self).hovered == old(self).hovered
                &&& final(self).pressed == old(self).pressed
                &&& final(self).dragging == old(self).dragging
                &&& final(self).drag_over == old(self).drag_over
                &&& final(self).scroll_offsets == old(self).scroll_offsets
                &&& final(self).scroll_end_states == old(self).scroll_end_states
                &&& final(self).external_drag_active == old(self).external_drag_active
            },
    {
        let d = match self.scrollbar_drag {
            Some(d) => d,
            None => return false,
        };
        let mut i: usize = 0;
        while i < scroll_regions.len()
            invariant
                i <= scroll_regions@.len(),
                old(self).scrollbar_drag == Some(d),
                *self == *old(self),
                forall|j: int| 0 <= j < i ==> scroll_regions@[j] != d,
            decreases scroll_regions@.len() - i,
        {
            if scroll_regions[i] == d {
                assert(scroll_regions@.contains(d));
                return false;
            }
            i += 1;
        }
        assert(!scroll_regions@.contains(d));
        self.scrollbar_drag = None;
        if self.scrollbar_states.contains_key(&d) {
            self.scrollbar_states.insert(d, ScrollbarState { hovered: false, dragging: false, visible_until: None });
        }
        if self.hovered_scrollbar == Some(d) {
            self.hovered_scrollbar = None;
        }
        true
    }

    /// Marks a new drop target under a drag; whether it changed.
    pub fn set_drag_over(&mut self, target: Option<ElementId>) -> (changed: bool)
        ensures
            changed == (old(self).drag_over != target),
            final(self).drag_over == target,
            final(self).dragging == old(self).dragging,
            final(self).pressed == old(self).pressed,
            final(self).hovered == old(self).hovered,
            final(self).scrollbar_states == old(self).scrollbar_states,
    {
        if self.drag_over == target {
            false
        } else {
            self.drag_over = target;
            true
        }
    }

    /// Moves the pointer's scrollbar hover to `next` (the scrollbar under the pointer): the one it
    /// leaves starts hiding after `auto_hide_delay` unless dragged, the one it enters stays
    /// shown. Whether the hovered scrollbar changed.
    pub fn update_scrollbar_hover(&mut self, next: Option<ElementId>, now: u64, auto_hide_delay: u64) -> (changed: bool)
        ensures
            next == old(self).hovered_scrollbar ==> !changed && *final(self) == *old(self),
            next != old(self).hovered_scrollbar ==> {
                let left = match old(self).hovered_scrollbar {
                    Some(previous) => {
                        let state = scrollbar_or_idle(old(self).scrollbar_states@, previous);
                        old(self).scrollbar_states@.insert(previous, ScrollbarState {
                            hovered: false,
                            visible_until: if state.dragging { state.visible_until } else { after_delay(now, auto_hide_delay) },
                            ..state
                        })
                    },
                    None => old(self).scrollbar_states@,
                };
                &&& changed
                &&& final(self).hovered_scrollbar == next
                &&& final(self).scrollbar_states@ == match next {
                    Some(n) => left.insert(n, ScrollbarState {
                        hovered: true,
                        visible_until: None,
                        ..scrollbar_or_idle(left, n)
                    }),
                    None => left,
                }
            },
            final(self).hovered == old(self).hovered,
            final(self).pressed == old(self).pressed,
            final(self).dragging == old(self).dragging,
            final(self).drag_over == old(self).drag_over,
            final(self).scrollbar_drag == old(self).scrollbar_drag,
    {
        if next == self.hovered_scrollbar {
            return false;
        }
        if let Some(previous) = self.hovered_scrollbar {
            let state = scrollbar_state_of(&self.scrollbar_states, previous);
            let visible_until = if state.dragging { state.visible_until } else { now.checked_add(auto_hide_delay) };
            self.scrollbar_states.insert(previous, ScrollbarState { hovered: false, visible_until, ..state });
        }
        self.hovered_scrollbar = None;
        if let Some(n) = next {
            let state = scrollbar_state_of(&self.scrollbar_states, n);
            self.scrollbar_states.insert(n, ScrollbarState { hovered: true, visible_until: None, ..state });
            self.hovered_scrollbar = Some(n);
        }
        true
    }

    /// The scroll container `id` scrolled at `now`: its scrollbar shows, and hides after
    /// `auto_hide_delay` unless the pointer is on it or drags it.
    pub fn reveal_scrollbar(&mut self, id: ElementId, now: u64, auto_hide_delay: u64)
        ensures
            ({
                let state = scrollbar_or_idle(old(self).scrollbar_states@, id);
                final(self).scrollbar_states@ == old(self).scrollbar_states@.insert(id, if state.hovered || state.dragging {
                    state
                } else {
                    ScrollbarState { visible_until: after_delay(now, auto_hide_delay), ..state }
                })
            }),
            final(self).scrollbar_drag == old(self).scrollbar_drag,
            final(self).hovered == old(self).hovered,
            final(self).hovered_scrollbar == old(self).hovered_scrollbar,
            final(self).pressed == old(self).pressed,
            final(self).dragging == old(self).dragging,
            final(self).drag_over == old(self).drag_over,
    {
        let state = scrollbar_state_of(&self.scrollbar_states, id);
        let next = if state.hovered || state.dragging {
            state
        } else {
            ScrollbarState { visible_until: now.checked_add(auto_hide_delay), ..state }
        };
        self.scrollbar_states.insert(id, next);
    }

    /// Ends a scrollbar thumb drag at `now`: the scrollbar starts hiding after `auto_hide_delay`
    /// unless the pointer is on it. Whether a drag was in progress.
    pub fn end_scrollbar_drag(&mut self, now: u64, auto_hide_delay: u64) -> (changed: bool)
        ensures
            changed == old(self).scrollbar_drag is Some,
            final(self).scrollbar_drag is None,
            match old(self).scrollbar_drag {
                None => final(self).scrollbar_states == old(self).scrollbar_states,
                Some(id) => {
                    let state = scrollbar_or_idle(old(self).scrollbar_states@, id);
                    final(self).scrollbar_states@ == old(self).scrollbar_states@.insert(id, ScrollbarState {
                        dragging: false,
                        visible_until: if state.hovered { state.visible_until } else { after_delay(now, auto_hide_delay) },
                        ..state
                    })
                },
            },
            final(self).hovered == old(self).hovered,
            final(self).hovered_scrollbar == old(self).hovered_scrollbar,
            final(self).pressed == old(self).pressed,
            final(self).dragging == old(self).dragging,
            final(self).drag_over == old(self).drag_over,
    {
        let id = match self.scrollbar_drag {
            Some(id) => id,
            None => return false,
        };
        self.scrollbar_drag = None;
        let state = scrollbar_state_of(&self.scrollbar_states, id);
        let visible_until = if state.hovered { state.visible_until } else { now.checked_add(auto_hide_delay) };
        self.scrollbar_states.insert(id, ScrollbarState { dragging: false, visible_until, ..state });
        true
    }
}

impl MountedState {
    /// Starts dragging `source`: the press, hover, drop target, text gestures and tooltip end.
    /// Whether anything changed.
    pub fn begin_drag(&mut self, source: ElementId) -> (changed: bool)
        ensures
            final(self).pointer.dragging == Some(source),
            final(self).pointer.drag_over is None,
            final(self).pointer.pressed is None,
            final(self).pointer.hovered@ == Set::<ElementId>::empty(),
            final(self).text.selecting_input is None,
            final(self).text.static_text_gesture is None,
            final(self).tooltips.visible is None && final(self).tooltips.hovered is None,
            changed == (old(self).pointer.dragging != Some(source) || old(self).pointer.drag_over is Some
                || old(self).pointer.pressed is Some || old(self).pointer.hovered@.len() > 0
                || old(self).tooltips.visible is Some),
            final(self).focus == old(self).focus,
            final(self).membership == old(self).membership,
            final(self).pointer.scrollbar_states == old(self).pointer.scrollbar_states,
    {
        let drag_over_changed = self.pointer.drag_over.is_some();
        let pressed_changed = self.pointer.pressed.is_some();
        let hover_changed = self.pointer.hovered.len() > 0;
        let source_changed = match self.pointer.dragging {
            Some(current) => current != source,
            None => true,
        };
        let tooltip_changed = self.clear_tooltip();
        self.pointer.drag_over = None;
        self.pointer.pressed = None;
        self.pointer.dragging = Some(source);
        self.pointer.hovered.clear();
        self.text.selecting_input = None;
        self.text.static_text_gesture = None;
        source_changed || drag_over_changed || pressed_changed || hover_changed || tooltip_changed
    }

    /// A drag from outside the window entered it: the press, element drag, hover, text gestures
    /// and tooltip end. Whether anything changed.
    pub fn begin_external_drag(&mut self) -> (changed: bool)
        ensures
            final(self).pointer.external_drag_active,
            final(self).pointer.dragging is None,
            final(self).pointer.pressed is None,
            final(self).pointer.hovered@ == Set::<ElementId>::empty(),
            final(self).text.selecting_input is None,
            final(self).text.static_text_gesture is None,
            final(self).tooltips.visible is None && final(self).tooltips.hovered is None,
            changed == (!old(self).pointer.external_drag_active || old(self).pointer.dragging is Some
                || old(self).pointer.pressed is Some || old(self).pointer.hovered@.len() > 0
                || old(self).tooltips.visible is Some),
            final(self).pointer.drag_over == old(self).pointer.drag_over,
            final(self).focus == old(self).focus,
            final(self).membership == old(self).membership,
    {
        let was_inactive = !self.pointer.external_drag_active;
        let dragging_changed = self.pointer.dragging.is_some();
        let pressed_changed = self.pointer.pressed.is_some();
        let hover_changed = self.pointer.hovered.len() > 0;
        let tooltip_changed = self.clear_tooltip();
        self.pointer.external_drag_active = true;
        self.pointer.dragging = None;
        self.pointer.pressed = None;
        self.pointer.hovered.clear();
        self.text.selecting_input = None;
        self.text.static_text_gesture = None;
        was_inactive || dragging_changed || pressed_changed || hover_changed || tooltip_changed
    }

    /// The drag in progress (of an element or from outside) ended; whether anything changed.
    pub fn end_drag(&mut self) -> (changed: bool)
        ensures
            final(self).pointer.dragging is None,
            !final(self).pointer.external_drag_active,
            final(self).pointer.drag_over is None,
            changed == (old(self).pointer.dragging is Some || old(self).pointer.external_drag_active
                || old(self).pointer.drag_over is Some),
            final(self).pointer.pressed == old(self).pointer.pressed,
            final(self).pointer.hovered == old(self).pointer.hovered,
            final(self).text == old(self).text,
            final(self).tooltips == old(self).tooltips,
            final(self).focus == old(self).focus,
    {
        let changed = self.pointer.dragging.is_some() || self.pointer.external_drag_active || self.pointer.drag_over.is_some();
        self.pointer.dragging = None;
        self.pointer.external_drag_active = false;
        self.pointer.drag_over = None;
        changed
    }
}


/// Arrow keys move one radio along the focused radio group, wrapping at its ends: when `f` is at
/// position `p` among the group's enabled radios (in document order, outside nested groups), the
/// forward key goes to the radio after it (the first after the last) and the backward key to the
/// radio before it (the last before the first).
pub proof fn lemma_adjacent_radio_moves_one_step(root: Element, f: ElementId, group: Element, p: int)
    requires
        first_match(postorder(root, keep_shown()), group_containing(Grouping::Radios, f)) == Some(group),
        first_position_at(
            navigable_ids(preorder(group, keep_group_scope(Grouping::Radios, group.runtime_id)), Grouping::Radios), f, p),
    ensures
        ({
            let ids = navigable_ids(preorder(group, keep_group_scope(Grouping::Radios, group.runtime_id)), Grouping::Radios);
            &&& spec_adjacent_radio(root, Some(f), false) == Some(ids[if p + 1 < ids.len() { p + 1 } else { 0 }])
            &&& spec_adjacent_radio(root, Some(f), true) == Some(ids[if p > 0 { p - 1 } else { ids.len() - 1 }])
        }),
{
    let s = preorder(group, keep_group_scope(Grouping::Radios, group.runtime_id));
    lemma_neighbor_fold_records_neighbors(s, Grouping::Radios, f);
    let ids = navigable_ids(s, Grouping::Radios);
    assert(ids.contains(f)) by { assert(ids[p] == f); }
    assert(no_neighbors() == (GroupNeighbors { first: None, previous: None, next: None, last: None, found_focus: false }));
}

} // verus!
