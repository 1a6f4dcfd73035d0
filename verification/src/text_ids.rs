use vstd::prelude::*;
use std::collections::{HashMap, HashSet};
use vstd::std_specs::iter::IteratorSpec;
use crate::element::ElementId;
use crate::registry::ACCESSIBILITY_ROOT_ID;
use crate::retain::{map_keys, set_members};

verus! {

broadcast use {vstd::std_specs::vec::group_vec_axioms, vstd::std_specs::hash::group_hash_axioms};

/// The candidate id `k` steps below `start`, wrapping below zero.
pub open spec fn step_back(start: u64, k: nat) -> u64 {
    if start >= k { (start - k) as u64 } else { (start + 0x1_0000_0000_0000_0000 - k) as u64 }
}

/// Ids a text run may not take: the accessibility root, any element id, any id already taken.
pub open spec fn taken_ids(element_ids: Set<ElementId>, text_ids: Map<ElementId, u64>) -> Set<u64> {
    set![ACCESSIBILITY_ROOT_ID].union(element_ids).union(text_ids.values())
}

/// Text run ids are distinct and none is the accessibility root.
pub open spec fn text_ids_wf(text_ids: Map<ElementId, u64>) -> bool {
    &&& text_ids.is_injective()
    &&& !text_ids.values().contains(ACCESSIBILITY_ROOT_ID)
}

proof fn lemma_step_back_distinct(start: u64, j: nat, k: nat)
    requires
        j < k,
        k < 0x1_0000_0000_0000_0000,
    ensures
        step_back(start, j) != step_back(start, k),
{
}

proof fn lemma_taken_len(element_ids: Set<ElementId>, text_ids: Map<ElementId, u64>)
    requires
        element_ids.finite(),
        text_ids.dom().finite(),
    ensures
        taken_ids(element_ids, text_ids).finite(),
        taken_ids(element_ids, text_ids).len() <= 1 + element_ids.len() + text_ids.dom().len(),
{
    text_ids.lemma_values_len();
    let root = set![ACCESSIBILITY_ROOT_ID];
    vstd::set_lib::lemma_len_union(root, element_ids);
    vstd::set_lib::lemma_len_union(root.union(element_ids), text_ids.values());
}

fn map_has_value(m: &HashMap<ElementId, u64>, value: u64) -> (found: bool)
    ensures
        found == m@.values().contains(value),
{
    let ghost walk = IteratorSpec::remaining(&m.values()).unref();
    let mut found = false;
    for v in it: m.values()
        invariant
            it.seq().unref() == walk,
            found == walk.take(it.index() as int).contains(value),
    {
        proof {
            let i = it.index() as int;
            assert(walk.take(i + 1) == walk.take(i).push(walk[i]));
            assert(walk.take(i + 1).contains(value) == (walk.take(i).contains(value) || walk[i] == value)) by {
                if walk.take(i + 1).contains(value) {
                    let j = choose|j: int| 0 <= j < i + 1 && #[trigger] walk.take(i + 1)[j] == value;
                    if j < i {
                        assert(walk.take(i)[j] == value);
                    }
                }
                if walk.take(i).contains(value) {
                    let j = choose|j: int| 0 <= j < i && #[trigger] walk.take(i)[j] == value;
                    assert(walk.take(i + 1)[j] == value);
                }
                if walk[i] == value {
                    assert(walk.take(i + 1)[i] == value);
                }
            }
        }
        if *v == value {
            found = true;
        }
    }
    proof {
        assert(walk.take(walk.len() as int) == walk);
        assert(walk.to_set() == m@.values());
        if walk.contains(value) {
            assert(walk.to_set().contains(value));
        }
        if m@.values().contains(value) {
            assert(walk.to_set().contains(value));
        }
    }
    found
}

/// The members of a hash set form a finite set.
fn finite_members(set: &HashSet<ElementId>)
    ensures
        set@.finite(),
{
    let walk = set.iter();
    proof {
        vstd::seq_lib::seq_to_set_is_finite(IteratorSpec::remaining(&walk).unref());
    }
}

/// `reserved` as a set.
pub open spec fn reserved_set(reserved: Option<u64>) -> Set<u64> {
    match reserved {
        Some(id) => set![id],
        None => Set::empty(),
    }
}

/// Ids a new auxiliary node may not take: those of `taken_ids` and `reserved`.
pub open spec fn unavailable_ids(element_ids: Set<ElementId>, text_ids: Map<ElementId, u64>, reserved: Option<u64>) -> Set<u64> {
    taken_ids(element_ids, text_ids).union(reserved_set(reserved))
}

proof fn lemma_unavailable_len(element_ids: Set<ElementId>, text_ids: Map<ElementId, u64>, reserved: Option<u64>)
    requires
        element_ids.finite(),
        text_ids.dom().finite(),
    ensures
        unavailable_ids(element_ids, text_ids, reserved).finite(),
        unavailable_ids(element_ids, text_ids, reserved).len() <= 2 + element_ids.len() + text_ids.dom().len(),
{
    lemma_taken_len(element_ids, text_ids);
    vstd::set_lib::lemma_len_union(taken_ids(element_ids, text_ids), reserved_set(reserved));
}

/// Takes the first available id at or below `*next_id` (wrapping), moving `*next_id` past it.
pub fn fresh_accessibility_id(
    element_ids: &HashSet<ElementId>,
    text_ids: &HashMap<ElementId, u64>,
    reserved: Option<u64>,
    next_id: &mut u64,
) -> (id: u64)
    requires
        element_ids@.len() + text_ids@.len() + 2 < 0x1_0000_0000_0000_0000,
    ensures
        !unavailable_ids(element_ids@, text_ids@, reserved).contains(id),
{
    finite_members(element_ids);
    let ghost taken = unavailable_ids(element_ids@, text_ids@, reserved);
    let ghost start = *next_id;
    let ghost mut tried: Set<u64> = Set::empty();
    proof {
        lemma_unavailable_len(element_ids@, text_ids@, reserved);
    }
    loop
        invariant
            taken == unavailable_ids(element_ids@, text_ids@, reserved),
            taken.finite(),
            taken.len() < 0x1_0000_0000_0000_0000,
            tried.finite(),
            tried.subset_of(taken),
            *next_id == step_back(start, tried.len()),
            forall|t: u64| #[trigger] tried.contains(t) ==> exists|j: nat| j < tried.len() && t == step_back(start, j),
        decreases taken.len() - tried.len(),
    {
        let candidate = *next_id;
        *next_id = next_id.wrapping_sub(1);
        let is_reserved = match reserved {
            Some(r) => r == candidate,
            None => false,
        };
        if candidate != ACCESSIBILITY_ROOT_ID && !element_ids.contains(&candidate) && !map_has_value(text_ids, candidate)
            && !is_reserved {
            return candidate;
        }
        proof {
            vstd::set_lib::lemma_len_subset(tried, taken);
            let k = tried.len();
            assert(taken.contains(candidate));
            if tried.contains(candidate) {
                let j = choose|j: nat| j < tried.len() && candidate == step_back(start, j);
                lemma_step_back_distinct(start, j, k);
            }
            tried = tried.insert(candidate);
            assert(tried.len() == k + 1);
            vstd::set_lib::lemma_len_subset(tried, taken);
            assert forall|t: u64| #[trigger] tried.contains(t) implies exists|j: nat| j < tried.len() && t == step_back(start, j) by {
                if t == candidate {
                    assert(t == step_back(start, k));
                } else {
                    let j = choose|j: nat| j < k && t == step_back(start, j);
                    assert(j < tried.len());
                }
            }
        }
    }
}

/// The text run ids that survive: those whose owner is still listed and that no element took.
pub open spec fn kept_text_ids(text_ids: Map<ElementId, u64>, owners: Set<ElementId>, element_ids: Set<ElementId>)
    -> Map<ElementId, u64>
{
    text_ids.restrict(Set::new(|k: ElementId| owners.contains(k) && !element_ids.contains(text_ids[k])))
}

proof fn lemma_insert_fresh_value(m: Map<ElementId, u64>, k: ElementId, v: u64)
    requires
        m.is_injective(),
        !m.values().contains(v),
    ensures
        m.insert(k, v).is_injective(),
{
    let n = m.insert(k, v);
    assert forall|a: ElementId, b: ElementId| n.dom().contains(a) && n.dom().contains(b) && a != b implies n[a] != n[b] by {
        if a != k && b != k {
            assert(m.dom().contains(a) && m.dom().contains(b));
        } else if a == k {
            assert(m.dom().contains(b));
            assert(m.values().contains(m[b]));
        } else {
            assert(m.dom().contains(a));
            assert(m.values().contains(m[a]));
        }
    }
}

/// Gives each owner in `owners` (text inputs and selectable leaves) the id of its text run:
/// an id whose owner is gone, or that an element now uses, is dropped; the others are kept; each
/// owner without one gets a fresh id, found by counting down from `*next_id` (wrapping) past the
/// accessibility root, element ids and ids in use. Which fresh id an owner gets depends on the
/// order the set is walked in; that every owner gets one, that they are distinct and that none
/// is the root or an element id does not.
pub fn sync_accessibility_text_ids(
    owners: &HashSet<ElementId>,
    element_ids: &HashSet<ElementId>,
    text_ids: &mut HashMap<ElementId, u64>,
    next_id: &mut u64,
)
    requires
        text_ids_wf(old(text_ids)@),
        element_ids@.len() + owners@.len() + 2 < 0x1_0000_0000_0000_0000,
    ensures
        final(text_ids)@.dom() == owners@,
        text_ids_wf(final(text_ids)@),
        forall|k: ElementId| #[trigger] final(text_ids)@.contains_key(k) ==> !element_ids@.contains(final(text_ids)@[k]),
        forall|k: ElementId| #[trigger] kept_text_ids(old(text_ids)@, owners@, element_ids@).contains_key(k)
            ==> final(text_ids)@[k] == old(text_ids)@[k],
{
    finite_members(owners);
    finite_members(element_ids);
    let ghost original = text_ids@;
    let ghost kept = kept_text_ids(original, owners@, element_ids@);
    let keys = map_keys(text_ids);
    let mut i: usize = 0;
    while i < keys.len()
        invariant
            i <= keys.len(),
            keys@.to_set() == original.dom(),
            text_ids@ == original.restrict(original.dom().difference(
                keys@.take(i as int).to_set().difference(kept.dom()))),
            kept == kept_text_ids(original, owners@, element_ids@),
        decreases keys.len() - i,
    {
        let k = keys[i];
        proof {
            assert(keys@.contains(k));
            assert(keys@.to_set().contains(k));
        }
        let keep = match text_ids.get(&k) {
            Some(v) => owners.contains(&k) && !element_ids.contains(v),
            None => false,
        };
        if !keep {
            text_ids.remove(&k);
        }
        proof {
            assert(keys@.take(i + 1).to_set() == keys@.take(i as int).to_set().insert(k)) by {
                assert(keys@.take(i + 1) == keys@.take(i as int).push(k));
                keys@.take(i as int).lemma_push_to_set_commute(k);
            }
            assert(text_ids@ =~= original.restrict(original.dom().difference(
                keys@.take(i + 1).to_set().difference(kept.dom()))));
        }
        i += 1;
    }
    proof {
        assert(keys@.take(keys.len() as int) == keys@);
        assert(text_ids@ =~= kept);
        assert(text_ids@.is_injective()) by {
            assert forall|a: ElementId, b: ElementId| text_ids@.dom().contains(a) && text_ids@.dom().contains(b) && a != b
                implies text_ids@[a] != text_ids@[b] by {
                assert(original.dom().contains(a) && original.dom().contains(b));
            }
        }
        assert(!text_ids@.values().contains(ACCESSIBILITY_ROOT_ID)) by {
            if text_ids@.values().contains(ACCESSIBILITY_ROOT_ID) {
                let k = choose|k: ElementId| text_ids@.contains_key(k) && text_ids@[k] == ACCESSIBILITY_ROOT_ID;
                assert(original.values().contains(original[k]));
            }
        }
    }
    let members = set_members(owners);
    let mut j: usize = 0;
    while j < members.len()
        invariant
            j <= members.len(),
            members@.to_set() == owners@,
            owners@.finite(),
            element_ids@.finite(),
            element_ids@.len() + owners@.len() + 2 < 0x1_0000_0000_0000_0000,
            kept == kept_text_ids(original, owners@, element_ids@),
            kept.dom().subset_of(owners@),
            text_ids@.dom() == kept.dom().union(members@.take(j as int).to_set()),
            forall|k: ElementId| #[trigger] kept.contains_key(k) ==> text_ids@[k] == original[k],
            text_ids_wf(text_ids@),
            forall|k: ElementId| #[trigger] text_ids@.contains_key(k) ==> !element_ids@.contains(text_ids@[k]),
        decreases members.len() - j,
    {
        let owner = members[j];
        proof {
            assert(members@.contains(owner));
            assert(members@.to_set().contains(owner));
            assert(members@.take(j + 1).to_set() == members@.take(j as int).to_set().insert(owner)) by {
                assert(members@.take(j + 1) == members@.take(j as int).push(owner));
                members@.take(j as int).lemma_push_to_set_commute(owner);
            }
            assert forall|k: ElementId| #[trigger] members@.take(j as int).to_set().contains(k) implies owners@.contains(k) by {
                let x = choose|x: int| 0 <= x < members@.take(j as int).len() && members@.take(j as int)[x] == k;
                assert(members@[x] == k);
                assert(members@.to_set().contains(k));
            }
        }
        if !text_ids.contains_key(&owner) {
            proof {
                assert(text_ids@.dom().subset_of(owners@));
                vstd::set_lib::lemma_len_subset(text_ids@.dom(), owners@);
            }
            let id = fresh_accessibility_id(element_ids, text_ids, None, next_id);
            proof {
                assert(!text_ids@.values().contains(id));
                lemma_insert_fresh_value(text_ids@, owner, id);
            }
            text_ids.insert(owner, id);
        }
        proof {
            assert(text_ids@.dom() =~= kept.dom().union(members@.take(j + 1).to_set()));
        }
        j += 1;
    }
    proof {
        assert(members@.take(members.len() as int) == members@);
        assert(text_ids@.dom() =~= owners@);
    }
}

} // verus!
