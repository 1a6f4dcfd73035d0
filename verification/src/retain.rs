use vstd::prelude::*;
use std::collections::{HashMap, HashSet};
use crate::element::ElementId;
use vstd::std_specs::iter::IteratorSpec;

verus! {

broadcast use {vstd::std_specs::hash::group_hash_axioms, vstd::std_specs::vec::group_vec_axioms};

/// The members of a set, listed once each in the order the set walks them.
pub(crate) fn set_members(set: &HashSet<ElementId>) -> (members: Vec<ElementId>)
    ensures
        members@.to_set() == set@,
        members@.no_duplicates(),
{
    let mut members: Vec<ElementId> = Vec::new();
    let ghost keys = IteratorSpec::remaining(&set.iter()).unref();
    for id in it: set.iter()
        invariant
            it.seq().unref() == keys,
            members@ == keys.take(it.index() as int),
    {
        proof {
            assert(keys.take(it.index() + 1) == keys.take(it.index() as int).push(*it.seq()[it.index() as int]));
        }
        members.push(*id);
    }
    proof {
        assert(members@ == keys);
    }
    members
}

/// Drops from `set` every id that `keep` lacks.
pub fn retain_ids(set: &mut HashSet<ElementId>, keep: &HashSet<ElementId>)
    ensures
        final(set)@ == old(set)@.intersect(keep@),
{
    let members = set_members(set);
    let ghost original = set@;
    let mut i: usize = 0;
    while i < members.len()
        invariant
            i <= members.len(),
            members@.to_set() == original,
            members@.no_duplicates(),
            set@ == original.difference(members@.take(i as int).to_set().difference(keep@)),
        decreases members.len() - i,
    {
        let id = members[i];
        if !keep.contains(&id) {
            set.remove(&id);
        }
        proof {
            assert(members@.take(i + 1).to_set() == members@.take(i as int).to_set().insert(id)) by {
                assert(members@.take(i + 1) == members@.take(i as int).push(id));
                members@.take(i as int).lemma_push_to_set_commute(id);
            }
            assert(set@ =~= original.difference(members@.take(i + 1).to_set().difference(keep@)));
        }
        i += 1;
    }
    proof {
        assert(members@.take(members.len() as int) == members@);
        assert(set@ =~= original.intersect(keep@));
    }
}

/// The keys of a map, listed once each in the order the map walks them.
pub(crate) fn map_keys<V>(map: &HashMap<ElementId, V>) -> (keys: Vec<ElementId>)
    ensures
        keys@.to_set() == map@.dom(),
        keys@.no_duplicates(),
{
    let mut keys: Vec<ElementId> = Vec::new();
    let ghost walk = IteratorSpec::remaining(&map.keys()).unref();
    for id in it: map.keys()
        invariant
            it.seq().unref() == walk,
            keys@ == walk.take(it.index() as int),
    {
        proof {
            assert(walk.take(it.index() + 1) == walk.take(it.index() as int).push(*it.seq()[it.index() as int]));
        }
        keys.push(*id);
    }
    proof {
        assert(keys@ == walk);
    }
    keys
}

/// Drops from `map` every entry whose key `keep` lacks.
pub fn retain_keys<V>(map: &mut HashMap<ElementId, V>, keep: &HashSet<ElementId>)
    ensures
        final(map)@ == old(map)@.restrict(keep@),
{
    let keys = map_keys(map);
    let ghost original = map@;
    let mut i: usize = 0;
    while i < keys.len()
        invariant
            i <= keys.len(),
            keys@.to_set() == original.dom(),
            keys@.no_duplicates(),
            map@ == original.remove_keys(keys@.take(i as int).to_set().difference(keep@)),
        decreases keys.len() - i,
    {
        let id = keys[i];
        if !keep.contains(&id) {
            map.remove(&id);
        }
        proof {
            assert(keys@.take(i + 1).to_set() == keys@.take(i as int).to_set().insert(id)) by {
                assert(keys@.take(i + 1) == keys@.take(i as int).push(id));
                keys@.take(i as int).lemma_push_to_set_commute(id);
            }
            assert(map@ =~= original.remove_keys(keys@.take(i + 1).to_set().difference(keep@)));
        }
        i += 1;
    }
    proof {
        assert(keys@.take(keys.len() as int) == keys@);
        assert(map@ =~= original.restrict(keep@));
    }
}

} // verus!
