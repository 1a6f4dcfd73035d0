use vstd::prelude::*;
use std::collections::HashSet;

verus! {

/// Golden-ratio increment applied to the child index before mixing.
pub const MIX_INCREMENT: u64 = 0x9e37_79b9_7f4a_7c15;
/// First SplitMix64 multiplier.
pub const MIX_MULTIPLIER_1: u64 = 0xbf58_476d_1ce4_e5b9;
/// Second SplitMix64 multiplier.
pub const MIX_MULTIPLIER_2: u64 = 0x94d0_49bb_1331_11eb;

/// The SplitMix64 finalizer of `parent ^ (child + increment)`.
pub open spec fn spec_mix_id(parent: u64, child: u64) -> u64 {
    let v0 = parent ^ vstd::wrapping::u64_specs::wrapping_add(child, MIX_INCREMENT);
    let v1 = vstd::wrapping::u64_specs::wrapping_mul(v0 ^ (v0 >> 30u64), MIX_MULTIPLIER_1);
    let v2 = vstd::wrapping::u64_specs::wrapping_mul(v1 ^ (v1 >> 27u64), MIX_MULTIPLIER_2);
    v2 ^ (v2 >> 31u64)
}

/// Derives the generated id of child `child` under the id `parent`.
pub fn mix_id(parent: u64, child: u64) -> (id: u64)
    ensures
        id == spec_mix_id(parent, child),
{
    let mut value = parent ^ child.wrapping_add(MIX_INCREMENT);
    value = (value ^ (value >> 30)).wrapping_mul(MIX_MULTIPLIER_1);
    value = (value ^ (value >> 27)).wrapping_mul(MIX_MULTIPLIER_2);
    value ^ (value >> 31)
}

/// The `k`-th candidate id generated for child `index` of the element with id `parent`: the
/// mixed id first, then, after each collision, the previous candidate mixed with the number of
/// collisions so far.
pub open spec fn probe(parent: u64, index: u64, k: nat) -> u64
    decreases k,
{
    if k == 0 {
        spec_mix_id(parent, index)
    } else {
        spec_mix_id(probe(parent, index, (k - 1) as nat), k as u64)
    }
}

/// `id` is the first candidate for child `index` of `parent` that `seen` does not hold.
pub open spec fn first_free_probe(parent: u64, index: u64, seen: Set<u64>, id: u64) -> bool {
    exists|k: nat| {
        &&& k <= u64::MAX
        &&& #[trigger] probe(parent, index, k) == id
        &&& !seen.contains(id)
        &&& forall|j: nat| j < k ==> seen.contains(#[trigger] probe(parent, index, j))
    }
}

/// The runtime id of child `index` of the element with id `parent`: its explicit id when it
/// declares one (already registered, so `seen` is left alone); otherwise the first generated
/// candidate not in `seen`, which is then recorded there. `None` only when every one of the
/// 2^64 candidates is taken.
pub fn assign_runtime_id(explicit: Option<u64>, parent: u64, index: u64, seen: &mut HashSet<u64>) -> (id: Option<u64>)
    ensures
        explicit is Some ==> id == explicit && final(seen)@ == old(seen)@,
        explicit is None ==> match id {
            Some(g) => first_free_probe(parent, index, old(seen)@, g) && final(seen)@ == old(seen)@.insert(g),
            None => final(seen)@ == old(seen)@
                && forall|k: nat| k <= u64::MAX ==> old(seen)@.contains(#[trigger] probe(parent, index, k)),
        },
{
    if let Some(id) = explicit {
        return Some(id);
    }
    let mut generated = mix_id(parent, index);
    let mut collisions: u64 = 0;
    while seen.contains(&generated)
        invariant
            explicit is None,
            *seen == *old(seen),
            generated == probe(parent, index, collisions as nat),
            forall|j: nat| j < collisions ==> seen@.contains(#[trigger] probe(parent, index, j)),
        decreases u64::MAX - collisions,
    {
        if collisions == u64::MAX {
            assert forall|k: nat| k <= u64::MAX implies old(seen)@.contains(#[trigger] probe(parent, index, k)) by {
                if k < collisions {
                } else {
                    assert(k == collisions);
                }
            }
            return None;
        }
        collisions = collisions + 1;
        generated = mix_id(generated, collisions);
    }
    seen.insert(generated);
    assert(first_free_probe(parent, index, old(seen)@, generated));
    Some(generated)
}

} // verus!
verus! {

proof fn lemma_wrapping_mul_truncates(x: u64, c: u64)
    ensures
        vstd::wrapping::u64_specs::wrapping_mul(x, c) == (x * c) as u64,
{
    assert(((x * c) % 0x1_0000_0000_0000_0000int) as u64 == (x * c) as u64) by (bit_vector);
    assert((x as nat * c as nat) == x * c);
}

proof fn lemma_first_multiplier_injective(a: u64, b: u64)
    requires
        vstd::wrapping::u64_specs::wrapping_mul(a, MIX_MULTIPLIER_1)
            == vstd::wrapping::u64_specs::wrapping_mul(b, MIX_MULTIPLIER_1),
    ensures
        a == b,
{
    lemma_wrapping_mul_truncates(a, MIX_MULTIPLIER_1);
    lemma_wrapping_mul_truncates(b, MIX_MULTIPLIER_1);
    assert(((a * 0xbf58_476d_1ce4_e5b9u64) as u64 * 0x96de_1b17_3f11_9089u64) as u64 == a) by (bit_vector);
    assert(((b * 0xbf58_476d_1ce4_e5b9u64) as u64 * 0x96de_1b17_3f11_9089u64) as u64 == b) by (bit_vector);
}

proof fn lemma_second_multiplier_injective(a: u64, b: u64)
    requires
        vstd::wrapping::u64_specs::wrapping_mul(a, MIX_MULTIPLIER_2)
            == vstd::wrapping::u64_specs::wrapping_mul(b, MIX_MULTIPLIER_2),
    ensures
        a == b,
{
    lemma_wrapping_mul_truncates(a, MIX_MULTIPLIER_2);
    lemma_wrapping_mul_truncates(b, MIX_MULTIPLIER_2);
    assert(((a * 0x94d0_49bb_1331_11ebu64) as u64 * 0x3196_42b2_d24d_8ec3u64) as u64 == a) by (bit_vector);
    assert(((b * 0x94d0_49bb_1331_11ebu64) as u64 * 0x3196_42b2_d24d_8ec3u64) as u64 == b) by (bit_vector);
}

/// Generated ids are path-stable and collision-free among siblings: for one parent id, two
/// child indices give the same generated id only when they are the same index.
pub proof fn lemma_mix_id_injective(parent: u64, a: u64, b: u64)
    requires
        spec_mix_id(parent, a) == spec_mix_id(parent, b),
    ensures
        a == b,
{
    let wa = vstd::wrapping::u64_specs::wrapping_add(a, MIX_INCREMENT);
    let wb = vstd::wrapping::u64_specs::wrapping_add(b, MIX_INCREMENT);
    let a0 = parent ^ wa;
    let b0 = parent ^ wb;
    let a1 = vstd::wrapping::u64_specs::wrapping_mul(a0 ^ (a0 >> 30u64), MIX_MULTIPLIER_1);
    let b1 = vstd::wrapping::u64_specs::wrapping_mul(b0 ^ (b0 >> 30u64), MIX_MULTIPLIER_1);
    let a2 = vstd::wrapping::u64_specs::wrapping_mul(a1 ^ (a1 >> 27u64), MIX_MULTIPLIER_2);
    let b2 = vstd::wrapping::u64_specs::wrapping_mul(b1 ^ (b1 >> 27u64), MIX_MULTIPLIER_2);
    assert(a2 ^ (a2 >> 31u64) == b2 ^ (b2 >> 31u64) ==> a2 == b2) by (bit_vector);
    lemma_second_multiplier_injective(a1 ^ (a1 >> 27u64), b1 ^ (b1 >> 27u64));
    assert(a1 ^ (a1 >> 27u64) == b1 ^ (b1 >> 27u64) ==> a1 == b1) by (bit_vector);
    lemma_first_multiplier_injective(a0 ^ (a0 >> 30u64), b0 ^ (b0 >> 30u64));
    assert(a0 ^ (a0 >> 30u64) == b0 ^ (b0 >> 30u64) ==> a0 == b0) by (bit_vector);
    assert(parent ^ wa == parent ^ wb ==> wa == wb) by (bit_vector);
}

} // verus!
