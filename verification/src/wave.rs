//! The integer skeleton of the wave patterns: which bulbs a wave targets,
//! how the spin pattern groups them by ring, and which neighbours a spinning
//! bulb takes its value from. The wave values themselves are computed by the
//! caller in floating point.

use vstd::prelude::*;

use crate::topology::BulbId;

verus! {

/// `id` is among `ids`.
pub open spec fn contains_id(ids: Seq<String>, id: Seq<char>) -> bool {
    exists|j: int| 0 <= j < ids.len() && (#[trigger] ids[j])@ == id
}

/// The indexes, in order, of the bulbs among the first `n` whose identifier
/// a wave targets.
pub open spec fn targeted(bulb_ids: Seq<String>, target_ids: Seq<String>, n: int) -> Seq<usize>
    decreases n,
{
    if n <= 0 {
        Seq::empty()
    } else {
        let rest = targeted(bulb_ids, target_ids, n - 1);
        if contains_id(target_ids, bulb_ids[n - 1]@) {
            rest.push((n - 1) as usize)
        } else {
            rest
        }
    }
}

/// The members, in order, of `ring` among the first `n` targets.
pub open spec fn ring_members_of(rings: Seq<u8>, targets: Seq<usize>, ring: u8, n: int) -> Seq<usize>
    decreases n,
{
    if n <= 0 {
        Seq::empty()
    } else {
        let rest = ring_members_of(rings, targets, ring, n - 1);
        if rings[targets[n - 1] as int] == ring {
            rest.push(targets[n - 1])
        } else {
            rest
        }
    }
}

fn has_id(ids: &Vec<BulbId>, id: &BulbId) -> (r: bool)
    ensures
        r == contains_id(ids@, id@),
{
    let mut j: usize = 0;
    while j < ids.len()
        invariant
            j <= ids@.len(),
            forall|k: int| 0 <= k < j ==> (#[trigger] ids@[k])@ != id@,
        decreases ids@.len() - j,
    {
        if ids[j] == *id {
            return true;
        }
        j = j + 1;
    }
    false
}

/// The indexes, in order, of the bulbs whose identifier is among
/// `target_ids`.
pub fn targets(bulb_ids: &Vec<BulbId>, target_ids: &Vec<BulbId>) -> (r: Vec<usize>)
    ensures
        r@ == targeted(bulb_ids@, target_ids@, bulb_ids@.len() as int),
{
    let mut r: Vec<usize> = Vec::new();
    let mut i: usize = 0;
    while i < bulb_ids.len()
        invariant
            i <= bulb_ids@.len(),
            r@ == targeted(bulb_ids@, target_ids@, i as int),
        decreases bulb_ids@.len() - i,
    {
        if has_id(target_ids, &bulb_ids[i]) {
            r.push(i);
        }
        i = i + 1;
    }
    r
}

/// The targets on `ring`, in order (the spin pattern turns each ring on its
/// own and leaves the center alone).
pub fn ring_members(rings: &Vec<u8>, targets: &Vec<usize>, ring: u8) -> (r: Vec<usize>)
    requires
        forall|k: int| 0 <= k < targets@.len() ==> (#[trigger] targets@[k]) < rings@.len(),
    ensures
        r@ == ring_members_of(rings@, targets@, ring, targets@.len() as int),
{
    let mut r: Vec<usize> = Vec::new();
    let mut k: usize = 0;
    while k < targets.len()
        invariant
            k <= targets@.len(),
            forall|j: int| 0 <= j < targets@.len() ==> (#[trigger] targets@[j]) < rings@.len(),
            r@ == ring_members_of(rings@, targets@, ring, k as int),
        decreases targets@.len() - k,
    {
        let t = targets[k];
        if rings[t] == ring {
            r.push(t);
        }
        k = k + 1;
    }
    r
}

/// The two positions on a ring of `n` members that a spinning bulb
/// interpolates between, given the whole part `floor` of its source
/// position: `floor` taken round the ring, and the one after it.
pub fn spin_neighbours(n: usize, floor: usize) -> (r: (usize, usize))
    requires
        n > 0,
    ensures
        r.0 == floor % n,
        r.1 == (floor % n + 1) % (n as int),
        r.0 < n && r.1 < n,
{
    let lo = floor % n;
    let hi = (lo + 1) % n;
    (lo, hi)
}

/// The targets of a wave are exactly the bulbs whose identifier equals one
/// of the target identifiers, wherever that one stands among them.
pub proof fn lemma_targets_are_the_named_bulbs(bulb_ids: Seq<String>, target_ids: Seq<String>, i: int)
    requires
        bulb_ids.len() <= usize::MAX,
        0 <= i < bulb_ids.len(),
    ensures
        targeted(bulb_ids, target_ids, bulb_ids.len() as int).contains(i as usize) <==> exists|
            j: int,
        |
            0 <= j < target_ids.len() && #[trigger] target_ids[j]@ == bulb_ids[i]@,
{
    lemma_targeted_members(bulb_ids, target_ids, bulb_ids.len() as int, i);
}

proof fn lemma_targeted_members(bulb_ids: Seq<String>, target_ids: Seq<String>, n: int, i: int)
    requires
        0 <= n <= bulb_ids.len() <= usize::MAX,
        0 <= i < bulb_ids.len(),
    ensures
        forall|k: int| 0 <= k < targeted(bulb_ids, target_ids, n).len() ==> (#[trigger] targeted(bulb_ids, target_ids, n)[k]) < n,
        targeted(bulb_ids, target_ids, n).contains(i as usize) <==> (i < n && exists|j: int|
            0 <= j < target_ids.len() && #[trigger] target_ids[j]@ == bulb_ids[i]@),
    decreases n,
{
    if n > 0 {
        lemma_targeted_members(bulb_ids, target_ids, n - 1, i);
        let rest = targeted(bulb_ids, target_ids, n - 1);
        if contains_id(target_ids, bulb_ids[n - 1]@) {
            let all = rest.push((n - 1) as usize);
            assert(all[all.len() - 1] == (n - 1) as usize);
            if i == n - 1 {
                assert(all.contains(i as usize));
            } else if all.contains(i as usize) {
                let k = choose|k: int| 0 <= k < all.len() && all[k] == i as usize;
                if k < rest.len() {
                    assert(rest[k] == i as usize);
                }
            }
            if rest.contains(i as usize) {
                let k = choose|k: int| 0 <= k < rest.len() && rest[k] == i as usize;
                assert(all[k] == i as usize);
            }
        } else if i == n - 1 {
            if rest.contains(i as usize) {
                let k = choose|k: int| 0 <= k < rest.len() && rest[k] == i as usize;
                assert(rest[k] < n - 1);
            }
        }
    }
}

/// The members of a ring are exactly the targets on that ring.
pub proof fn lemma_ring_members_are_the_targets_on_it(rings: Seq<u8>, targets: Seq<usize>, ring: u8, x: usize)
    requires
        forall|k: int| 0 <= k < targets.len() ==> (#[trigger] targets[k]) < rings.len(),
    ensures
        ring_members_of(rings, targets, ring, targets.len() as int).contains(x) <==> (
        targets.contains(x) && rings[x as int] == ring),
{
    lemma_ring_members_upto(rings, targets, ring, targets.len() as int, x);
    assert(targets.take(targets.len() as int) =~= targets);
}

proof fn lemma_ring_members_upto(rings: Seq<u8>, targets: Seq<usize>, ring: u8, n: int, x: usize)
    requires
        0 <= n <= targets.len(),
        forall|k: int| 0 <= k < targets.len() ==> (#[trigger] targets[k]) < rings.len(),
    ensures
        ring_members_of(rings, targets, ring, n).contains(x) <==> (targets.take(n).contains(x)
            && rings[x as int] == ring),
    decreases n,
{
    if n > 0 {
        lemma_ring_members_upto(rings, targets, ring, n - 1, x);
        let rest = ring_members_of(rings, targets, ring, n - 1);
        let before = targets.take(n - 1);
        let upto = targets.take(n);
        assert(upto =~= before.push(targets[n - 1]));
        assert(upto.contains(x) <==> (before.contains(x) || targets[n - 1] == x)) by {
            if upto.contains(x) {
                let k = choose|k: int| 0 <= k < upto.len() && upto[k] == x;
                if k < n - 1 {
                    assert(before[k] == x);
                }
            }
            if before.contains(x) {
                let k = choose|k: int| 0 <= k < before.len() && before[k] == x;
                assert(upto[k] == x);
            }
            if targets[n - 1] == x {
                assert(upto[n - 1] == x);
            }
        }
        if rings[targets[n - 1] as int] == ring {
            let all = rest.push(targets[n - 1]);
            assert(all.contains(x) <==> (rest.contains(x) || targets[n - 1] == x)) by {
                if all.contains(x) {
                    let k = choose|k: int| 0 <= k < all.len() && all[k] == x;
                    if k < rest.len() {
                        assert(rest[k] == x);
                    }
                }
                if rest.contains(x) {
                    let k = choose|k: int| 0 <= k < rest.len() && rest[k] == x;
                    assert(all[k] == x);
                }
                if targets[n - 1] == x {
                    assert(all[all.len() - 1] == x);
                }
            }
        }
    }
}

} // verus!
