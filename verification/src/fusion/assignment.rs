use vstd::prelude::*;

use std::collections::HashMap;

use crate::net::tracker::Tracker;
use crate::skeleton::BoneId;

verus! {

broadcast use vstd::std_specs::hash::group_hash_axioms;

/// The ids of `ids`, in ascending order.
pub open spec fn ascending_ids(ids: Set<u8>) -> Seq<u8> {
    Seq::new(256, |i: int| i as u8).filter(|k: u8| ids.contains(k))
}

/// The map that assigns `ids[i]` to `order[i]`, one after the other, for every
/// `i` that both sequences have.
pub open spec fn assign_in_order(ids: Seq<u8>, order: Seq<u8>) -> Map<u8, u8>
    decreases ids.len(),
{
    if ids.len() == 0 {
        Map::empty()
    } else {
        let m = assign_in_order(ids.drop_last(), order);
        let i = ids.len() - 1;
        if i < order.len() {
            m.insert(ids[i], order[i])
        } else {
            m
        }
    }
}

/// The map as a lookup: `Some(value)` for an assigned key, `None` otherwise.
pub open spec fn lookup(m: Map<u8, u8>, k: u8) -> Option<u8> {
    if m.contains_key(k) {
        Some(m[k])
    } else {
        None
    }
}

/// Bones that trackers are given, in order of their ids, by `auto_assign`.
pub open spec fn priority_bones() -> Seq<u8> {
    seq![2u8, 32, 42, 4, 11, 21, 0, 12]
}

/// The ids of the trackers of `trackers`, ascending.
pub fn sorted_tracker_ids(trackers: &HashMap<u8, Tracker>) -> (ids: Vec<u8>)
    ensures
        ids@ == ascending_ids(trackers@.dom()),
{
    let mut ids: Vec<u8> = Vec::new();
    let mut b: u16 = 0;
    while b < 256
        invariant
            b <= 256,
            ids@ == Seq::new(b as nat, |i: int| i as u8).filter(
                |k: u8| trackers@.dom().contains(k),
            ),
        decreases 256 - b,
    {
        let id = b as u8;
        let ghost pred = |k: u8| trackers@.dom().contains(k);
        let ghost prev = Seq::new(b as nat, |i: int| i as u8);
        let ghost next = Seq::new((b + 1) as nat, |i: int| i as u8);
        assert(next.drop_last() =~= prev);
        assert(next.last() == id);
        proof {
            reveal_with_fuel(Seq::filter, 1);
        }
        if trackers.contains_key(&id) {
            ids.push(id);
        }
        b = b + 1;
    }
    ids
}

/// Assigns `ids[i]` to `order[i]` in `map`, one after the other, for every `i`
/// that both have.
pub fn assign_ids_in_order(map: &mut HashMap<u8, u8>, ids: &Vec<u8>, order: &[u8])
    ensures
        final(map)@ == old(map)@.union_prefer_right(assign_in_order(ids@, order@)),
{
    let mut i: usize = 0;
    while i < ids.len()
        invariant
            i <= ids.len(),
            map@ == old(map)@.union_prefer_right(assign_in_order(ids@.take(i as int), order@)),
        decreases ids.len() - i,
    {
        assert(ids@.take(i + 1).drop_last() =~= ids@.take(i as int));
        if i < order.len() {
            map.insert(ids[i], order[i]);
            assert(map@ =~= old(map)@.union_prefer_right(
                assign_in_order(ids@.take(i + 1), order@),
            ));
        }
        i = i + 1;
    }
    assert(ids@.take(ids.len() as int) =~= ids@);
}

/// Mapping from tracker id to the bone it drives.
pub struct TrackerBoneAssigner {
    pub map: HashMap<u8, BoneId>,
}

impl Default for TrackerBoneAssigner {
    /// The default assignment of `new`.
    fn default() -> (a: Self)
        ensures
            a.map@ == map![1u8 => 0u8, 2u8 => 2u8, 3u8 => 4u8, 4u8 => 31u8, 5u8 => 41u8, 6u8 => 10u8, 7u8 => 20u8],
    {
        Self::new()
    }
}

impl TrackerBoneAssigner {
    /// The default assignment: trackers 1..7 drive hip, chest, head, left and
    /// right upper arm, left and right upper leg.
    pub fn new() -> (a: Self)
        ensures
            a.map@ == map![1u8 => 0u8, 2u8 => 2u8, 3u8 => 4u8, 4u8 => 31u8, 5u8 => 41u8, 6u8 => 10u8, 7u8 => 20u8],
    {
        let mut map = HashMap::new();
        map.insert(1, 0);
        map.insert(2, 2);
        map.insert(3, 4);
        map.insert(4, 31);
        map.insert(5, 41);
        map.insert(6, 10);
        map.insert(7, 20);
        assert(map@ =~= map![1u8 => 0u8, 2u8 => 2u8, 3u8 => 4u8, 4u8 => 31u8, 5u8 => 41u8, 6u8 => 10u8, 7u8 => 20u8]);
        Self { map }
    }

    /// The bone the tracker drives, if it has one.
    pub fn get_bone_id(&self, tracker_id: u8) -> (b: Option<BoneId>)
        ensures
            b == lookup(self.map@, tracker_id),
    {
        match self.map.get(&tracker_id) {
            Some(b) => Some(*b),
            None => None,
        }
    }

    /// Makes the tracker drive the bone, replacing its previous bone.
    pub fn set_assignment(&mut self, tracker_id: u8, bone_id: BoneId)
        ensures
            final(self).map@ == old(self).map@.insert(tracker_id, bone_id),
    {
        self.map.insert(tracker_id, bone_id);
    }

    /// Forgets all assignments and gives the trackers, in ascending order of
    /// id, the bones chest, left forearm, right forearm, head, left leg, right
    /// leg, hip and left foot; trackers beyond the eighth get no bone.
    pub fn auto_assign(&mut self, trackers: &HashMap<u8, Tracker>)
        ensures
            final(self).map@ == assign_in_order(ascending_ids(trackers@.dom()), priority_bones()),
    {
        let sorted_ids = sorted_tracker_ids(trackers);
        let bones: [u8; 8] = [2, 32, 42, 4, 11, 21, 0, 12];
        assert(bones@ =~= priority_bones());
        self.map.clear();
        assign_ids_in_order(&mut self.map, &sorted_ids, &bones);
        assert(self.map@ =~= assign_in_order(ascending_ids(trackers@.dom()), priority_bones()));
    }
}

/// Reading an assignment gives back the bone last set for that tracker, and
/// setting one tracker leaves the others as they were.
pub proof fn lemma_set_then_get(m: Map<u8, u8>, t: u8, b: u8, other: u8)
    ensures
        lookup(m.insert(t, b), t) == Some(b),
        other != t ==> lookup(m.insert(t, b), other) == lookup(m, other),
{
}

/// In an assignment made in order of strictly ascending ids, the `i`-th id gets
/// the `i`-th bone, and only those ids are assigned.
pub proof fn lemma_assign_in_order(ids: Seq<u8>, order: Seq<u8>)
    requires
        forall|i: int, j: int| 0 <= i < j < ids.len() ==> ids[i] < ids[j],
    ensures
        forall|i: int|
            0 <= i < ids.len() && i < order.len() ==> #[trigger] lookup(
                assign_in_order(ids, order),
                ids[i],
            ) == Some(order[i]),
        forall|t: u8|
            #[trigger] assign_in_order(ids, order).contains_key(t) ==> exists|i: int|
                0 <= i < ids.len() && i < order.len() && ids[i] == t,
    decreases ids.len(),
{
    if ids.len() > 0 {
        let prefix = ids.drop_last();
        lemma_assign_in_order(prefix, order);
        let n = ids.len() - 1;
        assert forall|t: u8| #[trigger]
            assign_in_order(ids, order).contains_key(t) implies exists|i: int|
            0 <= i < ids.len() && i < order.len() && ids[i] == t by {
            if t != ids[n] || n >= order.len() {
                assert(assign_in_order(prefix, order).contains_key(t));
                let i = choose|i: int| 0 <= i < prefix.len() && i < order.len() && prefix[i] == t;
                assert(ids[i] == t);
            }
        }
        assert forall|i: int| 0 <= i < ids.len() && i < order.len() implies #[trigger] lookup(
            assign_in_order(ids, order),
            ids[i],
        ) == Some(order[i]) by {
            if i < n {
                assert(prefix[i] == ids[i]);
                assert(lookup(assign_in_order(prefix, order), prefix[i]) == Some(order[i]));
                assert(ids[i] != ids[n]);
            }
        }
    }
}

/// `ascending_ids` lists every id of the set exactly once, in strictly
/// ascending order.
pub proof fn lemma_ascending_ids(ids: Set<u8>)
    ensures
        forall|i: int, j: int|
            0 <= i < j < ascending_ids(ids).len() ==> ascending_ids(ids)[i] < ascending_ids(
                ids,
            )[j],
        forall|k: u8| ids.contains(k) <==> ascending_ids(ids).contains(k),
{
    lemma_filter_ascending(256, ids);
}

proof fn lemma_filter_ascending(n: nat, ids: Set<u8>)
    requires
        n <= 256,
    ensures
        ({
            let f = Seq::new(n, |i: int| i as u8).filter(|k: u8| ids.contains(k));
            &&& forall|i: int, j: int| 0 <= i < j < f.len() ==> f[i] < f[j]
            &&& forall|i: int| 0 <= i < f.len() ==> f[i] < n
            &&& forall|k: u8| (ids.contains(k) && k < n) <==> f.contains(k)
        }),
    decreases n,
{
    reveal_with_fuel(Seq::filter, 1);
    if n > 0 {
        lemma_filter_ascending((n - 1) as nat, ids);
        let s = Seq::new(n, |i: int| i as u8);
        assert(s.drop_last() =~= Seq::new((n - 1) as nat, |i: int| i as u8));
        let f = s.filter(|k: u8| ids.contains(k));
        let g = Seq::new((n - 1) as nat, |i: int| i as u8).filter(|k: u8| ids.contains(k));
        assert(s.last() == (n - 1) as u8);
        assert forall|k: u8| (ids.contains(k) && k < n) <==> f.contains(k) by {
            if ids.contains(k) && k < n {
                if k < n - 1 {
                    assert(g.contains(k));
                    let j = choose|j: int| 0 <= j < g.len() && g[j] == k;
                    assert(f[j] == k);
                } else {
                    assert(f[f.len() - 1] == k);
                }
            }
            if f.contains(k) {
                let j = choose|j: int| 0 <= j < f.len() && f[j] == k;
                if j < g.len() {
                    assert(g.contains(k));
                }
            }
        }
    }
}


/// Auto-assignment gives the `i`-th smallest tracker id the `i`-th bone of the
/// order, for each of the first `order.len()` trackers, and assigns no other
/// tracker.
pub proof fn lemma_auto_assign_ranks(ids: Set<u8>, order: Seq<u8>)
    ensures
        forall|i: int|
            0 <= i < ascending_ids(ids).len() && i < order.len() ==> #[trigger] lookup(
                assign_in_order(ascending_ids(ids), order),
                ascending_ids(ids)[i],
            ) == Some(order[i]),
        forall|t: u8|
            #[trigger] assign_in_order(ascending_ids(ids), order).contains_key(t) ==> ids.contains(t),
{
    lemma_ascending_ids(ids);
    lemma_assign_in_order(ascending_ids(ids), order);
    assert forall|t: u8| #[trigger]
        assign_in_order(ascending_ids(ids), order).contains_key(t) implies ids.contains(t) by {
        let i = choose|i: int|
            0 <= i < ascending_ids(ids).len() && i < order.len() && ascending_ids(ids)[i] == t;
        assert(ascending_ids(ids).contains(t));
    }
}

/// Auto-assignment by priority: the smallest tracker id gets the chest (2),
/// the next the left forearm (32), then the right forearm (42), the head (4),
/// the left leg (11), the right leg (21), the hip (0) and the left foot (12);
/// ids after the eighth smallest get no bone, and no other id is assigned.
pub proof fn lemma_priority_assignment(ids: Set<u8>)
    ensures
        forall|i: int, j: int|
            0 <= i < j < ascending_ids(ids).len() ==> ascending_ids(ids)[i] < ascending_ids(ids)[j],
        forall|k: u8| ids.contains(k) <==> ascending_ids(ids).contains(k),
        forall|i: int|
            0 <= i < ascending_ids(ids).len() && i < 8 ==> #[trigger] lookup(
                assign_in_order(ascending_ids(ids), priority_bones()),
                ascending_ids(ids)[i],
            ) == Some(seq![2u8, 32, 42, 4, 11, 21, 0, 12][i]),
        forall|i: int|
            8 <= i < ascending_ids(ids).len() ==> #[trigger] lookup(
                assign_in_order(ascending_ids(ids), priority_bones()),
                ascending_ids(ids)[i],
            ) is None,
        forall|t: u8|
            #[trigger] lookup(assign_in_order(ascending_ids(ids), priority_bones()), t) is Some
                ==> ids.contains(t),
{
    let asc = ascending_ids(ids);
    let order = priority_bones();
    assert(order =~= seq![2u8, 32, 42, 4, 11, 21, 0, 12]);
    lemma_ascending_ids(ids);
    lemma_assign_in_order(asc, order);
    assert forall|i: int| 8 <= i < asc.len() implies #[trigger] lookup(assign_in_order(asc, order), asc[i])
        is None by {
        if assign_in_order(asc, order).contains_key(asc[i]) {
            let j = choose|j: int| 0 <= j < asc.len() && j < order.len() && asc[j] == asc[i];
            assert(j < i);
        }
    }
    assert forall|t: u8| #[trigger] lookup(assign_in_order(asc, order), t) is Some implies ids.contains(t) by {
        let j = choose|j: int| 0 <= j < asc.len() && j < order.len() && asc[j] == t;
        assert(asc.contains(t));
    }
}

} // verus!
