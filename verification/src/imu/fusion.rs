use vstd::prelude::*;

use std::collections::HashMap;

use crate::fusion::assignment::{
    ascending_ids, assign_ids_in_order, assign_in_order, lemma_ascending_ids, lemma_assign_in_order,
    lookup, sorted_tracker_ids,
};
use crate::net::tracker::Tracker;

verus! {

broadcast use vstd::std_specs::hash::group_hash_axioms;

/// Bones that trackers are given, in order of their ids, by `Assigner::auto_assign`:
/// hip, chest, left and right upper leg, left and right leg, left and right foot.
pub open spec fn leg_first_bones() -> Seq<u8> {
    seq![0u8, 2, 10, 20, 11, 21, 12, 22]
}

/// Manages the assignment of tracker ids to bone ids.
#[derive(Debug)]
pub struct Assigner {
    assignments: HashMap<u8, u8>,
}

impl View for Assigner {
    type V = Map<u8, u8>;

    closed spec fn view(&self) -> Map<u8, u8> {
        self.assignments@
    }
}

impl Default for Assigner {
    /// An assigner with no assignment.
    fn default() -> (a: Self)
        ensures
            a@ == Map::<u8, u8>::empty(),
    {
        Assigner::new()
    }
}

impl Assigner {
    /// An assigner with no assignment.
    pub fn new() -> (a: Self)
        ensures
            a@ == Map::<u8, u8>::empty(),
    {
        Assigner { assignments: HashMap::new() }
    }

    /// Makes the tracker drive the bone, replacing its previous bone.
    pub fn set_assignment(&mut self, tracker_id: u8, bone_id: u8)
        ensures
            final(self)@ == old(self)@.insert(tracker_id, bone_id),
    {
        self.assignments.insert(tracker_id, bone_id);
    }

    /// The bone the tracker drives, if it has one.
    pub fn get_bone_id(&self, tracker_id: u8) -> (b: Option<u8>)
        ensures
            b == lookup(self@, tracker_id),
    {
        match self.assignments.get(&tracker_id) {
            Some(b) => Some(*b),
            None => None,
        }
    }

    /// Forgets all assignments and gives the trackers, in ascending order of
    /// id, the bones hip, chest, left upper leg, right upper leg, left leg,
    /// right leg, left foot and right foot; trackers beyond the eighth get none.
    pub fn auto_assign(&mut self, trackers: &HashMap<u8, Tracker>)
        ensures
            final(self)@ == assign_in_order(ascending_ids(trackers@.dom()), leg_first_bones()),
    {
        let sorted_ids = sorted_tracker_ids(trackers);
        let bone_order: [u8; 8] = [0, 2, 10, 20, 11, 21, 12, 22];
        assert(bone_order@ =~= leg_first_bones());
        self.assignments.clear();
        assign_ids_in_order(&mut self.assignments, &sorted_ids, &bone_order);
        assert(self.assignments@ =~= assign_in_order(
            ascending_ids(trackers@.dom()),
            leg_first_bones(),
        ));
    }
}

/// Leg-first auto-assignment: the smallest tracker id gets the hip (0), the
/// next the chest (2), then the left upper leg (10), the right upper leg (20),
/// the left leg (11), the right leg (21), the left foot (12) and the right
/// foot (22); ids after the eighth smallest get no bone, and no other id is
/// assigned.
pub proof fn lemma_leg_first_assignment(ids: Set<u8>)
    ensures
        forall|i: int|
            0 <= i < ascending_ids(ids).len() && i < 8 ==> #[trigger] lookup(
                assign_in_order(ascending_ids(ids), leg_first_bones()),
                ascending_ids(ids)[i],
            ) == Some(seq![0u8, 2, 10, 20, 11, 21, 12, 22][i]),
        forall|i: int|
            8 <= i < ascending_ids(ids).len() ==> #[trigger] lookup(
                assign_in_order(ascending_ids(ids), leg_first_bones()),
                ascending_ids(ids)[i],
            ) is None,
        forall|t: u8|
            #[trigger] lookup(assign_in_order(ascending_ids(ids), leg_first_bones()), t) is Some
                ==> ids.contains(t),
{
    let asc = ascending_ids(ids);
    let order = leg_first_bones();
    assert(order =~= seq![0u8, 2, 10, 20, 11, 21, 12, 22]);
    lemma_ascending_ids(ids);
    lemma_assign_in_order(asc, order);
    assert forall|i: int| 8 <= i < asc.len() implies #[trigger] lookup(assign_in_order(asc, order), asc[i])
        is None by {
        if assign_in_order(asc, order).contains_key(asc[i]) {
            let j = choose|j: int| 0 <= j < asc.len() && j < order.len() && asc[j] == asc[i];
            assert(j < i);
        }
    }
    assert forall|t: u8| #[trigger] lookup(assign_in_order(asc, order), t) is Some implies ids.contains(t) by {
        let j = choose|j: int| 0 <= j < asc.len() && j < order.len() && asc[j] == t;
        assert(asc.contains(t));
    }
}

} // verus!
