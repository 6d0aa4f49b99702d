use std::collections::HashMap;

use aetherpose::fusion::assignment::TrackerBoneAssigner;
use aetherpose::imu::fusion::Assigner;
use aetherpose::net::tracker::Tracker;

fn trackers(ids: &[u8]) -> HashMap<u8, Tracker> {
    ids.iter().map(|&id| (id, Tracker::new(id))).collect()
}

#[test]
fn default_assignment() {
    let a = TrackerBoneAssigner::new();
    assert_eq!(a.get_bone_id(1), Some(0));
    assert_eq!(a.get_bone_id(4), Some(31));
    assert_eq!(a.get_bone_id(7), Some(20));
    assert_eq!(a.get_bone_id(8), None);
    assert_eq!(a.map.len(), 7);
    assert_eq!(TrackerBoneAssigner::default().map, a.map);
}

#[test]
fn set_then_get() {
    let mut a = TrackerBoneAssigner::new();
    a.set_assignment(1, 12);
    a.set_assignment(9, 42);
    assert_eq!(a.get_bone_id(1), Some(12));
    assert_eq!(a.get_bone_id(9), Some(42));
    assert_eq!(a.get_bone_id(2), Some(2));

    let mut b = Assigner::new();
    assert_eq!(b.get_bone_id(3), None);
    b.set_assignment(3, 10);
    assert_eq!(b.get_bone_id(3), Some(10));
}

#[test]
fn priority_auto_assign_follows_id_order() {
    let mut a = TrackerBoneAssigner::new();
    a.auto_assign(&trackers(&[40, 3, 200, 17]));
    assert_eq!(a.map.len(), 4);
    assert_eq!(a.get_bone_id(3), Some(2));
    assert_eq!(a.get_bone_id(17), Some(32));
    assert_eq!(a.get_bone_id(40), Some(42));
    assert_eq!(a.get_bone_id(200), Some(4));
    assert_eq!(a.get_bone_id(1), None);
}

#[test]
fn leg_first_auto_assign_stops_after_eight() {
    let mut a = Assigner::new();
    a.set_assignment(250, 1);
    a.auto_assign(&trackers(&[9, 8, 7, 6, 5, 4, 3, 2, 1, 0]));
    let got: Vec<Option<u8>> = (0..10).map(|id| a.get_bone_id(id)).collect();
    assert_eq!(
        got,
        vec![Some(0), Some(2), Some(10), Some(20), Some(11), Some(21), Some(12), Some(22), None, None]
    );
    assert_eq!(a.get_bone_id(250), None);
}

#[test]
fn leg_first_assigner_starts_empty() {
    let a = Assigner::default();
    assert_eq!(a.get_bone_id(1), None);
    assert_eq!(a.get_bone_id(0), None);
}
