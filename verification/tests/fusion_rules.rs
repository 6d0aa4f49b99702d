use aetherpose::fusion::fusion::{
    is_position_authoritative, is_yaw_corrected_bone, position_goal_wanted,
    should_emit_position_goal, HEAD_BONE, LEFT_HAND_BONE, RIGHT_HAND_BONE,
};

#[test]
fn position_goals_only_for_roots_and_end_effectors() {
    assert!(should_emit_position_goal(0));
    assert!(should_emit_position_goal(12));
    assert!(!should_emit_position_goal(2));
}

#[test]
fn position_goal_bones_are_exactly_hips_head_feet_and_hands() {
    let emitting: Vec<u8> = (0u8..=255).filter(|b| should_emit_position_goal(*b)).collect();
    assert_eq!(emitting, vec![0, 4, 12, 22, 33, 43]);
}

#[test]
fn authoritative_sources_lock_their_bone_only() {
    assert!(is_position_authoritative(HEAD_BONE, true, false, false));
    assert!(!is_position_authoritative(HEAD_BONE, false, true, true));
    assert!(is_position_authoritative(LEFT_HAND_BONE, false, true, false));
    assert!(!is_position_authoritative(LEFT_HAND_BONE, true, false, true));
    assert!(is_position_authoritative(RIGHT_HAND_BONE, false, false, true));
    assert!(!is_position_authoritative(RIGHT_HAND_BONE, true, true, false));
    assert!(!is_position_authoritative(0, true, true, true));
    assert!(!is_position_authoritative(12, true, true, true));
}

#[test]
fn yaw_correction_applies_to_hips_and_waist() {
    assert!(is_yaw_corrected_bone(0));
    assert!(is_yaw_corrected_bone(1));
    assert!(!is_yaw_corrected_bone(2));
    assert!(!is_yaw_corrected_bone(4));
}

#[test]
fn trackers_give_position_goals_unless_a_pose_fixes_the_bone() {
    assert!(position_goal_wanted(HEAD_BONE, false, true, true, true));
    assert!(!position_goal_wanted(HEAD_BONE, true, false, false, true));
    assert!(!position_goal_wanted(LEFT_HAND_BONE, false, true, false, true));
    assert!(position_goal_wanted(LEFT_HAND_BONE, true, false, true, true));
    assert!(position_goal_wanted(0, true, true, true, true));
    assert!(!position_goal_wanted(0, false, false, false, false));
    assert!(!position_goal_wanted(2, false, false, false, true));
}
