use vstd::prelude::*;

verus! {

/// Bone driven by the headset.
pub const HEAD_BONE: u8 = 4;

/// Bone driven by the left controller.
pub const LEFT_HAND_BONE: u8 = 33;

/// Bone driven by the right controller.
pub const RIGHT_HAND_BONE: u8 = 43;

/// Whether a tracker on this bone also yields a position goal: only the hip,
/// the head, the feet and the hands do.
pub fn should_emit_position_goal(bone_id: u8) -> (r: bool)
    ensures
        r == (bone_id == 0 || bone_id == 4 || bone_id == 12 || bone_id == 22 || bone_id == 33
            || bone_id == 43),
{
    bone_id == 0 || bone_id == 4 || bone_id == 12 || bone_id == 22 || bone_id == 33 || bone_id
        == 43
}

/// Whether a present headset or controller pose fixes the position of this bone.
pub open spec fn authority_locked(bone_id: u8, head_present: bool, left_hand_present: bool, right_hand_present: bool) -> bool {
    if bone_id == HEAD_BONE {
        head_present
    } else if bone_id == LEFT_HAND_BONE {
        left_hand_present
    } else if bone_id == RIGHT_HAND_BONE {
        right_hand_present
    } else {
        false
    }
}

/// Whether the position of this bone is fixed by a headset or controller pose
/// that is present, so that trackers give it no position goal.
pub fn is_position_authoritative(
    bone_id: u8,
    head_present: bool,
    left_hand_present: bool,
    right_hand_present: bool,
) -> (r: bool)
    ensures
        r == authority_locked(bone_id, head_present, left_hand_present, right_hand_present),
{
    match bone_id {
        4 => head_present,
        33 => left_hand_present,
        43 => right_hand_present,
        _ => false,
    }
}

/// Whether the yaw of this bone is pulled towards the headset's: the hip and
/// the waist are.
pub fn is_yaw_corrected_bone(bone_id: u8) -> (r: bool)
    ensures
        r == (bone_id == 0 || bone_id == 1),
{
    bone_id == 0 || bone_id == 1
}

/// A tracker's position goal is emitted when its bone takes position goals,
/// no present authoritative pose fixes the bone, and the goal has weight.
pub open spec fn emits_position_goal(bone_id: u8, authority_locked: bool, has_weight: bool) -> bool {
    &&& (bone_id == 0 || bone_id == 4 || bone_id == 12 || bone_id == 22 || bone_id == 33 || bone_id == 43)
    &&& !authority_locked
    &&& has_weight
}

/// Whether a tracker on `bone_id` gives the solver a position goal, given
/// which headset and controller poses are present and whether the goal has
/// weight.
pub fn position_goal_wanted(
    bone_id: u8,
    head_present: bool,
    left_hand_present: bool,
    right_hand_present: bool,
    has_weight: bool,
) -> (r: bool)
    ensures
        r == emits_position_goal(
            bone_id,
            authority_locked(bone_id, head_present, left_hand_present, right_hand_present),
            has_weight,
        ),
{
    should_emit_position_goal(bone_id) && !is_position_authoritative(
        bone_id,
        head_present,
        left_hand_present,
        right_hand_present,
    ) && has_weight
}

/// A bone that a headset or controller fixes never gets a position goal from a
/// tracker while that pose is present.
pub proof fn lemma_authority_wins(bone_id: u8, head: bool, left: bool, right: bool, has_weight: bool)
    requires
        (bone_id == HEAD_BONE && head) || (bone_id == LEFT_HAND_BONE && left) || (bone_id
            == RIGHT_HAND_BONE && right),
    ensures
        !emits_position_goal(bone_id, authority_locked(bone_id, head, left, right), has_weight),
{
}

/// The bones behind the position rules, written out: the headset drives bone
/// 4 (head), the left controller bone 33, the right controller bone 43; only
/// those three can be fixed by a pose, each only by its own pose. Hip (0), head
/// (4), feet (12, 22) and hands (33, 43) take position goals; a hand whose
/// controller is absent still takes one. Only hip (0) and waist (1) are
/// yaw-corrected.
pub proof fn lemma_position_bones(bone_id: u8, head: bool, left: bool, right: bool)
    ensures
        HEAD_BONE == 4,
        LEFT_HAND_BONE == 33,
        RIGHT_HAND_BONE == 43,
        authority_locked(4, head, left, right) == head,
        authority_locked(33, head, left, right) == left,
        authority_locked(43, head, left, right) == right,
        bone_id != 4 && bone_id != 33 && bone_id != 43 ==> !authority_locked(
            bone_id,
            head,
            left,
            right,
        ),
        emits_position_goal(bone_id, false, true) <==> (bone_id == 0 || bone_id == 4 || bone_id
            == 12 || bone_id == 22 || bone_id == 33 || bone_id == 43),
        !emits_position_goal(bone_id, authority_locked(bone_id, head, left, right), false),
        emits_position_goal(33, authority_locked(33, head, false, right), true),
        emits_position_goal(43, authority_locked(43, head, left, false), true),
{
}

} // verus!
