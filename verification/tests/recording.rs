use aetherpose::recording::{
    csv_header, plan_recorder_update, recording_bone_ids, writer_decision, RecorderPlan,
    RecorderSettings, WriterAction, WriterEvent, DEFAULT_RECORDER_BATCH_SIZE,
    DEFAULT_RECORDER_FLUSH_INTERVAL_MS,
};

#[test]
fn header_without_bones_is_the_timestamp_column() {
    assert_eq!(csv_header(&vec![]), "timestamp_ms");
}

#[test]
fn header_lists_seven_columns_per_bone_in_order() {
    let h = csv_header(&vec![0, 12]);
    assert_eq!(
        h,
        "timestamp_ms,bone_0_pos_x,bone_0_pos_y,bone_0_pos_z,bone_0_rot_x,bone_0_rot_y,bone_0_rot_z,bone_0_rot_w,\
bone_12_pos_x,bone_12_pos_y,bone_12_pos_z,bone_12_rot_x,bone_12_rot_y,bone_12_rot_z,bone_12_rot_w"
    );
    assert_eq!(h.split(',').count(), 1 + 2 * 7);
}

#[test]
fn header_writes_three_digit_ids() {
    let h = csv_header(&vec![255]);
    assert!(h.starts_with("timestamp_ms,bone_255_pos_x,"));
    assert!(h.ends_with(",bone_255_rot_w"));
}

#[test]
fn recorded_bones_are_sorted_and_distinct() {
    assert_eq!(recording_bone_ids(&vec![43, 0, 12, 0, 255, 1]), vec![0, 1, 12, 43, 255]);
    assert_eq!(recording_bone_ids(&vec![]), Vec::<u8>::new());
}

#[test]
fn writer_flushes_full_batches() {
    assert_eq!(writer_decision(128, 128, 500, WriterEvent::Line), WriterAction::WriteBatch);
    assert_eq!(writer_decision(127, 128, 500, WriterEvent::Line), WriterAction::Wait);
}

#[test]
fn writer_flushes_on_interval_only_with_pending_lines() {
    let due = WriterEvent::Timeout { since_flush_ms: 500 };
    let early = WriterEvent::Timeout { since_flush_ms: 499 };
    assert_eq!(writer_decision(3, 128, 500, due), WriterAction::WriteBatch);
    assert_eq!(writer_decision(3, 128, 500, early), WriterAction::Wait);
    assert_eq!(writer_decision(0, 128, 500, due), WriterAction::Wait);
}

#[test]
fn writer_drains_before_closing() {
    assert_eq!(writer_decision(5, 128, 500, WriterEvent::Disconnected), WriterAction::WriteBatchAndClose);
    assert_eq!(writer_decision(0, 128, 500, WriterEvent::Disconnected), WriterAction::Close);
}

fn running() -> RecorderSettings {
    RecorderSettings { filename: "take.csv".to_string(), batch_size: 64, flush_interval_ms: 250 }
}

#[test]
fn recorder_plan_stops_when_disabled() {
    assert!(matches!(plan_recorder_update(Some(&running()), Some(false), None, None, None), RecorderPlan::Stop));
    assert!(matches!(plan_recorder_update(None, None, Some("x.csv".into()), None, None), RecorderPlan::Stop));
}

#[test]
fn recorder_plan_starts_with_defaults() {
    match plan_recorder_update(None, Some(true), None, None, Some(100)) {
        RecorderPlan::Start { filename, batch_size, flush_interval_ms } => {
            assert_eq!(filename, None);
            assert_eq!(batch_size, DEFAULT_RECORDER_BATCH_SIZE);
            assert_eq!(batch_size, 128);
            assert_eq!(flush_interval_ms, 100);
        }
        _ => panic!("expected a start"),
    }
    match plan_recorder_update(None, Some(true), Some("a.csv".into()), Some(8), None) {
        RecorderPlan::Start { filename, batch_size, flush_interval_ms } => {
            assert_eq!(filename.as_deref(), Some("a.csv"));
            assert_eq!(batch_size, 8);
            assert_eq!(flush_interval_ms, DEFAULT_RECORDER_FLUSH_INTERVAL_MS);
            assert_eq!(flush_interval_ms, 500);
        }
        _ => panic!("expected a start"),
    }
}

#[test]
fn recorder_plan_keeps_or_restarts_a_running_recorder() {
    assert!(matches!(plan_recorder_update(Some(&running()), None, None, None, None), RecorderPlan::Keep));
    assert!(matches!(plan_recorder_update(Some(&running()), Some(true), None, None, None), RecorderPlan::Keep));
    match plan_recorder_update(Some(&running()), None, None, Some(32), None) {
        RecorderPlan::Restart { filename, batch_size, flush_interval_ms } => {
            assert_eq!(filename, "take.csv");
            assert_eq!(batch_size, 32);
            assert_eq!(flush_interval_ms, 250);
        }
        _ => panic!("expected a restart"),
    }
}
