use aetherpose::backpress::{send_increments, BackpressStats, SendOutcome};
use aetherpose::net::tracker::{seen_within, Tracker};
use aetherpose::net::ble::{
    connect_retry_delay_ms, is_tracker_advertisement, sync_due, CONNECT_ATTEMPTS, SYNC_INTERVAL_MS,
};
use aetherpose::net::connection::{packet_lines, plan_serial_start, SerialStart};
use aetherpose::net::link::LinkQuality;

#[test]
fn serial_text_splits_into_nonblank_lines() {
    let text = "{\"id\":1}\r\n\n  \r\n{\"id\":2}\n{\"id\":3}";
    assert_eq!(packet_lines(text), vec!["{\"id\":1}", "{\"id\":2}", "{\"id\":3}"]);
    assert!(packet_lines("").is_empty());
    assert!(packet_lines("\n\r\n \t\n").is_empty());
    assert_eq!(packet_lines(" a \r\n"), vec![" a "]);
}

#[test]
fn serial_link_opens_only_when_enabled_with_a_port() {
    assert!(matches!(plan_serial_start(false, Some("COM3".into())), SerialStart::Disabled));
    assert!(matches!(plan_serial_start(true, None), SerialStart::NoPort));
    match plan_serial_start(true, Some("/dev/ttyUSB0".into())) {
        SerialStart::Open { port } => assert_eq!(port, "/dev/ttyUSB0"),
        _ => panic!("expected the port to open"),
    }
}

#[test]
fn trackers_are_recognised_by_name_or_service() {
    assert!(is_tracker_advertisement(Some("Aetherpose Tracker 3"), false));
    assert!(is_tracker_advertisement(Some("Aetherpose Tracker"), false));
    assert!(!is_tracker_advertisement(Some("Aetherpose"), false));
    assert!(!is_tracker_advertisement(Some("My Headphones"), false));
    assert!(is_tracker_advertisement(None, true));
    assert!(!is_tracker_advertisement(None, false));
}

#[test]
fn connection_retries_wait_longer_each_time() {
    assert_eq!(CONNECT_ATTEMPTS, 5);
    let delays: Vec<u64> = (0..CONNECT_ATTEMPTS).map(connect_retry_delay_ms).collect();
    assert_eq!(delays, vec![1000, 1500, 2000, 2500, 3000]);
}

#[test]
fn orientation_write_back_is_throttled() {
    assert_eq!(SYNC_INTERVAL_MS, 300);
    assert!(sync_due(300, true));
    assert!(!sync_due(299, true));
    assert!(!sync_due(10_000, false));
}

#[test]
fn link_counters_check_for_room() {
    let mut q = LinkQuality::new(Some(10));
    assert!(q.can_take(Some(10)));
    assert_eq!(q.missed_before(Some(10)), 0);
    q.observe(Some(10));
    assert_eq!(q.missed_before(Some(14)), 3);
    q.consec_good = u32::MAX;
    assert!(!q.can_take(Some(11)));
    assert!(q.can_take(Some(13)));
    q.received_packets = u64::MAX;
    assert!(!q.can_take(Some(13)));
}

#[test]
fn backpressure_counters_are_taken_and_reset() {
    let stats = BackpressStats::new();
    stats.record_send(SendOutcome::Sent { elapsed_ns: 40 });
    stats.record_send(SendOutcome::Sent { elapsed_ns: 60 });
    stats.record_send(SendOutcome::Full);
    stats.record_send(SendOutcome::Disconnected);
    stats.record_send(SendOutcome::Disconnected);
    assert_eq!(stats.snapshot_and_reset(), (2, 1, 2, 100, 2));
    assert_eq!(stats.snapshot_and_reset(), (0, 0, 0, 0, 0));
}


#[test]
fn send_outcomes_raise_their_counters() {
    assert_eq!(send_increments(SendOutcome::Sent { elapsed_ns: 70 }), (1, 0, 0, 70, 1));
    assert_eq!(send_increments(SendOutcome::Full), (0, 1, 0, 0, 0));
    assert_eq!(send_increments(SendOutcome::Disconnected), (0, 0, 1, 0, 0));
}

#[test]
fn online_means_seen_within_the_limit() {
    assert!(seen_within(2_000_000_000, 2_000_000_000));
    assert!(seen_within(0, 0));
    assert!(!seen_within(2_000_000_001, 2_000_000_000));
    let t = Tracker::new(1);
    assert!(t.is_online(std::time::Duration::from_secs(3600)));
    assert!(t.nanos_since_seen() < 3_600_000_000_000);
}
