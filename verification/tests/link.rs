use aetherpose::net::connection::{backoff_delay_ms, ReconnectSchedule};
use aetherpose::net::link::LinkQuality;
use aetherpose::net::packet::PacketData;
use aetherpose::net::tracker::Tracker;

fn packet(id: u8, sequence: Option<u16>) -> PacketData {
    PacketData { id, sequence, batt: None, gyro: None, accel: None, mag: None, dt: None, quat: None }
}

#[test]
fn backoff_doubles_and_caps() {
    assert_eq!(backoff_delay_ms(0, 500, 10_000), 500);
    assert_eq!(backoff_delay_ms(1, 500, 10_000), 1000);
    assert_eq!(backoff_delay_ms(4, 500, 10_000), 8000);
    assert_eq!(backoff_delay_ms(5, 500, 10_000), 10_000);
    assert_eq!(backoff_delay_ms(10, 1, u64::MAX), 1024);
    assert_eq!(backoff_delay_ms(u32::MAX, 1, u64::MAX), 1024);
    assert_eq!(backoff_delay_ms(10, u64::MAX / 2, u64::MAX), u64::MAX);
}

#[test]
fn reconnect_schedule_resets_on_success() {
    let mut s = ReconnectSchedule::new();
    assert_eq!(s.next_delay_ms(), 1000);
    assert_eq!(s.next_delay_ms(), 2000);
    assert_eq!(s.next_delay_ms(), 4000);
    s.connected();
    assert_eq!(s.next_delay_ms(), 1000);
    let mut t = ReconnectSchedule { attempt: u32::MAX };
    assert_eq!(t.next_delay_ms(), 10_000);
    assert_eq!(t.attempt, u32::MAX);
}

#[test]
fn tracker_counts_losses_across_the_wrap() {
    let mut t = Tracker::new(3);
    t.update_data(&packet(3, Some(65534)));
    t.update_data(&packet(3, Some(65535)));
    t.update_data(&packet(3, Some(0)));
    assert_eq!(t.lost_packets, 0);
    t.update_data(&packet(3, Some(4)));
    assert_eq!(t.lost_packets, 3);
    t.update_data(&packet(3, None));
    assert_eq!(t.received_packets, 5);
    assert_eq!(t.last_sequence, Some(4));
}

#[test]
fn tracker_keeps_readings_it_is_not_sent() {
    let mut t = Tracker::new(1);
    let mut p = packet(1, None);
    p.gyro = Some([1, 2, 3]);
    p.dt = Some(7);
    t.update_data(&p);
    t.update_data(&packet(1, None));
    assert_eq!(t.gyro, Some([1, 2, 3]));
    assert_eq!(t.dt, Some(7));
    assert_eq!(t.accel, None);
    assert!(t.is_online(std::time::Duration::from_secs(60)));
}

#[test]
fn link_quality_switches_with_hysteresis() {
    let mut q = LinkQuality::new(Some(10));
    assert_eq!(q.observe(Some(10)), 0);
    assert_eq!(q.observe(Some(11)), 0);
    assert_eq!(q.observe(Some(15)), 3);
    assert!(q.use_device_quat);
    assert_eq!(q.lost_packets, 3);
    for s in 16..45u16 {
        q.observe(Some(s));
        assert!(q.use_device_quat);
    }
    q.observe(Some(45));
    assert!(!q.use_device_quat);
    assert_eq!(q.consec_good, 30);
    assert_eq!(q.received_packets, 33);
}

#[test]
fn link_quality_wrap_and_reorder() {
    let mut q = LinkQuality::new(Some(65534));
    q.observe(Some(65534));
    assert_eq!(q.observe(Some(1)), 2);
    assert_eq!(q.observe(Some(0)), 0);
    assert_eq!(q.lost_packets, 2);
    assert_eq!(q.observe(None), 0);
    assert_eq!(q.last_sequence, 0);
}
