use aetherpose::config::{
    default_serial_baud, default_theme_variant, default_ui_lang, default_zupt_enabled,
    default_zupt_window_size,
};
use aetherpose::connection_type::ConnectionType;
use aetherpose::imu::trajectory::TrajectoryIntegrationMode;
use aetherpose::theme::ThemeVariant;

#[test]
fn configuration_defaults() {
    assert_eq!(default_ui_lang(), "zh");
    assert_eq!(default_theme_variant(), ThemeVariant::Dark);
    assert_eq!(default_serial_baud(), 115200);
    assert_eq!(default_zupt_window_size(), 8);
    assert!(default_zupt_enabled());
    assert_eq!(ConnectionType::default(), ConnectionType::Unknown);
    assert_eq!(ThemeVariant::default(), ThemeVariant::Dark);
    assert_eq!(TrajectoryIntegrationMode::default(), TrajectoryIntegrationMode::Rk4);
}

use aetherpose::config::{archives_to_prune, is_archive_name, log_needs_rotation, LOG_KEEP_FILES, LOG_MAX_BYTES};

#[test]
fn logs_rotate_above_five_mebibytes() {
    assert_eq!(LOG_MAX_BYTES, 5 * 1024 * 1024);
    assert!(!log_needs_rotation(5 * 1024 * 1024));
    assert!(log_needs_rotation(5 * 1024 * 1024 + 1));
    assert!(!log_needs_rotation(0));
}

#[test]
fn archive_names_belong_to_their_log() {
    assert!(is_archive_name("status_ble.log.20240101120000.gz", "status_ble.log"));
    assert!(!is_archive_name("status_ble.log.20240101120000", "status_ble.log"));
    assert!(!is_archive_name("status_serial.log.1.gz", "status_ble.log"));
    assert!(is_archive_name("status_ble.log.gz", "status_ble.log"));
    assert!(!is_archive_name("status_ble.log", "status_ble.log"));
}

#[test]
fn only_the_newest_five_archives_are_kept() {
    assert_eq!(LOG_KEEP_FILES, 5);
    let base = "status.log";
    let mut entries: Vec<(i128, String)> = Vec::new();
    for t in 1..=7 {
        entries.push((t, format!("status.log.{}.gz", t)));
    }
    entries.push((0, "status.log".to_string()));
    entries.push((-5, "other.log.1.gz".to_string()));
    assert_eq!(archives_to_prune(base, &entries), vec!["status.log.1.gz", "status.log.2.gz"]);

    let few: Vec<(i128, String)> = (1..=5).map(|t| (t, format!("status.log.{}.gz", t))).collect();
    assert!(archives_to_prune(base, &few).is_empty());
}

#[test]
fn equal_times_keep_the_earlier_listed_archive() {
    let entries: Vec<(i128, String)> = (0..6).map(|k| (10, format!("a.log.{}.gz", k))).collect();
    assert_eq!(archives_to_prune("a.log", &entries), vec!["a.log.5.gz"]);
}
