use aetherpose::settings::{
    apply_recorder_edits, optional_parse, optional_trimmed,
    RecorderConfig,
};

#[test]
fn trimmed_text_or_nothing() {
    assert_eq!(optional_trimmed("  take one \t"), Some("take one".to_string()));
    assert_eq!(optional_trimmed(" \n\t "), None);
    assert_eq!(optional_trimmed(""), None);
}

#[test]
fn numbers_parse_after_trimming() {
    assert_eq!(optional_parse::<usize>(" 42 "), Some(42));
    assert_eq!(optional_parse::<usize>("0"), Some(0));
    assert_eq!(optional_parse::<usize>("+7"), Some(7));
    assert_eq!(optional_parse::<usize>("+"), None);
    assert_eq!(optional_parse::<usize>(""), None);
    assert_eq!(optional_parse::<usize>("  "), None);
    assert_eq!(optional_parse::<usize>("4 2"), None);
    assert_eq!(optional_parse::<usize>("-1"), None);
    assert_eq!(optional_parse::<u64>("18446744073709551615"), Some(u64::MAX));
    assert_eq!(optional_parse::<u64>("18446744073709551616"), None);
    assert_eq!(optional_parse::<u64>("12ms"), None);
}

#[test]
fn recorder_edits_keep_unparsable_numbers() {
    let mut config = RecorderConfig {
        enabled: false,
        filename: Some("old.csv".to_string()),
        batch_size: 128,
        flush_interval_ms: 500,
    };
    apply_recorder_edits(&mut config, true, "  new.csv ", "64", "fast");
    assert!(config.enabled);
    assert_eq!(config.filename.as_deref(), Some("new.csv"));
    assert_eq!(config.batch_size, 64);
    assert_eq!(config.flush_interval_ms, 500);

    apply_recorder_edits(&mut config, false, "   ", "", " 250 ");
    assert!(!config.enabled);
    assert_eq!(config.filename, None);
    assert_eq!(config.batch_size, 64);
    assert_eq!(config.flush_interval_ms, 250);
}
