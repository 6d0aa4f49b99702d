use aetherpose::i18n::{bone_name, str_lt, I18n};

fn docs() -> Vec<(String, String)> {
    vec![
        ("zh".to_string(), r#"{"__lang_name": "中文", "hello": "你好", "bone.hip": "臀部"}"#.to_string()),
        ("en".to_string(), r#"{"__lang_name": "English", "hello": "Hello", "bye": "Bye", "bone.unknown": "Unknown"}"#.to_string()),
        ("de".to_string(), r#"{"hello": "Hallo"}"#.to_string()),
        ("broken".to_string(), "not json".to_string()),
        ("numbers".to_string(), r#"{"a": 1}"#.to_string()),
    ]
}

#[test]
fn translation_falls_back_to_english_then_key() {
    let i18n = I18n::from_documents(&docs(), "zh");
    assert_eq!(i18n.t("hello"), "你好");
    assert_eq!(i18n.t("bye"), "Bye");
    assert_eq!(i18n.t("missing.key"), "missing.key");
}

#[test]
fn set_lang_switches_only_to_loaded_languages() {
    let mut i18n = I18n::from_documents(&docs(), "zh");
    assert!(i18n.set_lang("de"));
    assert_eq!(i18n.t("hello"), "Hallo");
    assert_eq!(i18n.t("bye"), "Bye");
    assert!(!i18n.set_lang("broken"));
    assert!(!i18n.set_lang("fr"));
    assert_eq!(i18n.t("hello"), "Hallo");
}

#[test]
fn available_langs_are_sorted_and_exclude_unparsable_documents() {
    let i18n = I18n::from_documents(&docs(), "zh");
    assert_eq!(i18n.available_langs(), vec!["de", "en", "zh"]);
}

#[test]
fn default_language_is_added_when_missing() {
    let i18n = I18n::from_documents(&docs(), "ja");
    assert_eq!(i18n.available_langs(), vec!["de", "en", "ja", "zh"]);
    assert_eq!(i18n.t("hello"), "Hello");
    let with_display = i18n.available_langs_with_display();
    assert_eq!(
        with_display,
        vec![
            ("de".to_string(), "de".to_string()),
            ("en".to_string(), "English".to_string()),
            ("ja".to_string(), "ja".to_string()),
            ("zh".to_string(), "中文".to_string()),
        ]
    );
}

#[test]
fn later_document_replaces_earlier_one() {
    let mut d = docs();
    d.push(("de".to_string(), r#"{"hello": "Servus"}"#.to_string()));
    let mut i18n = I18n::from_documents(&d, "zh");
    assert!(i18n.set_lang("de"));
    assert_eq!(i18n.t("hello"), "Servus");
    assert_eq!(i18n.available_langs(), vec!["de", "en", "zh"]);
}

#[test]
fn lang_json_round_trips_the_entries() {
    let i18n = I18n::from_documents(&docs(), "zh");
    let text = i18n.lang_json("de").unwrap();
    let parsed: std::collections::HashMap<String, String> = serde_json::from_str(&text).unwrap();
    assert_eq!(parsed.len(), 1);
    assert_eq!(parsed["hello"], "Hallo");
    assert!(i18n.lang_json("fr").is_none());
}

#[test]
fn bone_names_use_translation_keys() {
    let i18n = I18n::from_documents(&docs(), "zh");
    assert_eq!(bone_name(&i18n, 0), "臀部");
    assert_eq!(bone_name(&i18n, 4), "bone.head");
    assert_eq!(bone_name(&i18n, 99), "Unknown");
}

#[test]
fn string_order_matches_std() {
    let words = ["", "a", "ab", "b", "Z", "é", "中", "aa"];
    for a in words {
        for b in words {
            assert_eq!(str_lt(a, b), a < b, "{} {}", a, b);
        }
    }
}

#[test]
fn display_names_come_from_each_table() {
    let i18n = I18n::from_documents(&docs(), "ja");
    let listed = i18n.available_langs_with_display();
    let codes: Vec<String> = listed.iter().map(|p| p.0.clone()).collect();
    assert_eq!(codes, i18n.available_langs());
    assert_eq!(
        listed,
        vec![
            ("de".to_string(), "de".to_string()),
            ("en".to_string(), "English".to_string()),
            ("ja".to_string(), "ja".to_string()),
            ("zh".to_string(), "中文".to_string()),
        ]
    );
}

#[test]
fn exported_language_reads_back_whole() {
    let i18n = I18n::from_documents(&docs(), "zh");
    let text = i18n.lang_json("en").unwrap();
    let parsed: std::collections::HashMap<String, String> = serde_json::from_str(&text).unwrap();
    assert_eq!(parsed.len(), 4);
    assert_eq!(parsed["__lang_name"], "English");
    assert_eq!(parsed["bone.unknown"], "Unknown");
    let empty = I18n::from_documents(&vec![], "ja");
    assert_eq!(empty.lang_json("ja").as_deref(), Some("{}"));
}
