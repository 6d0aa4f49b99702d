use aetherpose::i18n_sweep::{
    collect_keys, entries_to_add, existing_keys, sweep_additions, swept_document,
};

#[test]
fn keys_are_collected_in_order_of_appearance() {
    let src = r#"ui.label(i18n.t("menu.file")); let x = app.i18n.t("menu.quit"); t("no.dot");"#;
    assert_eq!(collect_keys(src), vec!["menu.file".to_string(), "menu.quit".to_string()]);
}

#[test]
fn unterminated_lookup_ends_the_scan() {
    assert_eq!(collect_keys(r#"a.t("one") b.t("two"#), vec!["one".to_string()]);
    assert!(collect_keys("nothing here").is_empty());
    assert_eq!(collect_keys(r#".t("")"#), vec![String::new()]);
}

#[test]
fn missing_keys_get_the_key_in_english_and_blank_elsewhere() {
    let existing = vec!["a".to_string()];
    let found = vec!["a".to_string(), "b".to_string(), "c".to_string(), "b".to_string()];
    assert_eq!(
        entries_to_add(&existing, &found, true),
        vec![("b".to_string(), "b".to_string()), ("c".to_string(), "c".to_string())]
    );
    assert_eq!(
        entries_to_add(&existing, &found, false),
        vec![("b".to_string(), String::new()), ("c".to_string(), String::new())]
    );
    assert!(entries_to_add(&found, &found, true).is_empty());
}

#[test]
fn after_the_sweep_every_found_key_is_present() {
    let existing = vec!["menu.file".to_string(), "menu.edit".to_string()];
    let found = collect_keys(r#"x.t("menu.file"); y.t("menu.view"); z.t("menu.view"); w.t("about")"#);
    let added = entries_to_add(&existing, &found, false);
    let mut keys: Vec<String> = existing.clone();
    keys.extend(added.iter().map(|(k, _)| k.clone()));
    for k in &found {
        assert!(keys.contains(k));
    }
    assert_eq!(keys.len(), 4);
}


#[test]
fn existing_keys_are_those_of_the_json_object() {
    let mut keys = existing_keys(r#"{"b": 1, "a": "x", "c": {"d": 2}}"#).unwrap();
    keys.sort();
    assert_eq!(keys, vec!["a", "b", "c"]);
    assert_eq!(existing_keys("[1, 2]"), None);
    assert_eq!(existing_keys("not json"), None);
    assert_eq!(existing_keys("{}"), Some(vec![]));
}

#[test]
fn sweep_adds_what_the_file_lacks() {
    let found = vec!["a".to_string(), "new".to_string(), "new".to_string()];
    assert_eq!(
        sweep_additions(r#"{"a": "A"}"#, &found, false),
        vec![("new".to_string(), String::new())]
    );
    assert_eq!(
        sweep_additions("garbage", &found, true),
        vec![("a".to_string(), "a".to_string()), ("new".to_string(), "new".to_string())]
    );
}

#[test]
fn swept_document_keeps_old_entries_and_adds_new_ones() {
    let found = vec!["menu.file".to_string(), "menu.quit".to_string()];
    assert_eq!(swept_document(r#"{"menu.file": "File", "menu.quit": "Quit"}"#, &found, true), None);
    let text = swept_document(r#"{"menu.file": "Datei", "count": 3}"#, &found, false).unwrap();
    let v: serde_json::Value = serde_json::from_str(&text).unwrap();
    assert_eq!(v["menu.file"], "Datei");
    assert_eq!(v["count"], 3);
    assert_eq!(v["menu.quit"], "");
    assert_eq!(v.as_object().unwrap().len(), 3);
    let fresh = swept_document("", &found, true).unwrap();
    let v: serde_json::Value = serde_json::from_str(&fresh).unwrap();
    assert_eq!(v["menu.quit"], "menu.quit");
}

#[test]
fn swept_document_keeps_values_that_are_not_strings() {
    let found = vec!["k".to_string()];
    let text = swept_document(r#"{"n": 1.5, "list": [1, {"x": "y"}], "s": "kept"}"#, &found, true).unwrap();
    let v: serde_json::Value = serde_json::from_str(&text).unwrap();
    assert_eq!(v["n"], 1.5);
    assert_eq!(v["list"][1]["x"], "y");
    assert_eq!(v["s"], "kept");
    assert_eq!(v["k"], "k");
}
