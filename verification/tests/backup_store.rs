use bookmark_vault::backup::{build_backup_list, display_timestamp, make_backup_id, new_backup_id, split4};
use bookmark_vault::ledger::Ledger;

#[test]
fn backup_id_shape() {
    let id = make_backup_id("20240101_120000", "bookmarks.xml");
    assert_eq!(id, "20240101_120000_backup_bookmarks.xml");
}

#[test]
fn fresh_backup_id_parses_back() {
    let id = new_backup_id("bookmarks.xml");
    let parts = split4(&id).expect("a fresh identifier fits the four-part shape");
    assert_eq!(parts.0.len(), 8);
    assert!(parts.0.chars().all(|c| c.is_ascii_digit()));
    assert_eq!(parts.1.len(), 6);
    assert!(parts.1.chars().all(|c| c.is_ascii_digit()));
    assert_eq!(parts.2, "backup");
    assert_eq!(parts.3, "bookmarks.xml");
}

#[test]
fn split4_needs_three_underscores() {
    assert_eq!(split4("nounderscore"), None);
    assert_eq!(split4("a_b"), None);
    assert_eq!(split4("a_b_c"), None);
    let p = split4("a_b_c_d_e").unwrap();
    assert_eq!(p.0, "a");
    assert_eq!(p.1, "b");
    assert_eq!(p.2, "c");
    assert_eq!(p.3, "d_e");
}

#[test]
fn timestamp_display_forms() {
    assert_eq!(display_timestamp("20240101", "120000"), "2024-01-01 12:00:00");
    assert_eq!(display_timestamp("2024", "12"), "2024_12");
}

#[test]
fn ledger_json_round_trip() {
    let mut l = Ledger::new();
    l.insert("id1".to_string(), vec!["P1".to_string()]);
    let doc = l.to_json();
    assert_eq!(doc, "{\"id1\":[\"P1\"]}");
    let l2 = Ledger::from_json(&doc);
    assert_eq!(l2.get("id1"), Some(vec!["P1".to_string()]));
    assert_eq!(l2.get("other"), None);
}

#[test]
fn ledger_round_trip_with_escapes() {
    let mut l = Ledger::new();
    l.insert("a\"b\\c".to_string(), vec!["x\ny".to_string(), "z\tw".to_string()]);
    let doc = l.to_json();
    let l2 = Ledger::from_json(&doc);
    assert_eq!(
        l2.get("a\"b\\c"),
        Some(vec!["x\ny".to_string(), "z\tw".to_string()])
    );
}

#[test]
fn ledger_empty_and_multi_entry_documents() {
    let l = Ledger::new();
    assert_eq!(l.to_json(), "{}");
    let mut m = Ledger::new();
    m.insert("a".to_string(), Vec::new());
    m.insert("b".to_string(), vec!["P1".to_string(), "P2".to_string()]);
    let doc = m.to_json();
    assert_eq!(doc, "{\"a\":[],\"b\":[\"P1\",\"P2\"]}");
    let back = Ledger::from_json(&doc);
    assert_eq!(back.get("a"), Some(Vec::new()));
    assert_eq!(back.get("b"), Some(vec!["P1".to_string(), "P2".to_string()]));
}

#[test]
fn invalid_ledger_document_is_empty_ledger() {
    for bad in ["", "not json at all{", "{\"a\":", "{\"a\":[\"x\"]", "[1,2]", "{\"a\":[\"x\"]} "] {
        let l = Ledger::from_json(bad);
        assert_eq!(l.get("a"), None);
        assert_eq!(l.to_json(), "{}");
    }
}

#[test]
fn ledger_duplicate_keys_keep_the_last_entry() {
    let l = Ledger::from_json("{\"a\":[\"x\"],\"a\":[\"y\"]}");
    assert_eq!(l.get("a"), Some(vec!["y".to_string()]));
}

#[test]
fn original_name_may_contain_underscores() {
    let id = make_backup_id("20240101_120000", "my_state_file.xml");
    let l = Ledger::new();
    let list = build_backup_list(&vec![id], "/b", &l);
    assert_eq!(list.len(), 1);
    assert_eq!(list[0].original_file_name, "my_state_file.xml");
}

#[test]
fn ledger_insert_replaces_existing_entry() {
    let mut l = Ledger::new();
    l.insert("id".to_string(), vec!["old".to_string()]);
    l.insert("id".to_string(), vec!["new".to_string()]);
    assert_eq!(l.get("id"), Some(vec!["new".to_string()]));
    assert_eq!(l.to_json(), "{\"id\":[\"new\"]}");
}

#[test]
fn backup_round_trip_listing_and_delete() {
    let mut l = Ledger::new();
    let id = make_backup_id("20240101_120000", "bookmarks.xml");
    l.insert(id.clone(), vec!["P1".to_string()]);
    let list = build_backup_list(&vec![id.clone()], "/backups", &l);
    assert_eq!(list.len(), 1);
    assert_eq!(list[0].id, id);
    assert_eq!(list[0].original_file_name, "bookmarks.xml");
    assert_eq!(list[0].timestamp, "2024-01-01 12:00:00");
    assert_eq!(list[0].path, format!("/backups/{}", id));
    assert_eq!(list[0].projects, vec!["P1".to_string()]);

    l.remove(&id);
    assert_eq!(l.get(&id), None);
    assert_eq!(l.to_json(), "{}");
    let after = build_backup_list(&Vec::new(), "/backups", &l);
    assert_eq!(after.len(), 0);
}

#[test]
fn listing_skips_malformed_names_and_sorts_newest_first() {
    let l = Ledger::new();
    let older = make_backup_id("20240101_120000", "a.xml");
    let newer = make_backup_id("20250301_093000", "a.xml");
    let names = vec![
        "garbage".to_string(),
        older.clone(),
        "a_b_notbackup_d".to_string(),
        newer.clone(),
    ];
    let list = build_backup_list(&names, "/b", &l);
    assert_eq!(list.len(), 2);
    assert_eq!(list[0].id, newer);
    assert_eq!(list[1].id, older);
    // no ledger entry means an empty project list, not a failure
    assert_eq!(list[0].projects, Vec::<String>::new());
}
