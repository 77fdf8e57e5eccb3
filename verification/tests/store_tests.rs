use supercv::config::{Config, ExpiredConfig, PreviewConfig, UserConfig};
use supercv::helper::{prepare_set_payload, ClipboardHelper, ClipboardPayload};
use supercv::pasteboard::{ContentType, PasteboardContent};
use supercv::store::{Model, Store};

fn candidate(text: &str, ty: ContentType, hash: &str, path: Option<&str>, ts: i64) -> PasteboardContent {
    PasteboardContent::new(
        text.to_string(),
        ty,
        hash.to_string(),
        path.map(|p| p.to_string()),
        ts,
    )
}

fn default_config() -> Config {
    Config::new(
        "/tmp/db".to_string(),
        "/tmp/files".to_string(),
        "/tmp/logs".to_string(),
        UserConfig {
            expired_config: ExpiredConfig { text: 7, img: 3, file: 3 },
            preview_config: PreviewConfig { preview_number: 20 },
        },
    )
}

#[test]
fn idempotent_insert_single_row() {
    let mut store = Store::new();
    let first = store
        .add_clipboard_entry(candidate("hello", ContentType::Text, "h1", None, 100))
        .unwrap();
    let second = store
        .add_clipboard_entry(candidate("hello", ContentType::Text, "h1", None, 250))
        .unwrap();
    assert_eq!(store.len(), 1);
    assert_eq!(second.id, first.id);
    assert_eq!(second.timestamp, 250);
    assert_eq!(second.content, "hello");
    assert_eq!(second.ty, 0);
    let all = store.get_entries_by_gt_timestamp(-1);
    assert_eq!(all.len(), 1);
    assert_eq!(all[0].id, first.id);
    assert_eq!(all[0].timestamp, 250);
}

#[test]
fn touch_keeps_first_insert_fields() {
    let mut store = Store::new();
    store
        .add_clipboard_entry(candidate("original", ContentType::Text, "k", None, 10))
        .unwrap();
    let touched = store
        .add_clipboard_entry(candidate("changed", ContentType::File, "k", Some("/x"), 20))
        .unwrap();
    assert_eq!(touched.content, "original");
    assert_eq!(touched.ty, 0);
    assert_eq!(touched.path, "");
    assert_eq!(touched.timestamp, 20);
}

#[test]
fn touch_never_decreases_timestamp() {
    let mut store = Store::new();
    store
        .add_clipboard_entry(candidate("a", ContentType::Text, "k", None, 100))
        .unwrap();
    let touched = store
        .add_clipboard_entry(candidate("a", ContentType::Text, "k", None, 50))
        .unwrap();
    assert_eq!(touched.timestamp, 100);
}

#[test]
fn retention_is_non_destructive() {
    let now: i64 = 1_000_000_000;
    let config = default_config();
    let cutoffs = config.get_expired_ts(now);
    let mut store = Store::new();
    let old_row = store
        .add_clipboard_entry(candidate(
            "old text",
            ContentType::Text,
            "h-old",
            None,
            now - 8 * 86400,
        ))
        .unwrap();
    let listed = store.get_clipboards_by_type_list(None, Some(10), None, cutoffs);
    assert_eq!(listed.len(), 0);
    let fetched = store.get_entries_by_id_list(Some(vec![old_row.id]));
    assert_eq!(fetched.len(), 1);
    assert_eq!(fetched[0].id, old_row.id);
    assert_eq!(fetched[0].content, "old text");
}

#[test]
fn retention_cutoffs_are_per_type() {
    let now: i64 = 1_000_000_000;
    let config = default_config();
    let cutoffs = config.get_expired_ts(now);
    assert_eq!(cutoffs.0, now - 7 * 86400);
    assert_eq!(cutoffs.1, now - 3 * 86400);
    assert_eq!(cutoffs.2, now - 3 * 86400);
    let mut store = Store::new();
    // five days old: inside the text window, outside the image window
    store
        .add_clipboard_entry(candidate("t", ContentType::Text, "h-t", None, now - 5 * 86400))
        .unwrap();
    store
        .add_clipboard_entry(candidate("i", ContentType::Image, "h-i", Some("/p.png"), now - 5 * 86400))
        .unwrap();
    let listed = store.get_clipboards_by_type_list(None, Some(10), None, cutoffs);
    assert_eq!(listed.len(), 1);
    assert_eq!(listed[0].content, "t");
}

#[test]
fn ordering_is_timestamp_descending() {
    let cutoffs = (-1_000_000, -1_000_000, -1_000_000);
    let mut store = Store::new();
    store
        .add_clipboard_entry(candidate("a", ContentType::Text, "ha", None, 10))
        .unwrap();
    store
        .add_clipboard_entry(candidate("b", ContentType::Text, "hb", None, 30))
        .unwrap();
    store
        .add_clipboard_entry(candidate("c", ContentType::Text, "hc", None, 20))
        .unwrap();
    let listed = store.get_clipboards_by_type_list(None, Some(10), None, cutoffs);
    assert_eq!(listed.len(), 3);
    assert!(listed[0].timestamp > listed[1].timestamp);
    assert!(listed[1].timestamp > listed[2].timestamp);
    assert_eq!(listed[0].content, "b");
    assert_eq!(listed[1].content, "c");
    assert_eq!(listed[2].content, "a");
}

#[test]
fn limit_caps_the_newest_rows() {
    let cutoffs = (-1, -1, -1);
    let mut store = Store::new();
    for i in 0..5i64 {
        store
            .add_clipboard_entry(candidate(
                &format!("t{}", i),
                ContentType::Text,
                &format!("h{}", i),
                None,
                i * 10,
            ))
            .unwrap();
    }
    let listed = store.get_clipboards_by_type_list(None, Some(2), None, cutoffs);
    assert_eq!(listed.len(), 2);
    assert_eq!(listed[0].content, "t4");
    assert_eq!(listed[1].content, "t3");
}

#[test]
fn search_is_case_sensitive_in_the_query() {
    let cutoffs = (-1, -1, -1);
    let mut store = Store::new();
    store
        .add_clipboard_entry(candidate("abc only", ContentType::Text, "h1", None, 10))
        .unwrap();
    let upper = store.get_clipboards_by_type_list(Some("ABC"), Some(10), None, cutoffs);
    assert_eq!(upper.len(), 0);
    let lower = store.get_clipboards_by_type_list(Some("abc"), Some(10), None, cutoffs);
    assert_eq!(lower.len(), 1);
}

#[test]
fn search_folds_the_stored_column() {
    let cutoffs = (-1, -1, -1);
    let mut store = Store::new();
    store
        .add_clipboard_entry(candidate("MiXeD Case", ContentType::Text, "h1", None, 10))
        .unwrap();
    let hit = store.get_clipboards_by_type_list(Some("mixed c"), Some(10), None, cutoffs);
    assert_eq!(hit.len(), 1);
}

#[test]
fn type_filter_restricts_results() {
    let cutoffs = (-1, -1, -1);
    let mut store = Store::new();
    store
        .add_clipboard_entry(candidate("t", ContentType::Text, "h1", None, 10))
        .unwrap();
    store
        .add_clipboard_entry(candidate("f", ContentType::File, "h2", Some("[\"/a\"]"), 20))
        .unwrap();
    let files = store.get_clipboards_by_type_list(None, Some(10), Some(vec![2]), cutoffs);
    assert_eq!(files.len(), 1);
    assert_eq!(files[0].content, "f");
    let none = store.get_clipboards_by_type_list(None, Some(10), Some(vec![]), cutoffs);
    assert_eq!(none.len(), 0);
}

#[test]
fn delete_by_id_removes_one_row() {
    let mut store = Store::new();
    let a = store
        .add_clipboard_entry(candidate("a", ContentType::Text, "ha", None, 10))
        .unwrap();
    store
        .add_clipboard_entry(candidate("b", ContentType::Text, "hb", None, 20))
        .unwrap();
    assert!(store.delete_clipboard_entry(a.id));
    assert!(!store.delete_clipboard_entry(a.id));
    assert_eq!(store.len(), 1);
    let rest = store.get_entries_by_gt_timestamp(-1);
    assert_eq!(rest[0].content, "b");
}

#[test]
fn helper_list_and_search_compose_retention() {
    let now: i64 = 2_000_000_000;
    let mut helper = ClipboardHelper::new(default_config());
    helper
        .store
        .add_clipboard_entry(candidate("fresh note", ContentType::Text, "hf", None, now - 60))
        .unwrap();
    helper
        .store
        .add_clipboard_entry(candidate(
            "stale note",
            ContentType::Text,
            "hs",
            None,
            now - 8 * 86400,
        ))
        .unwrap();
    let listed = helper.get_clipboards(10, None, now);
    assert_eq!(listed.len(), 1);
    assert_eq!(listed[0].content, "fresh note");
    let found = helper.search_clipboards("note", 10, None, now);
    assert_eq!(found.len(), 1);
    let missed = helper.search_clipboards("NOTE", 10, None, now);
    assert_eq!(missed.len(), 0);
}

#[test]
fn user_config_is_replaceable() {
    let mut helper = ClipboardHelper::new(default_config());
    assert_eq!(helper.get_user_config().expired_config.text, 7);
    let new_config = UserConfig {
        expired_config: ExpiredConfig { text: 1, img: 2, file: 3 },
        preview_config: PreviewConfig { preview_number: 5 },
    };
    helper.set_user_config(new_config);
    assert_eq!(helper.get_user_config().expired_config.text, 1);
    assert_eq!(helper.get_user_config().preview_config.preview_number, 5);
}

#[test]
fn default_user_config_values() {
    let d = UserConfig::default();
    assert_eq!(d.expired_config.text, 7);
    assert_eq!(d.expired_config.img, 3);
    assert_eq!(d.expired_config.file, 3);
    assert_eq!(d.preview_config.preview_number, 20);
}

fn row(ty: i32, content: &str, path: &str) -> Model {
    Model {
        id: 1,
        ty,
        path: path.to_string(),
        content: content.to_string(),
        timestamp: 0,
        hash: "h".to_string(),
    }
}

#[test]
fn set_payload_texts() {
    let items = vec![row(0, "one", ""), row(0, "two", "")];
    match prepare_set_payload(items) {
        Ok(ClipboardPayload::Texts(t)) => assert_eq!(t, vec!["one", "two"]),
        other => panic!("unexpected payload: {:?}", other),
    }
}

#[test]
fn set_payload_files_expand_encoded_paths() {
    let items = vec![row(2, "f", "[\"/a.txt\",\"/b.txt\"]"), row(1, "i", "/tmp/a.png")];
    // mixed types are rejected first
    match prepare_set_payload(items) {
        Err(e) => assert_eq!(e, "All items must have the same type"),
        other => panic!("unexpected payload: {:?}", other),
    }
    let files = vec![row(2, "f", "[\"/a.txt\",\"/b.txt\"]"), row(2, "g", "/raw/path")];
    match prepare_set_payload(files) {
        Ok(ClipboardPayload::Files(f)) => {
            assert_eq!(f, vec!["/a.txt", "/b.txt", "/raw/path"])
        },
        other => panic!("unexpected payload: {:?}", other),
    }
}

#[test]
fn set_payload_rejects_empty_and_unknown() {
    match prepare_set_payload(vec![]) {
        Err(e) => assert_eq!(e, "Invalid type"),
        other => panic!("unexpected payload: {:?}", other),
    }
    match prepare_set_payload(vec![row(7, "x", "")]) {
        Err(e) => assert_eq!(e, "Invalid type"),
        other => panic!("unexpected payload: {:?}", other),
    }
}
