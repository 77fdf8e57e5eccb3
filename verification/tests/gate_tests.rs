use supercv::clipboard::{string_is_large, ClipboardHandle};
use supercv::pasteboard::ContentType;
use supercv::store::Store;
use supercv::time::{CaptureMoment, DateParts};

#[test]
fn in_process_dedup_suppresses_repeats() {
    let mut gate = ClipboardHandle::new("/tmp/imgs".to_string());
    let mut emitted = 0;
    if gate.new_text_content("same text".to_string(), 10).is_some() {
        emitted += 1;
    }
    if gate.new_text_content("same text".to_string(), 20).is_some() {
        emitted += 1;
    }
    assert_eq!(emitted, 1);
}

#[test]
fn distinct_capture_reopens_the_gate() {
    let mut gate = ClipboardHandle::new("/tmp/imgs".to_string());
    assert!(gate.new_text_content("a".to_string(), 1).is_some());
    assert!(gate.new_text_content("b".to_string(), 2).is_some());
    assert!(gate.new_text_content("a".to_string(), 3).is_some());
    assert!(gate.new_text_content("a".to_string(), 4).is_none());
}

#[test]
fn store_level_dedup_across_interleavings() {
    let mut gate = ClipboardHandle::new("/tmp/imgs".to_string());
    let mut store = Store::new();
    let c1 = gate.new_text_content("hello".to_string(), 100).unwrap();
    store.add_clipboard_entry(c1).unwrap();
    let c2 = gate
        .new_file_content(vec!["/tmp/a.png".to_string()], 0, 200)
        .unwrap();
    store.add_clipboard_entry(c2).unwrap();
    let c3 = gate.new_text_content("hello".to_string(), 300).unwrap();
    store.add_clipboard_entry(c3).unwrap();
    let rows = store.get_entries_by_gt_timestamp(-1);
    assert_eq!(rows.len(), 2);
    assert_eq!(rows[0].content, "hello");
    assert_eq!(rows[0].timestamp, 300);
    assert_eq!(rows[1].path, "/tmp/a.png");
    assert_eq!(rows[1].timestamp, 200);
}

#[test]
fn oversized_text_never_reaches_the_store() {
    let mut gate = ClipboardHandle::new("/tmp/imgs".to_string());
    let big = "a".repeat(250_001);
    assert!(string_is_large(&big));
    assert!(gate.new_text_content(big, 10).is_none());
    let edge = "a".repeat(250_000);
    assert!(!string_is_large(&edge));
    assert!(gate.new_text_content(edge, 11).is_some());
}

#[test]
fn blank_text_is_discarded() {
    let mut gate = ClipboardHandle::new("/tmp/imgs".to_string());
    assert!(gate.new_text_content("".to_string(), 1).is_none());
    assert!(gate.new_text_content(" \t\r\n".to_string(), 2).is_none());
    assert!(gate.new_text_content(" x ".to_string(), 3).is_some());
}

#[test]
fn single_image_path_is_stored_raw() {
    let mut gate = ClipboardHandle::new("/tmp/imgs".to_string());
    let c = gate
        .new_file_content(vec!["/tmp/a.png".to_string()], 0, 10)
        .unwrap();
    assert_eq!(c.path, "/tmp/a.png");
    assert_eq!(c.content_type, ContentType::Image);
    assert_eq!(c.text_content, "Img: a.png (0 B)");
}

#[test]
fn single_file_path_is_wrapped() {
    let mut gate = ClipboardHandle::new("/tmp/imgs".to_string());
    let c = gate
        .new_file_content(vec!["/tmp/a.txt".to_string()], 0, 10)
        .unwrap();
    assert_eq!(c.path, "[\"/tmp/a.txt\"]");
    assert_eq!(c.content_type, ContentType::File);
    assert_eq!(c.text_content, "File: a.txt (0 B)");
}

#[test]
fn multiple_paths_are_wrapped() {
    let mut gate = ClipboardHandle::new("/tmp/imgs".to_string());
    let c = gate
        .new_file_content(vec!["/a.txt".to_string(), "/b.txt".to_string()], 0, 10)
        .unwrap();
    assert_eq!(c.path, "[\"/a.txt\",\"/b.txt\"]");
    assert_eq!(c.content_type, ContentType::File);
    assert_eq!(c.text_content, "2 Files: a.txt, b.txt");
}

#[test]
fn image_extension_is_matched_case_insensitively() {
    let mut gate = ClipboardHandle::new("/tmp/imgs".to_string());
    let c = gate
        .new_file_content(vec!["/tmp/photo.HEIC".to_string()], 0, 10)
        .unwrap();
    assert_eq!(c.content_type, ContentType::Image);
    assert_eq!(c.path, "/tmp/photo.HEIC");
}

#[test]
fn empty_file_list_is_discarded() {
    let mut gate = ClipboardHandle::new("/tmp/imgs".to_string());
    assert!(gate.new_file_content(vec![], 0, 10).is_none());
}

#[test]
fn file_capture_hashes_the_path_field() {
    let mut gate = ClipboardHandle::new("/tmp/imgs".to_string());
    assert!(gate
        .new_file_content(vec!["/tmp/a.png".to_string()], 0, 10)
        .is_some());
    // the same single image path re-fires: suppressed
    assert!(gate
        .new_file_content(vec!["/tmp/a.png".to_string()], 0, 20)
        .is_none());
    // a distinct path is admitted
    assert!(gate
        .new_file_content(vec!["/tmp/b.png".to_string()], 0, 30)
        .is_some());
}

#[test]
fn image_capture_builds_dated_path_and_summary() {
    let mut gate = ClipboardHandle::new("/var/data/files".to_string());
    let bytes: Vec<u8> = vec![0u8; 12];
    let moment = CaptureMoment {
        timestamp: 1720900796,
        date: DateParts { year: 2024, month: 7, day: 14 },
    };
    let c = gate.new_img_content(2, 2, &bytes, moment).unwrap();
    assert_eq!(c.path, "/var/data/files/2024714/1720900796.png");
    assert_eq!(c.text_content, "Img: 2x2 (12 B)");
    assert_eq!(c.content_type, ContentType::Image);
    assert_eq!(c.timestamp, 1720900796);
    // identical pixels re-fire: suppressed
    assert!(gate.new_img_content(2, 2, &bytes, moment).is_none());
    // different pixels pass
    let other: Vec<u8> = vec![1u8; 12];
    assert!(gate.new_img_content(2, 2, &other, moment).is_some());
}

#[test]
fn content_type_column_values() {
    assert_eq!(ContentType::Text.to_i32(), 0);
    assert_eq!(ContentType::Image.to_i32(), 1);
    assert_eq!(ContentType::File.to_i32(), 2);
}
