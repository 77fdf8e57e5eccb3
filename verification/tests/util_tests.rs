use chrono::Offset;

use supercv::logger::convert_log;
use supercv::models::{ClientError, User, UserResp};
use supercv::path::{extension_of, file_name_of, is_image_ext};
use supercv::text::{contains_substring, is_blank, lower_ascii};
use supercv::time::{get_current_timestamp, timestamp_to_datetime};

#[test]
fn test_get_current_timestamp() {
    let current_timestamp = get_current_timestamp();
    println!("当前时间戳: {}", current_timestamp);
    assert!(current_timestamp > 0);
}

#[test]
fn test_timestamp_to_datetime() {
    let current_timestamp = get_current_timestamp();
    let local_offset = chrono::Local::now().offset().fix().local_minus_utc();
    let datetime = timestamp_to_datetime(current_timestamp, local_offset).unwrap();
    println!(
        "当前是{}年{}月{}日",
        datetime.year, datetime.month, datetime.day
    );
    assert!(current_timestamp > 0);
}

#[test]
fn epoch_at_utc_is_1970() {
    let d = timestamp_to_datetime(0, 0).unwrap();
    assert_eq!((d.year, d.month, d.day), (1970, 1, 1));
}

#[test]
fn offset_shifts_the_calendar_day() {
    let d = timestamp_to_datetime(0, -3600).unwrap();
    assert_eq!((d.year, d.month, d.day), (1969, 12, 31));
    let e = timestamp_to_datetime(86400, 0).unwrap();
    assert_eq!((e.year, e.month, e.day), (1970, 1, 2));
}

#[test]
fn out_of_range_dates_are_rejected() {
    assert!(timestamp_to_datetime(i64::MAX, 0).is_none());
    assert!(timestamp_to_datetime(0, 100_000).is_none());
}

#[test]
fn convert_log_names_levels() {
    assert_eq!(convert_log(Some(0)), "trace");
    assert_eq!(convert_log(Some(1)), "error");
    assert_eq!(convert_log(Some(2)), "warn");
    assert_eq!(convert_log(Some(3)), "info");
    assert_eq!(convert_log(Some(4)), "debug");
    assert_eq!(convert_log(Some(5)), "trace");
    assert_eq!(convert_log(Some(9)), "debug");
    assert_eq!(convert_log(None), "debug");
}

#[test]
fn file_name_takes_the_final_component() {
    assert_eq!(file_name_of("/tmp/a.png").unwrap(), "a.png");
    assert_eq!(file_name_of("a.png").unwrap(), "a.png");
    assert_eq!(file_name_of("/tmp/dir/").unwrap(), "dir");
    assert!(file_name_of("/").is_none());
    assert!(file_name_of("").is_none());
    assert!(file_name_of("..").is_none());
    assert!(file_name_of("/tmp/.").is_none());
}

#[test]
fn extension_follows_the_last_dot() {
    assert_eq!(extension_of("a.png").unwrap(), "png");
    assert_eq!(extension_of("archive.tar.gz").unwrap(), "gz");
    assert!(extension_of("Makefile").is_none());
    assert!(extension_of(".gitignore").is_none());
    assert_eq!(extension_of("a.").unwrap(), "");
}

#[test]
fn image_extensions_fold_case() {
    assert!(is_image_ext("png"));
    assert!(is_image_ext("PNG"));
    assert!(is_image_ext("HEIC"));
    assert!(is_image_ext("JpEg"));
    assert!(!is_image_ext("txt"));
    assert!(!is_image_ext(""));
}

#[test]
fn lowercasing_is_ascii_only() {
    assert_eq!(lower_ascii("AbC123"), "abc123");
    assert_eq!(lower_ascii("ÄbC"), "Äbc");
}

#[test]
fn substring_containment() {
    assert!(contains_substring("hello world", "lo wo"));
    assert!(contains_substring("hello", ""));
    assert!(!contains_substring("hello", "world"));
    assert!(!contains_substring("", "a"));
}

#[test]
fn blank_detection_covers_unicode_whitespace() {
    assert!(is_blank(""));
    assert!(is_blank(" \t\r\n\u{a0}\u{3000}"));
    assert!(!is_blank(" a "));
}

#[test]
fn user_keeps_account_fields_of_response() {
    let resp = UserResp {
        id: 9,
        username: "u".to_string(),
        email: "u@example.com".to_string(),
        password_hash: "ph".to_string(),
        encrypted_dek: "dek".to_string(),
        created_at: 111,
        updated_at: 222,
    };
    let user = User::from(resp);
    assert_eq!(user.id, 9);
    assert_eq!(user.username, "u");
    assert_eq!(user.email, "u@example.com");
    assert_eq!(user.password_hash, "ph");
    assert_eq!(user.encrypted_dek, "dek");
}

#[test]
fn client_error_messages() {
    assert_eq!(
        ClientError::NetworkError("down".to_string()).message(),
        "Network error: down"
    );
    assert_eq!(
        ClientError::ApiError { code: 404, message: "missing".to_string() }.message(),
        "API error (404): missing"
    );
    assert_eq!(
        ClientError::SerializationError("bad json".to_string()).message(),
        "Serialization error: bad json"
    );
    assert_eq!(
        ClientError::UnexpectedError("boom".to_string()).message(),
        "Unexpected error: boom"
    );
}
