use supercv::base64::{decode_base64, encode_base64};
use supercv::hash::{hash_str, hash_vec};
use supercv::numfmt::{dec_i64, dec_u64, hex_u64};
use supercv::file::format_size;
use supercv::pathlist::{decode_path_list, encode_path_list};

#[test]
fn base64_known_vector() {
    assert_eq!(encode_base64(b"Hello, World!"), "SGVsbG8sIFdvcmxkIQ==");
    assert_eq!(encode_base64(b""), "");
    assert_eq!(encode_base64(b"a"), "YQ==");
    assert_eq!(encode_base64(b"ab"), "YWI=");
    assert_eq!(encode_base64(b"abc"), "YWJj");
}

#[test]
fn base64_decode_known_vector() {
    assert_eq!(decode_base64("VGVzdCBjb250ZW50").unwrap(), b"Test content");
    assert_eq!(decode_base64("").unwrap(), Vec::<u8>::new());
    assert_eq!(decode_base64("YQ==").unwrap(), b"a");
    assert_eq!(decode_base64("YWI=").unwrap(), b"ab");
}

#[test]
fn base64_round_trip() {
    let data: Vec<u8> = (0u8..=255).collect();
    let encoded = encode_base64(&data);
    assert_eq!(decode_base64(&encoded).unwrap(), data);
}

#[test]
fn base64_rejects_malformed_input() {
    assert!(decode_base64("a").is_err());
    assert!(decode_base64("ab=").is_err());
    assert!(decode_base64("====").is_err());
    assert!(decode_base64("YQ==YQ==").is_err());
    assert!(decode_base64("Y Q==").is_err());
    assert!(decode_base64("YWJj!").is_err());
}

#[test]
fn path_list_round_trip() {
    let paths = vec!["/a.txt".to_string(), "/b c/d\"e\\f.txt".to_string()];
    let encoded = encode_path_list(&paths);
    assert_eq!(decode_path_list(&encoded).unwrap(), paths);
}

#[test]
fn path_list_encoding_is_compact_json() {
    assert_eq!(encode_path_list(&vec![]), "[]");
    assert_eq!(encode_path_list(&vec!["/a.txt".to_string()]), "[\"/a.txt\"]");
    assert_eq!(
        encode_path_list(&vec!["/a.txt".to_string(), "/b.txt".to_string()]),
        "[\"/a.txt\",\"/b.txt\"]"
    );
    assert_eq!(encode_path_list(&vec!["a\"b".to_string()]), "[\"a\\\"b\"]");
    assert_eq!(encode_path_list(&vec!["a\nb".to_string()]), "[\"a\\nb\"]");
    assert_eq!(encode_path_list(&vec!["a\u{1}b".to_string()]), "[\"a\\u0001b\"]");
}

#[test]
fn path_list_decode_rejects_non_arrays() {
    assert!(decode_path_list("/plain/path").is_none());
    assert!(decode_path_list("[").is_none());
    assert!(decode_path_list("[\"unterminated]").is_none());
    assert!(decode_path_list("[\"a\",]").is_none());
    assert!(decode_path_list("[1,2]").is_none());
    assert!(decode_path_list("[\"a\"] ").is_none());
    assert_eq!(decode_path_list("[]").unwrap(), Vec::<String>::new());
    assert_eq!(decode_path_list("[\"a\\u0041\"]").unwrap(), vec!["aA"]);
}

#[test]
fn hash_is_deterministic_lowercase_hex() {
    let h1 = hash_str("hello");
    let h2 = hash_str("hello");
    assert_eq!(h1, h2);
    assert_ne!(h1, hash_str("world"));
    assert_ne!(h1, "hello");
    assert!(h1.chars().all(|c| c.is_ascii_hexdigit() && !c.is_ascii_uppercase()));
    // the zero-length digest of this XXH3 revision
    assert_eq!(hash_str(""), "0");
    assert_eq!(hash_vec(&[]), "0");
}

#[test]
fn hash_str_matches_hash_vec_on_utf8_bytes() {
    assert_eq!(hash_str("hello"), hash_vec(b"hello"));
    assert_eq!(hash_str("héllo"), hash_vec("héllo".as_bytes()));
}

#[test]
fn decimal_and_hex_rendering() {
    assert_eq!(dec_u64(0), "0");
    assert_eq!(dec_u64(90834), "90834");
    assert_eq!(dec_i64(-5), "-5");
    assert_eq!(dec_i64(i64::MIN), "-9223372036854775808");
    assert_eq!(hex_u64(0), "0");
    assert_eq!(hex_u64(255), "ff");
    assert_eq!(hex_u64(0xdeadbeef), "deadbeef");
}

#[test]
fn format_size_scales_and_rounds() {
    assert_eq!(format_size(0), "0 B");
    assert_eq!(format_size(123), "123 B");
    assert_eq!(format_size(1023), "1023 B");
    assert_eq!(format_size(1024), "1.00 KB");
    assert_eq!(format_size(2560), "2.50 KB");
    assert_eq!(format_size(1048576), "1.00 MB");
    assert_eq!(format_size(1073741824), "1.00 GB");
    // an exact half rounds to the even hundredth
    assert_eq!(format_size(1152), "1.12 KB");
}
