use tiktok_archiver::encoding::{decode_json_file_bytes, utf16_units_to_string, DecodeError};
use tiktok_archiver::text::{contains, ends_with, i64_to_text, parse_i64, parse_u32, starts_with,
    str_eq, take_chars, trim, trim_end, u64_to_text};

#[test]
fn trims_unicode_whitespace() {
    assert_eq!(trim("  a b \n\t"), "a b");
    assert_eq!(trim("\u{3000}x\u{a0}"), "x");
    assert_eq!(trim_end("  a  "), "  a");
    assert_eq!(trim(" \n "), "");
}

#[test]
fn matching_helpers() {
    assert!(ends_with("alice:false", ":false"));
    assert!(!ends_with("false", ":false"));
    assert!(starts_with(".tiktok.com", "."));
    assert!(contains("www.tiktok.com", "tiktok.com"));
    assert!(!contains("tiktok.co", "tiktok.com"));
    assert!(contains("abc", ""));
    assert!(str_eq("sid_tt", "sid_tt"));
    assert!(!str_eq("sid_tt", "sid_t"));
}

#[test]
fn parses_integers_like_std() {
    for s in ["0", "12", "-12", "+7", "9223372036854775807", "-9223372036854775808", "", "-", "+", "1a", " 1", "9223372036854775808", "007", "\u{0663}"] {
        assert_eq!(parse_i64(s), s.parse::<i64>().ok(), "{s:?}");
    }
    for s in ["0", "4294967295", "4294967296", "+1", "-1", "", "18446744073709551616"] {
        assert_eq!(parse_u32(s), s.parse::<u32>().ok(), "{s:?}");
    }
}

#[test]
fn formats_integers_like_std() {
    for n in [0i64, 7, -7, 10, 1234567890, i64::MAX, i64::MIN] {
        assert_eq!(i64_to_text(n), n.to_string());
    }
    assert_eq!(u64_to_text(u64::MAX), u64::MAX.to_string());
}

#[test]
fn takes_chars() {
    assert_eq!(take_chars("héllo", 2), "hé");
    assert_eq!(take_chars("hi", 5), "hi");
}

#[test]
fn decodes_plain_and_bom_utf8() {
    assert_eq!(decode_json_file_bytes(b"[1]"), Ok("[1]".to_string()));
    assert_eq!(decode_json_file_bytes(&[0xEF, 0xBB, 0xBF, b'[', b']']), Ok("[]".to_string()));
    assert_eq!(decode_json_file_bytes("[\"é\"]".as_bytes()), Ok("[\"é\"]".to_string()));
}

#[test]
fn blank_file_reads_as_empty_list() {
    assert_eq!(decode_json_file_bytes(b""), Ok("[]".to_string()));
    assert_eq!(decode_json_file_bytes(b" \r\n\t "), Ok("[]".to_string()));
}

#[test]
fn decodes_utf16_both_orders() {
    let le = [0xFF, 0xFE, b'[', 0, b']', 0];
    assert_eq!(decode_json_file_bytes(&le), Ok("[]".to_string()));
    let be = [0xFE, 0xFF, 0, b'[', 0xD8, 0x3D, 0xDE, 0x00, 0, b']'];
    assert_eq!(decode_json_file_bytes(&be), Ok("[\u{1F600}]".to_string()));
    assert_eq!(decode_json_file_bytes(&[0xFF, 0xFE, b'[']), Err(DecodeError::Utf16LeOddLength));
    assert_eq!(decode_json_file_bytes(&[0xFE, 0xFF, b'[']), Err(DecodeError::Utf16BeOddLength));
    assert_eq!(decode_json_file_bytes(&[0xFF, 0xFE, 0x00, 0xD8]), Err(DecodeError::Utf16));
}

#[test]
fn invalid_utf8_is_an_error() {
    assert_eq!(decode_json_file_bytes(&[b'[', 0xC3, b']']), Err(DecodeError::Utf8));
}

#[test]
fn utf16_units_drop_one_bom() {
    assert_eq!(utf16_units_to_string(&[0xFEFF, 0x61]), Ok("a".to_string()));
    assert_eq!(utf16_units_to_string(&[0xFEFF, 0xFEFF, 0x61]), Ok("\u{FEFF}a".to_string()));
    assert_eq!(utf16_units_to_string(&[0xDC00]), Err(DecodeError::Utf16));
}
