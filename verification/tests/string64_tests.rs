use textbuf64::buffer::TextBuffer;
use textbuf64::bytestr::bytes_to_str;
use textbuf64::string64::String64;

#[test]
fn new_is_empty() {
    let s = String64::new();
    assert_eq!(s.as_str(), "");
    assert_eq!(s.len(), 0);
    assert_eq!(s.raw().len(), 64);
    assert!(s.raw().iter().all(|b| *b == 0));
}

#[test]
fn default_is_empty() {
    let s = String64::default();
    assert_eq!(s.as_str(), "");
}

#[test]
fn push_scenario_hello_world() {
    let mut s = String64::new();
    s.push("hello");
    s.push(" world");
    assert_eq!(s.as_str(), "hello world");
    assert_eq!(s.len(), 11);
}

#[test]
fn push_overflow_is_noop() {
    let mut s = String64::from("0123456789012345678901234567890123456789012345678901234567890");
    assert_eq!(s.len(), 61);
    s.push("abcd");
    assert_eq!(s.len(), 61);
    s.push("abc");
    assert_eq!(s.len(), 64);
}

#[test]
fn push_clips_at_nul() {
    let mut s = String64::new();
    s.push("a\0b");
    assert_eq!(s.as_str(), "a");
    assert_eq!(s.len(), 1);
}

#[test]
fn from_round_trips_short_strings() {
    for text in ["", "hello", "café", "αβγ", "🦀🦀", "exactly sixty four bytes of text, padded ____until the boundary"] {
        assert!(text.len() <= 64);
        assert_eq!(String64::from(text).as_str(), text);
    }
}

#[test]
fn from_truncates_long_input_at_char_boundary() {
    let long = "a".repeat(70);
    let s = String64::from(long.as_str());
    assert_eq!(s.as_str(), "a".repeat(64));
    assert_eq!(s.len(), 64);

    let mut tricky = "a".repeat(63);
    tricky.push('é');
    assert_eq!(tricky.len(), 65);
    let s = String64::from(tricky.as_str());
    assert_eq!(s.as_str(), "a".repeat(63));
    assert_eq!(s.len(), 63);
}

#[test]
fn from_clips_at_nul() {
    let s = String64::from("a\0b");
    assert_eq!(s.as_str(), "a");
    assert_eq!(s.len(), 1);
}

#[test]
fn as_bytes_and_raw() {
    let s = String64::from("hi");
    assert_eq!(s.as_bytes(), b"hi");
    let raw = s.raw();
    assert_eq!(raw.len(), 64);
    assert_eq!(&raw[0..2], b"hi");
    assert!(raw[2..].iter().all(|b| *b == 0));
}

#[test]
fn try_from_valid_bytes() {
    let s = String64::try_from(b"hi".as_slice()).unwrap();
    assert_eq!(s.as_str(), "hi");
}

#[test]
fn try_from_embedded_zero_reads_prefix() {
    let s = String64::try_from([97u8, 0, 98].as_slice()).unwrap();
    assert_eq!(s.as_str(), "a");
    assert_eq!(s.len(), 1);
}

#[test]
fn try_from_invalid_utf8_is_error() {
    assert!(String64::try_from([97u8, 195].as_slice()).is_err());
    assert!(String64::try_from([0xffu8, 0xff].as_slice()).is_err());
}

#[test]
fn try_from_does_not_walk_back_to_a_boundary() {
    let mut tricky = "a".repeat(63).into_bytes();
    tricky.extend_from_slice("é".as_bytes());
    assert_eq!(tricky.len(), 65);
    assert!(String64::try_from(tricky.as_slice()).is_err());

    let long = "a".repeat(70).into_bytes();
    let s = String64::try_from(long.as_slice()).unwrap();
    assert_eq!(s.len(), 64);
}

#[test]
fn clone_and_eq() {
    let s = String64::from("abc");
    let t = s.clone();
    assert_eq!(s, t);
    assert!(s < String64::from("abd"));
}

#[test]
fn string64_is_a_copy_value() {
    let s = String64::from("abc");
    let t = s;
    assert_eq!(s.as_str(), "abc");
    assert_eq!(t, s);
}

#[test]
fn to_i32_parses() {
    assert_eq!(String64::from("42").to_i32(), 42);
    assert_eq!(String64::from("+123").to_i32(), 123);
    assert_eq!(String64::from("-2147483648").to_i32(), -2147483648);
}

#[test]
fn to_i32_checked_reports_errors() {
    assert_eq!(String64::from("-7").to_i32_checked(), Ok(-7));
    assert!(String64::new().to_i32_checked().is_err());
    assert!(String64::from("abc").to_i32_checked().is_err());
    assert!(String64::from("2147483648").to_i32_checked().is_err());
    assert!(String64::from("1.5").to_i32_checked().is_err());
}

#[test]
fn string64_insert_text_truncates_silently() {
    let mut s = String64::from("a".repeat(60).as_str());
    let reported = s.insert_text("bbbbbbbb", 60);
    assert_eq!(reported, 8);
    let mut expected = "a".repeat(60);
    expected.push_str("bbbb");
    assert_eq!(s.as_str(), expected);
    assert_eq!(s.len(), 64);
}

#[test]
fn string64_delete_char_range() {
    let mut s = String64::from("café");
    s.delete_char_range(1..3);
    assert_eq!(s.as_str(), "cé");
}

#[test]
fn string64_is_a_mutable_buffer() {
    let mut s = String64::new();
    assert!(s.is_mutable());
    let n = s.insert_text("hey", 0);
    assert_eq!(n, 3);
    assert_eq!(s.as_str(), "hey");
}

#[test]
fn bytes_to_str_skips_leading_and_trailing_zeros() {
    assert_eq!(bytes_to_str(&[0, 0, 104, 105]), Ok("hi"));
    assert_eq!(bytes_to_str(&[104, 105, 0, 0]), Ok("hi"));
    assert_eq!(bytes_to_str(&[104, 0, 105]), Ok("h"));
}

#[test]
fn bytes_to_str_empty_cases() {
    assert_eq!(bytes_to_str(&[]), Ok(""));
    assert_eq!(bytes_to_str(&[0, 0, 0]), Ok(""));
}

#[test]
fn bytes_to_str_single_byte_runs() {
    assert_eq!(bytes_to_str(&[65]), Ok("A"));
    assert_eq!(bytes_to_str(&[0, 65]), Ok("A"));
    assert_eq!(bytes_to_str(&[0, 65, 0]), Ok("A"));
}

#[test]
fn bytes_to_str_invalid_utf8() {
    assert!(bytes_to_str(&[0xff, 0xff]).is_err());
}
