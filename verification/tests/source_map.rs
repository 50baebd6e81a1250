//! Source maps carried inside the program.

use inlining::source_map::{find_inline_map, inline_source_map, rfind, Base64Error};

const MARKER: &str = "sourceMappingURL=data:application/json;base64,";

#[test]
fn rfind_finds_the_last_occurrence() {
    assert_eq!(rfind(b"abcabc", b"bc"), Some(4));
    assert_eq!(rfind(b"abcabc", b"ab"), Some(3));
    assert_eq!(rfind(b"abcabc", b"abcabc"), Some(0));
    assert_eq!(rfind(b"aaaa", b"aa"), Some(2));
}

#[test]
fn rfind_of_what_is_not_there() {
    assert_eq!(rfind(b"abcabc", b"cb"), None);
    assert_eq!(rfind(b"abc", b"abcd"), None);
    assert_eq!(rfind(b"", b"a"), None);
}

#[test]
fn rfind_of_the_empty_needle_is_the_end() {
    assert_eq!(rfind(b"abc", b""), Some(3));
    assert_eq!(rfind(b"", b""), Some(0));
}

#[test]
fn payload_is_what_follows_the_last_marker() {
    let src = format!("a;\n//# {}AAAA\n//# {}eyJ9", MARKER, MARKER);
    assert_eq!(find_inline_map(src.as_bytes()), Some(&b"eyJ9"[..]));
    assert_eq!(find_inline_map(MARKER.as_bytes()), Some(&b""[..]));
    assert_eq!(find_inline_map(b"a; // sourceMappingURL=a.js.map"), None);
}

#[test]
fn inline_source_map_is_decoded() {
    let src = format!("a;\n//# {}eyJ2ZXJzaW9uIjozfQ==", MARKER);
    assert_eq!(inline_source_map(src.as_bytes()), Some(Ok(b"{\"version\":3}".to_vec())));
}

#[test]
fn program_without_a_source_map_comment() {
    assert_eq!(inline_source_map(b"a;"), None);
    assert_eq!(inline_source_map(b""), None);
}

#[test]
fn empty_payload_is_the_empty_map() {
    assert_eq!(inline_source_map(MARKER.as_bytes()), Some(Ok(vec![])));
}

#[test]
fn payload_is_read_with_the_standard_alphabet() {
    let standard = format!("{}Pz8+", MARKER);
    assert_eq!(inline_source_map(standard.as_bytes()), Some(Ok(b"??>".to_vec())));
    let url_safe = format!("{}Pz8-", MARKER);
    assert_eq!(
        inline_source_map(url_safe.as_bytes()),
        Some(Err(Base64Error::InvalidByte { offset: 3, byte: b'-' }))
    );
}

#[test]
fn payload_of_a_wrong_length() {
    let src = format!("{}eyJ9A", MARKER);
    assert_eq!(inline_source_map(src.as_bytes()), Some(Err(Base64Error::InvalidLength)));
}

#[test]
fn payload_with_a_wrong_last_symbol() {
    let src = format!("{}YR==", MARKER);
    assert_eq!(
        inline_source_map(src.as_bytes()),
        Some(Err(Base64Error::InvalidLastSymbol { offset: 1, byte: b'R' }))
    );
}
