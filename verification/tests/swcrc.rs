//! The message for a configuration file that cannot be read.

use inlining::swcrc::{describe_json_error, push_decimal, swcrc_error_message, JsonErrorKind};

fn decimal(n: usize) -> String {
    let mut out = String::new();
    push_decimal(n, &mut out);
    out
}

#[test]
fn numbers_in_decimal() {
    assert_eq!(decimal(0), "0");
    assert_eq!(decimal(7), "7");
    assert_eq!(decimal(9), "9");
    assert_eq!(decimal(10), "10");
    assert_eq!(decimal(1234567890), "1234567890");
    assert_eq!(decimal(usize::MAX), usize::MAX.to_string());
}

#[test]
fn decimal_is_appended() {
    let mut out = "line ".to_string();
    push_decimal(42, &mut out);
    assert_eq!(out, "line 42");
}

#[test]
fn message_for_each_kind() {
    assert_eq!(
        swcrc_error_message(JsonErrorKind::Io, 0, 0),
        "failed to deserialize .swcrc (json) file: io error: 0:0"
    );
    assert_eq!(
        swcrc_error_message(JsonErrorKind::Syntax, 3, 14),
        "failed to deserialize .swcrc (json) file: syntax error: 3:14"
    );
    assert_eq!(
        swcrc_error_message(JsonErrorKind::Data, 120, 7),
        "failed to deserialize .swcrc (json) file: unmatched data: 120:7"
    );
    assert_eq!(
        swcrc_error_message(JsonErrorKind::Eof, 1, 1),
        "failed to deserialize .swcrc (json) file: unexpected eof: 1:1"
    );
}

#[test]
fn message_for_a_file_that_ends_too_early() {
    let e = serde_json::from_str::<serde_json::Value>("{").unwrap_err();
    assert_eq!(
        describe_json_error(&e),
        "failed to deserialize .swcrc (json) file: unexpected eof: 1:1"
    );
}

#[test]
fn message_for_a_file_that_is_no_json() {
    let e = serde_json::from_str::<serde_json::Value>("{\n  \"a\": 1,\n}").unwrap_err();
    assert_eq!(
        describe_json_error(&e),
        "failed to deserialize .swcrc (json) file: syntax error: 3:1"
    );
}

#[test]
fn message_for_json_of_another_shape() {
    let e = serde_json::from_str::<u32>("\"x\"").unwrap_err();
    assert_eq!(
        describe_json_error(&e),
        "failed to deserialize .swcrc (json) file: unmatched data: 1:3"
    );
}

#[test]
fn message_for_bytes_that_cannot_be_read() {
    let e = serde_json::from_slice::<serde_json::Value>(b"\"\xff\"").unwrap_err();
    let message = describe_json_error(&e);
    assert!(message.starts_with("failed to deserialize .swcrc (json) file: "));
    assert!(message.ends_with(&format!(": {}:{}", e.line(), e.column())));
}
