//! Structured log formatting, driven the way the logging macros of
//! the surrounding binaries drive it.

use bigneon::logfmt::{format_message, is_in_message_format, render_log_line, transform_message,
    LogLevel};

#[test]
fn plain() {
    let record = transform_message(LogLevel::Info, None, "message", "");
    assert_eq!(record.level, LogLevel::Info);
    assert!(record.target.is_none());
    assert_eq!(record.message, "\"message\": \"message\"");
}

#[test]
fn test1() {
    let mut meta_object = serde_json::Map::new();
    meta_object.insert("a".to_string(), serde_json::Value::from(1));
    let meta = serde_json::Value::Object(meta_object).to_string();
    assert_eq!(meta, "{\"a\":1}");
    let record = transform_message(LogLevel::Info, None, "test", &meta);
    assert_eq!(record.message, "\"message\": \"test\", \"a\":1");
}

#[test]
fn test2() {
    let mut meta_object = serde_json::Map::new();
    meta_object.insert("a".to_string(), serde_json::Value::from(1));
    meta_object.insert("b".to_string(), serde_json::Value::from("jake"));
    meta_object.insert("c".to_string(), serde_json::Value::from(vec![3, 2, 1]));
    let meta = serde_json::Value::Object(meta_object).to_string();
    assert_eq!(meta, "{\"a\":1,\"b\":\"jake\",\"c\":[3,2,1]}");
    let record = transform_message(LogLevel::Error, None, "test", &meta);
    assert_eq!(record.level, LogLevel::Error);
    assert_eq!(
        record.message,
        "\"message\": \"test\", \"a\":1,\"b\":\"jake\",\"c\":[3,2,1]"
    );
}

#[test]
fn trims_whitespace_and_keeps_target() {
    let record = transform_message(LogLevel::Warn, Some("api"), "  spaced out \n", "");
    assert_eq!(record.target.as_deref(), Some("api"));
    assert_eq!(record.message, "\"message\": \"spaced out\"");
}

#[test]
fn message_format_detection() {
    assert!(is_in_message_format("\"message\": \"x\""));
    assert!(!is_in_message_format("plain text"));
    assert!(!is_in_message_format("\"messag"));
}

#[test]
fn renders_full_log_line() {
    let line = render_log_line("[2019-01-01][00:00:00]", LogLevel::Info, "api", "hello");
    assert_eq!(
        line,
        "{ \"time\": \"[2019-01-01][00:00:00]\", \"level\": \"INFO\", \"target\": \"api\", \"message\": \"hello\" }"
    );
    let preformatted = format_message("hello", "");
    let line2 = render_log_line("[t]", LogLevel::Debug, "api", &preformatted);
    assert_eq!(
        line2,
        "{ \"time\": \"[t]\", \"level\": \"DEBUG\", \"target\": \"api\", \"message\": \"hello\" }"
    );
}

#[test]
fn trims_unicode_whitespace() {
    // str::trim strips every Unicode White_Space character; so does
    // the formatter.
    let record = transform_message(LogLevel::Info, None, "\u{a0}\u{2003}padded\u{3000} ", "");
    assert_eq!(record.message, "\"message\": \"padded\"");
    assert_eq!(
        record.message,
        format!("\"message\": \"{}\"", "\u{a0}\u{2003}padded\u{3000} ".trim())
    );
}
