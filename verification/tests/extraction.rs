use nlogger::attributes::Attributes;
use nlogger::decimal::{render_signed, render_truth, render_unsigned};
use nlogger::event::{AttrValue, LogEvent, RawAttribute, RawRecord};
use nlogger::level::{LogLevel, Severity};

fn field(key: &str, value: AttrValue) -> RawAttribute {
    RawAttribute { key: key.to_string(), value }
}

fn record(severity: Severity, message: &str, attributes: Vec<RawAttribute>) -> RawRecord {
    RawRecord { severity, message: message.to_string(), attributes, file: None, line: None }
}

#[test]
fn severities_map_to_four_levels() {
    assert_eq!(LogLevel::from_severity(Severity::Error), LogLevel::Error);
    assert_eq!(LogLevel::from_severity(Severity::Warn), LogLevel::Warning);
    assert_eq!(LogLevel::from_severity(Severity::Info), LogLevel::Info);
    assert_eq!(LogLevel::from_severity(Severity::Debug), LogLevel::Debug);
}

#[test]
fn trace_collapses_into_debug() {
    assert_eq!(LogLevel::from_severity(Severity::Trace), LogLevel::Debug);
}

#[test]
fn level_tags_are_the_four_symbols() {
    assert_eq!(LogLevel::Debug.tag(), "debug");
    assert_eq!(LogLevel::Info.tag(), "info");
    assert_eq!(LogLevel::Warning.tag(), "warning");
    assert_eq!(LogLevel::Error.tag(), "error");
}

#[test]
fn unsigned_numbers_render_as_decimal() {
    assert_eq!(render_unsigned(0), "0");
    assert_eq!(render_unsigned(7), "7");
    assert_eq!(render_unsigned(10), "10");
    assert_eq!(render_unsigned(12345), "12345");
    assert_eq!(render_unsigned(1000000), "1000000");
    assert_eq!(render_unsigned(u64::MAX), "18446744073709551615");
}

#[test]
fn signed_numbers_render_as_decimal() {
    assert_eq!(render_signed(0), "0");
    assert_eq!(render_signed(42), "42");
    assert_eq!(render_signed(-1), "-1");
    assert_eq!(render_signed(-907), "-907");
    assert_eq!(render_signed(i64::MAX), "9223372036854775807");
    assert_eq!(render_signed(i64::MIN), "-9223372036854775808");
}

#[test]
fn truth_values_render_as_words() {
    assert_eq!(render_truth(true), "true");
    assert_eq!(render_truth(false), "false");
}

#[test]
fn rendering_agrees_with_the_standard_library() {
    let samples: Vec<u64> = vec![0, 1, 9, 10, 11, 99, 100, 101, 4096, 65535, 99999, 100000];
    for n in samples {
        assert_eq!(render_unsigned(n), format!("{}", n));
        assert_eq!(render_signed(-(n as i64)), format!("{}", -(n as i64)));
    }
}

#[test]
fn attribute_values_render_by_kind() {
    assert_eq!(AttrValue::Text("plain".to_string()).render(), Some("plain".to_string()));
    assert_eq!(AttrValue::Signed(-5).render(), Some("-5".to_string()));
    assert_eq!(AttrValue::Unsigned(5).render(), Some("5".to_string()));
    assert_eq!(AttrValue::Flag(true).render(), Some("true".to_string()));
    assert_eq!(AttrValue::Opaque.render(), None);
}

#[test]
fn attributes_start_empty() {
    let attributes = Attributes::new();
    assert_eq!(attributes.len(), 0);
    assert!(attributes.get("a").is_none());
    assert!(attributes.entries().is_empty());
}

#[test]
fn attributes_keep_one_value_per_key() {
    let mut attributes = Attributes::new();
    attributes.insert("a".to_string(), "1".to_string());
    attributes.insert("b".to_string(), "2".to_string());
    attributes.insert("a".to_string(), "3".to_string());
    assert_eq!(attributes.len(), 2);
    assert_eq!(attributes.get("a"), Some(&"3".to_string()));
    assert_eq!(attributes.get("b"), Some(&"2".to_string()));
    assert!(attributes.get("c").is_none());
    let keys: Vec<&str> = attributes.entries().iter().map(|e| e.key.as_str()).collect();
    assert_eq!(keys, vec!["a", "b"]);
}

#[test]
fn attributes_duplicate_holds_the_same() {
    let mut attributes = Attributes::new();
    attributes.insert("k".to_string(), "v".to_string());
    let copy = attributes.duplicate();
    attributes.insert("k".to_string(), "w".to_string());
    assert_eq!(copy.len(), 1);
    assert_eq!(copy.get("k"), Some(&"v".to_string()));
    assert_eq!(attributes.get("k"), Some(&"w".to_string()));
}

#[test]
fn extract_copies_level_message_and_location() {
    let mut raw = record(Severity::Warn, "disk almost full", vec![]);
    raw.file = Some("f.src".to_string());
    raw.line = Some(10);
    let event = LogEvent::extract(&raw);
    assert_eq!(event.level(), LogLevel::Warning);
    assert_eq!(event.message(), "disk almost full");
    assert_eq!(event.source_file(), &Some("f.src".to_string()));
    assert_eq!(event.source_line(), &Some("10".to_string()));
    assert_eq!(event.attributes().len(), 0);
}

#[test]
fn extract_leaves_missing_location_absent() {
    let event = LogEvent::extract(&record(Severity::Info, "hello", vec![]));
    assert_eq!(event.source_file(), &None);
    assert_eq!(event.source_line(), &None);
}

#[test]
fn extract_stringifies_every_field() {
    let raw = record(
        Severity::Debug,
        "m",
        vec![
            field("text", AttrValue::Text("x y".to_string())),
            field("neg", AttrValue::Signed(-12)),
            field("pos", AttrValue::Unsigned(34)),
            field("flag", AttrValue::Flag(false)),
        ],
    );
    let event = LogEvent::extract(&raw);
    let attributes = event.attributes();
    assert_eq!(attributes.len(), 4);
    assert_eq!(attributes.get("text"), Some(&"x y".to_string()));
    assert_eq!(attributes.get("neg"), Some(&"-12".to_string()));
    assert_eq!(attributes.get("pos"), Some(&"34".to_string()));
    assert_eq!(attributes.get("flag"), Some(&"false".to_string()));
}

#[test]
fn extract_omits_fields_without_text_form() {
    let raw = record(
        Severity::Info,
        "m",
        vec![
            field("a", AttrValue::Unsigned(1)),
            field("hidden", AttrValue::Opaque),
            field("b", AttrValue::Unsigned(2)),
        ],
    );
    let event = LogEvent::extract(&raw);
    assert_eq!(event.attributes().len(), 2);
    assert_eq!(event.attributes().get("a"), Some(&"1".to_string()));
    assert_eq!(event.attributes().get("b"), Some(&"2".to_string()));
    assert!(event.attributes().get("hidden").is_none());
}

#[test]
fn extract_keeps_the_later_of_two_fields_with_one_key() {
    let raw = record(
        Severity::Info,
        "m",
        vec![
            field("k", AttrValue::Unsigned(1)),
            field("k", AttrValue::Unsigned(2)),
            field("k", AttrValue::Opaque),
        ],
    );
    let event = LogEvent::extract(&raw);
    assert_eq!(event.attributes().len(), 1);
    assert_eq!(event.attributes().get("k"), Some(&"2".to_string()));
}

#[test]
fn extract_is_deterministic() {
    let raw = record(Severity::Error, "boom", vec![field("code", AttrValue::Signed(-3))]);
    let one = LogEvent::extract(&raw);
    let two = LogEvent::extract(&raw);
    assert_eq!(one.level(), two.level());
    assert_eq!(one.message(), two.message());
    assert_eq!(one.attributes().get("code"), two.attributes().get("code"));
}

#[test]
fn wire_message_has_empty_text_for_missing_location() {
    let event = LogEvent::extract(&record(Severity::Info, "hello", vec![]));
    let message = event.to_wire();
    assert_eq!(message.level, LogLevel::Info);
    assert_eq!(message.message, "hello");
    assert_eq!(message.attributes.len(), 0);
    assert_eq!(message.line, "");
    assert_eq!(message.file, "");
    let (tag, text) = message.minimal();
    assert_eq!(tag, "info");
    assert_eq!(text, "hello");
}

#[test]
fn wire_message_carries_location_and_attributes() {
    let mut raw = record(Severity::Trace, "t", vec![field("a", AttrValue::Text("1".to_string()))]);
    raw.file = Some("lib.rs".to_string());
    raw.line = Some(4294967295);
    let message = LogEvent::extract(&raw).to_wire();
    assert_eq!(message.level.tag(), "debug");
    assert_eq!(message.file, "lib.rs");
    assert_eq!(message.line, "4294967295");
    assert_eq!(message.attributes.get("a"), Some(&"1".to_string()));
}

#[test]
fn event_duplicate_holds_the_same() {
    let mut raw = record(Severity::Error, "e", vec![field("a", AttrValue::Flag(true))]);
    raw.line = Some(7);
    let event = LogEvent::extract(&raw);
    let copy = event.duplicate();
    assert_eq!(copy.level(), LogLevel::Error);
    assert_eq!(copy.message(), "e");
    assert_eq!(copy.source_line(), &Some("7".to_string()));
    assert_eq!(copy.source_file(), &None);
    assert_eq!(copy.attributes().get("a"), Some(&"true".to_string()));
}
