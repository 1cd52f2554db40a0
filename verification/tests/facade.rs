use log::kv::Value;
use nlogger::event::AttrValue;

#[test]
fn unsigned_fields_render_as_the_facade_renders_them() {
    for n in [0u64, 1, 9, 10, 99, 100, 12345, 4294967295, u64::MAX] {
        assert_eq!(AttrValue::Unsigned(n).render(), Some(Value::from(n).to_string()));
    }
}

#[test]
fn signed_fields_render_as_the_facade_renders_them() {
    for n in [0i64, 1, -1, -9, -10, 42, -12345, i64::MAX, i64::MIN] {
        assert_eq!(AttrValue::Signed(n).render(), Some(Value::from(n).to_string()));
    }
}

#[test]
fn flags_render_as_the_facade_renders_them() {
    for flag in [true, false] {
        assert_eq!(AttrValue::Flag(flag).render(), Some(Value::from(flag).to_string()));
    }
}

#[test]
fn text_fields_render_as_the_facade_renders_them() {
    for text in ["", "1", "two words", "caf\u{e9}"] {
        assert_eq!(
            AttrValue::Text(text.to_string()).render(),
            Some(Value::from(text).to_string())
        );
    }
}
