use dactyl_db::parameter::parameter_from_value;
use dactyl_db::query::Construct;
use dactyl_db::text::{
    blank, contains, decimal_text, hex_text, join, signed_decimal_text, starts_with, str_le,
    to_lower, trim, wide_decimal_text,
};
use dactyl_db::{
    AccessMode, AdapterErrorKind, DactylConfig, DactylError, DatastoreRoute, Number, OpenOptions,
    Operation, OperationKind, Parameter, RecoveryJournalMode, RecoveryOptions, StorageContext,
    Value,
};

fn integer(n: i64) -> Value {
    Value::Number(Number::from_i64(n))
}

#[test]
fn numbers_are_written_in_decimal_and_hexadecimal() {
    assert_eq!(decimal_text(0), "0");
    assert_eq!(decimal_text(u64::MAX), u64::MAX.to_string());
    assert_eq!(wide_decimal_text(u128::MAX), u128::MAX.to_string());
    assert_eq!(signed_decimal_text(i64::MIN), i64::MIN.to_string());
    assert_eq!(signed_decimal_text(-40), "-40");
    assert_eq!(hex_text(0xab, 4), "00ab");
}

#[test]
fn texts_are_trimmed_searched_and_compared() {
    assert_eq!(trim("\u{a0} a b \n"), "a b");
    assert!(blank(" \t\u{2003}"));
    assert!(!blank("x"));
    assert!(contains("abcabd", "abd"));
    assert!(!contains("abc", "abd"));
    assert!(starts_with("sqlite_x", "sqlite_"));
    assert_eq!(to_lower("AbC\u{c9}"), "abc\u{c9}");
    assert!(str_le("a", "ab"));
    assert!(!str_le("b", "ab"));
    assert!(str_le("z", "\u{e9}"));
    assert_eq!(join(&vec!["a".into(), "b".into(), "c".into()], ", "), "a, b, c");
    assert_eq!(join(&vec![], ", "), "");
}

#[test]
fn errors_say_what_they_are() {
    let error = DactylError::adapter_with_code(AdapterErrorKind::Busy, "busy", "wait");
    assert_eq!(error.message(), "adapter error (Busy): wait");
    assert_eq!(error.adapter_kind(), Some(AdapterErrorKind::Busy));
    assert_eq!(error.adapter_code(), Some("busy"));
    assert!(error.is_retryable());
    assert!(DactylError::adapter(AdapterErrorKind::Timeout, "t").is_retryable());
    assert!(DactylError::adapter(AdapterErrorKind::Unavailable, "t").is_retryable());
    assert!(!DactylError::adapter(AdapterErrorKind::Corrupt, "t").is_retryable());
    let config = DactylError::Config("bad".into());
    assert_eq!(config.message(), "configuration error: bad");
    assert_eq!(config.adapter_kind(), None);
    assert_eq!(config.adapter_code(), None);
    assert_eq!(
        DactylError::ColumnNotFound("x".into()).message(),
        "column not found: x"
    );
    assert_eq!(DactylError::Routing("r".into()).message(), "routing error: r");
    assert_eq!(
        DactylError::UnsupportedOperation("o".into()).message(),
        "unsupported datastore operation: o"
    );
    assert_eq!(
        DactylError::Unsupported {
            construct: Construct::Ilike
        }
        .message(),
        format!("unsupported SQL construct: {}", Construct::Ilike.lexeme())
    );
}

#[test]
fn parameters_have_a_json_form() {
    assert_eq!(Parameter::Null.to_value(), Value::Null);
    assert_eq!(Parameter::Bool(true).to_value(), Value::Bool(true));
    assert_eq!(Parameter::Integer(-2).to_value(), integer(-2));
    assert_eq!(
        Parameter::Real(1.5f64.to_bits()).to_value(),
        Value::Number(Number::Float(1.5f64.to_bits()))
    );
    assert_eq!(Parameter::Real(f64::INFINITY.to_bits()).to_value(), Value::Null);
    assert_eq!(
        Parameter::Blob(vec![9]).to_value(),
        Value::Array(vec![integer(9)])
    );
    for parameter in [
        Parameter::Null,
        Parameter::Bool(false),
        Parameter::Integer(i64::MIN),
        Parameter::Real(0.25f64.to_bits()),
        Parameter::Text("x".into()),
    ] {
        assert_eq!(Parameter::from_json(&parameter.to_value()), Some(parameter));
    }
    assert_eq!(Parameter::from_json(&Value::Array(vec![])), None);
}

#[test]
fn cells_come_back_as_parameters() {
    assert_eq!(
        parameter_from_value(Value::from_blob(&[1, 2])).unwrap(),
        Parameter::Blob(vec![1, 2])
    );
    assert_eq!(parameter_from_value(integer(5)).unwrap(), Parameter::Integer(5));
    let big: u64 = 0x8000_0000_0000_0401;
    assert_eq!(
        parameter_from_value(Value::Number(Number::PosInt(big))).unwrap(),
        Parameter::Real((big as f64).to_bits())
    );
    assert_eq!(
        parameter_from_value(Value::Number(Number::PosInt(u64::MAX))).unwrap(),
        Parameter::Real((u64::MAX as f64).to_bits())
    );
    let error = parameter_from_value(Value::Array(vec![integer(256)])).unwrap_err();
    assert!(error.message().ends_with("SQLite blob byte is out of range"));
    let error = parameter_from_value(Value::Object(vec![])).unwrap_err();
    assert_eq!(error.adapter_kind(), Some(AdapterErrorKind::Value));
}

#[test]
fn native_values_become_parameters() {
    assert_eq!(Parameter::from(3i64), Parameter::Integer(3));
    assert_eq!(Parameter::from(true), Parameter::Bool(true));
    assert_eq!(Parameter::from("s"), Parameter::Text("s".into()));
    assert_eq!(Parameter::from(String::from("s")), Parameter::Text("s".into()));
}

#[test]
fn values_are_shown_for_diagnosis() {
    assert_eq!(Value::Null.debug_text(), "Null");
    assert_eq!(
        Value::Array(vec![integer(1), Value::Text("a\"".into())]).debug_text(),
        "Array [Number(1), String(\"a\\\"\")]"
    );
    assert_eq!(
        Value::Object(vec![("k".into(), Value::Bool(true))]).debug_text(),
        "Object {\"k\": Bool(true)}"
    );
    assert_eq!(Number::from_real_bits(f64::NAN.to_bits()), None);
    assert!(Value::from_blob(&[7]).as_blob() == Some(vec![7]));
    assert_eq!(Value::Text("x".into()).as_blob(), None);
}

#[test]
fn operations_and_options_keep_what_they_are_given() {
    let operation = Operation::write("delete from t", vec![Parameter::Integer(1)]);
    assert_eq!(operation.kind(), OperationKind::Write);
    assert_eq!(operation.sql(), "delete from t");
    assert_eq!(operation.params(), &[Parameter::Integer(1)]);
    assert_eq!(
        OpenOptions::default(),
        OpenOptions {
            access_mode: AccessMode::ReadWrite,
            lock_timeout_millis: 250
        }
    );
    let options = RecoveryOptions::new("old.db", RecoveryJournalMode::Delete);
    assert_eq!(options.preserve_original_at, "old.db");
    let context = StorageContext::new(2, Value::Object(vec![])).unwrap();
    assert_eq!(context.version(), 2);
    assert_eq!(context.payload(), &Value::Object(vec![]));
}

#[test]
fn configurations_name_their_datastore() {
    assert_eq!(DactylConfig::sqlite("a.db").datastore(), "sqlite");
    assert_eq!(DactylConfig::neon("https://x", None, None).datastore(), "neon");
    assert_eq!(DatastoreRoute::sqlite("a.db").route(), "a.db");
}

#[test]
fn an_unknown_selector_is_shown_as_it_was_given() {
    let error = DatastoreRoute::from_env_values(Some("my\nsql"), Some("r"), None).unwrap_err();
    assert_eq!(
        error.message(),
        "configuration error: invalid DATASTORE value \"my\\nsql\": use sqlite or neon"
    );
}
