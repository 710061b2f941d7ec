use std::collections::HashMap;

use dactyl_db::{DactylError, Number, Row, Rows, Value};

fn text(s: &str) -> Value {
    Value::Text(s.to_string())
}

fn integer(n: i64) -> Value {
    Value::Number(Number::from_i64(n))
}

fn real_value(x: f64) -> Value {
    Value::Number(Number::from_real_bits(x.to_bits()).unwrap())
}

fn as_f64(n: Number) -> f64 {
    match n {
        Number::PosInt(n) => n as f64,
        Number::NegInt(n) => n as f64,
        Number::Float(bits) => f64::from_bits(bits),
    }
}

fn to_json(value: &Value) -> serde_json::Value {
    match value {
        Value::Null => serde_json::Value::Null,
        Value::Bool(b) => serde_json::Value::Bool(*b),
        Value::Number(Number::PosInt(n)) => serde_json::Value::from(*n),
        Value::Number(Number::NegInt(n)) => serde_json::Value::from(*n),
        Value::Number(Number::Float(bits)) => serde_json::Value::from(f64::from_bits(*bits)),
        Value::Text(s) => serde_json::Value::String(s.clone()),
        Value::Array(items) => serde_json::Value::Array(items.iter().map(to_json).collect()),
        Value::Object(members) => serde_json::Value::Object(
            members.iter().map(|(name, v)| (name.clone(), to_json(v))).collect(),
        ),
    }
}

fn strict<T: serde::de::DeserializeOwned>(value: &Value) -> Result<T, String> {
    serde_json::from_value(to_json(value)).map_err(|error| error.to_string())
}

fn payload() -> Value {
    Value::Object(vec![("k".to_string(), integer(1))])
}

fn sample_row() -> Row {
    Row {
        columns: vec![
            "id".into(),
            "flag".into(),
            "ratio".into(),
            "label".into(),
            "payload".into(),
            "nullable".into(),
            "name".into(),
            "name".into(),
        ],
        values: vec![
            integer(42),
            Value::Bool(true),
            real_value(1.5),
            text("hello"),
            payload(),
            Value::Null,
            text("first"),
            text("second"),
        ],
    }
}

#[test]
fn scalar_matrix_strict_and_lenient() {
    let row = sample_row();

    assert_eq!(row.get("id", strict::<i64>).unwrap(), 42);
    assert_eq!(row.try_get("id", strict::<i64>).unwrap(), 42);
    assert_eq!(row.get_int("id").unwrap(), 42);
    assert_eq!(as_f64(row.get_real("id").unwrap()), 42.0);

    assert!(row.get_bool("flag").unwrap());
    assert!(row.get("flag", strict::<bool>).unwrap());

    assert_eq!(row.get("ratio", strict::<f64>).unwrap(), 1.5);
    assert_eq!(as_f64(row.get_real("ratio").unwrap()), 1.5);
    assert!(matches!(
        row.get_int("ratio"),
        Err(DactylError::Conversion(_))
    ));

    assert_eq!(row.get_str("label").unwrap(), "hello");
    assert_eq!(row.get_str_ref("label").unwrap(), "hello");
    assert_eq!(row.get("label", strict::<String>).unwrap(), "hello");

    assert_eq!(row.get_json("payload").unwrap(), payload());
    assert_eq!(row.get_json_ref("payload").unwrap(), &payload());
    let decoded = row.get("payload", strict::<HashMap<String, i64>>).unwrap();
    assert_eq!(decoded["k"], 1);
}

#[test]
fn sqlite_style_bool_as_integer() {
    let row = Row {
        columns: vec!["flag".into(), "off".into()],
        values: vec![integer(1), integer(0)],
    };
    assert!(row.get_bool("flag").unwrap());
    assert!(!row.get_bool("off").unwrap());
    assert!(matches!(
        row.get("flag", strict::<bool>),
        Err(DactylError::Conversion(_))
    ));
}

#[test]
fn null_semantics() {
    let row = sample_row();
    assert!(row.is_null("nullable").unwrap());
    assert!(!row.is_null("id").unwrap());
    assert!(row.get("nullable", strict::<Option<i64>>).unwrap().is_none());
    assert!(row
        .get("nullable", strict::<Option<String>>)
        .unwrap()
        .is_none());

    let null_errs: Vec<DactylError> = vec![
        row.get("nullable", strict::<i64>).unwrap_err(),
        row.get_int("nullable").unwrap_err(),
        row.get_bool("nullable").unwrap_err(),
        row.get_real("nullable").unwrap_err(),
        row.get_str("nullable").unwrap_err(),
        row.get_str_ref("nullable").unwrap_err(),
    ];
    for err in null_errs {
        match err {
            DactylError::Conversion(msg) => {
                assert!(msg.contains("NULL"), "expected NULL hint, got {msg}");
            }
            other => panic!("expected Conversion for NULL, got {other:?}"),
        }
    }

    assert_eq!(row.get_json("nullable").unwrap(), Value::Null);
    assert!(row.get_json_ref("nullable").unwrap().is_null());
}

#[test]
fn missing_column_is_column_not_found() {
    let row = sample_row();
    assert!(matches!(
        row.get("nope", strict::<i64>),
        Err(DactylError::ColumnNotFound(_))
    ));
    assert!(matches!(
        row.get_int("nope"),
        Err(DactylError::ColumnNotFound(_))
    ));
    assert!(matches!(
        row.is_null("nope"),
        Err(DactylError::ColumnNotFound(_))
    ));
    assert!(matches!(
        row.get_json_ref("nope"),
        Err(DactylError::ColumnNotFound(_))
    ));
    assert!(matches!(
        row.get(99usize, strict::<i64>),
        Err(DactylError::ColumnNotFound(_))
    ));
}

#[test]
fn conversion_failures() {
    let row = sample_row();
    assert!(matches!(
        row.get("label", strict::<bool>),
        Err(DactylError::Conversion(_))
    ));
    assert!(matches!(
        row.get_int("label"),
        Err(DactylError::Conversion(_))
    ));
    assert!(matches!(row.get_str("id"), Err(DactylError::Conversion(_))));
    assert!(matches!(
        row.get_bool("ratio"),
        Err(DactylError::Conversion(_))
    ));
}

#[test]
fn duplicate_alias_first_match_and_positional() {
    let row = sample_row();
    assert_eq!(row.get_str("name").unwrap(), "first");
    assert_eq!(row.get_str_ref("name").unwrap(), "first");
    assert_eq!(row.get_int(0usize).unwrap(), 42);
    let second_name_idx = row
        .columns
        .iter()
        .enumerate()
        .filter(|(_, c)| *c == "name")
        .nth(1)
        .map(|(i, _)| i)
        .expect("second name");
    assert_eq!(row.get_str(second_name_idx).unwrap(), "second");
    assert_eq!(row.get_json_ref(second_name_idx).unwrap(), &text("second"));
}

#[test]
fn borrowed_values_tied_to_row_lifetime() {
    let row = sample_row();
    let s: &str = row.get_str_ref("label").unwrap();
    let j: &Value = row.get_json_ref("payload").unwrap();
    assert_eq!(s, "hello");
    match j {
        Value::Object(members) => assert_eq!(members[0], ("k".to_string(), integer(1))),
        other => panic!("unexpected payload {other:?}"),
    }
    let owned = row.get_str("label").unwrap();
    drop(row);
    assert_eq!(owned, "hello");
}

#[test]
fn blobs_come_back_byte_for_byte() {
    let bytes: Vec<u8> = vec![0, 1, 127, 128, 255];
    let row = Row {
        columns: vec!["b".into(), "t".into(), "n".into()],
        values: vec![Value::from_blob(&bytes), text("x"), Value::Null],
    };
    assert_eq!(row.get_blob("b").unwrap(), bytes);
    assert!(matches!(row.get_blob("t"), Err(DactylError::Conversion(_))));
    match row.get_blob("n") {
        Err(DactylError::Conversion(m)) => assert!(m.contains("NULL")),
        other => panic!("unexpected {other:?}"),
    }
}

#[test]
fn a_conversion_error_shows_the_cell_and_the_column() {
    let row = Row {
        columns: vec!["na\"me".into()],
        values: vec![text("a\nb")],
    };
    assert_eq!(
        row.get_int("na\"me").unwrap_err().message(),
        "conversion error: cannot read String(\"a\\nb\") as i64 at column \"na\\\"me\""
    );
}

#[test]
fn an_index_past_the_values_is_reported() {
    let row = Row {
        columns: vec!["a".into(), "b".into()],
        values: vec![integer(1)],
    };
    match row.get_int("b") {
        Err(DactylError::ColumnNotFound(m)) => assert_eq!(m, "index 1 out of bounds"),
        other => panic!("unexpected {other:?}"),
    }
    assert_eq!(row.get_int(String::from("a")).unwrap(), 1);
}

#[test]
fn rows_are_counted_and_walked() {
    let rows = Rows(vec![sample_row(), sample_row()]);
    assert_eq!(rows.len(), 2);
    assert!(!rows.is_empty());
    assert_eq!(rows.as_slice().len(), 2);
    assert_eq!(rows.iter().count(), 2);
    assert!(Rows::default().is_empty());
    let names: Vec<String> = rows
        .into_iter()
        .map(|row| row.get_str("name").unwrap())
        .collect();
    assert_eq!(names, vec!["first", "first"]);
}
