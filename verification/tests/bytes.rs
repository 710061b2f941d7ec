use dactyl_db::sqlite::bytes::{
    decode_text, read_u16, read_u32, read_u64, read_varint, signed_integer, TextEncoding,
};
use dactyl_db::sqlite::keywords::{
    integer_primary_key_column, reject_unsupported_table_sql, sql_keywords,
};
use dactyl_db::{AdapterErrorKind, Value};

#[test]
fn text_decoder_rejects_invalid_utf8_without_replacement() {
    let error = decode_text(&[0xff, 0xfe], TextEncoding::Utf8).unwrap_err();
    assert_eq!(error.adapter_code(), Some("unsupported_value"));
}

#[test]
fn schema_keyword_scanner_ignores_literals_comments_and_identifiers() {
    let sql = "create table \"check\" (note text default 'check -- collate') -- check\n";
    let keywords = sql_keywords(sql);
    assert!(!keywords.iter().any(|keyword| keyword == "check"));
    assert!(reject_unsupported_table_sql("check", sql).is_ok());
    assert!(reject_unsupported_table_sql(
        "bad",
        "create table bad (value text check (length(value) > 0))"
    )
    .is_err());
}

#[test]
fn signed_integer_decoding_preserves_sqlite_widths() {
    assert_eq!(signed_integer(&[0xff], 1), -1);
    assert_eq!(signed_integer(&[0xff, 0xff, 0xff], 3), -1);
    assert_eq!(
        signed_integer(&[0x80, 0, 0, 0, 0, 0], 5),
        -140_737_488_355_328
    );
}

#[test]
fn big_endian_fields_are_read_in_place() {
    let bytes = [1u8, 2, 3, 4, 5, 6, 7, 8, 9];
    assert_eq!(read_u16(&bytes, 1).unwrap(), 0x0203);
    assert_eq!(read_u32(&bytes, 0).unwrap(), 0x0102_0304);
    assert_eq!(read_u64(&bytes, 1).unwrap(), 0x0203_0405_0607_0809);
    let error = read_u64(&bytes, 2).unwrap_err();
    assert_eq!(error.adapter_code(), Some("corrupt_input"));
    assert!(read_u16(&bytes, usize::MAX).is_err());
}

#[test]
fn varints_take_one_to_nine_bytes() {
    assert_eq!(read_varint(&[0x7f], 0).unwrap(), (127, 1));
    assert_eq!(read_varint(&[0x81, 0x00], 0).unwrap(), (128, 2));
    assert_eq!(read_varint(&[0xff; 9], 0).unwrap(), (u64::MAX, 9));
    assert!(read_varint(&[0x81], 0).is_err());
    assert!(read_varint(&[], 0).is_err());
}

#[test]
fn texts_are_decoded_in_every_encoding() {
    assert_eq!(
        decode_text("h\u{e9}".as_bytes(), TextEncoding::Utf8).unwrap(),
        Value::Text("h\u{e9}".to_string())
    );
    assert_eq!(
        decode_text(&[0x68, 0x00, 0x3d, 0xd8, 0x00, 0xde], TextEncoding::Utf16Le).unwrap(),
        Value::Text("h\u{1f600}".to_string())
    );
    assert_eq!(
        decode_text(&[0x00, 0x68, 0xd8, 0x3d, 0xde, 0x00], TextEncoding::Utf16Be).unwrap(),
        Value::Text("h\u{1f600}".to_string())
    );
    let odd = decode_text(&[0x68], TextEncoding::Utf16Le).unwrap_err();
    assert_eq!(odd.adapter_kind(), Some(AdapterErrorKind::Value));
    let lone = decode_text(&[0x00, 0xd8], TextEncoding::Utf16Le).unwrap_err();
    assert_eq!(lone.adapter_code(), Some("unsupported_value"));
}

#[test]
fn integers_narrower_than_a_word_keep_their_sign() {
    assert_eq!(signed_integer(&[0x7f], 1), 127);
    assert_eq!(signed_integer(&[0x80], 1), -128);
    assert_eq!(signed_integer(&[0x80, 0x00], 2), -32768);
    assert_eq!(signed_integer(&[0x80, 0, 0, 0, 0, 0, 0, 0], 6), i64::MIN);
    assert_eq!(signed_integer(&[0x7f, 0xff, 0xff, 0xff, 0xff, 0xff, 0xff, 0xff], 6), i64::MAX);
}

#[test]
fn keywords_are_lower_case_words_outside_quotes() {
    let keywords = sql_keywords("CREATE Table t (a TEXT, [b c] int) /* check */");
    assert_eq!(keywords, vec!["create", "table", "t", "a", "text", "int"]);
}

#[test]
fn refused_constructs_are_named() {
    let error = reject_unsupported_table_sql("t", "create table t (a int) STRICT").unwrap_err();
    assert_eq!(error.adapter_code(), Some("unsupported_schema"));
    assert_eq!(
        error.message(),
        "adapter error (Capability): unsupported SQLite schema construct strict in table t"
    );
    let error = reject_unsupported_table_sql(
        "c",
        "create table c (p int references t(a) on update cascade)",
    )
    .unwrap_err();
    assert_eq!(error.adapter_code(), Some("unsupported_schema"));
}

#[test]
fn the_rowid_column_is_the_integer_primary_key() {
    assert_eq!(
        integer_primary_key_column("create table t (id integer primary key, a text)"),
        Some("id".to_string())
    );
    assert_eq!(
        integer_primary_key_column("create table t (id text primary key)"),
        None
    );
}
