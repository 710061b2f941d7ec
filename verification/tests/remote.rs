use dactyl_db::neon::{
    batch_results, decode_error, is_success, remote_error, response_error, rows_from_response,
    send_error, write_from_response, NeonAdapter, Response,
};
use dactyl_db::{
    AccessMode, AdapterErrorKind, GeneratedKey, Number, OpenOptions, Operation, OperationResult,
    Parameter, StorageContext, Value, STORAGE_CONTEXT_VERSION,
};

fn text(s: &str) -> Value {
    Value::Text(s.to_string())
}

fn integer(n: i64) -> Value {
    Value::Number(Number::from_i64(n))
}

fn object(members: Vec<(&str, Value)>) -> Value {
    Value::Object(
        members
            .into_iter()
            .map(|(name, value)| (name.to_string(), value))
            .collect(),
    )
}

fn payload() -> Value {
    object(vec![("org_id", text("org-1"))])
}

fn route(access_mode: AccessMode) -> NeonAdapter {
    NeonAdapter::new_with_options(
        "https://propodus.example//",
        Some("batch-token".to_string()),
        OpenOptions {
            access_mode,
            lock_timeout_millis: 250,
        },
        Some(StorageContext::new(STORAGE_CONTEXT_VERSION, payload()).unwrap()),
    )
}

fn context() -> Value {
    object(vec![("version", integer(1)), ("payload", payload())])
}

#[test]
fn a_statement_goes_out_with_its_context() {
    let request = route(AccessMode::ReadWrite)
        .request(
            "update app set name = $1 where id = $2",
            &[Parameter::Text("opened".into()), Parameter::Integer(1)],
        )
        .unwrap();
    assert_eq!(request.url, "https://propodus.example/query");
    assert_eq!(request.bearer.as_deref(), Some("batch-token"));
    assert_eq!(
        request.body,
        object(vec![
            ("sql", text("update app set name = $1 where id = $2")),
            ("params", Value::Array(vec![text("opened"), integer(1)])),
            ("access_mode", text("read_write")),
            ("context", context()),
        ])
    );
}

#[test]
fn a_batch_goes_out_in_order() {
    let operations = [
        Operation::schema("create table app (id integer primary key)", Vec::new()),
        Operation::write("insert into app default values", vec![Parameter::Null]),
        Operation::read("select id from app", Vec::new()),
    ];
    let request = route(AccessMode::ReadWrite)
        .request_batch(&operations)
        .unwrap()
        .unwrap();
    assert_eq!(request.url, "https://propodus.example/batch");
    let operation = |kind: &str, sql: &str, params: Vec<Value>| {
        object(vec![
            ("kind", text(kind)),
            ("sql", text(sql)),
            ("params", Value::Array(params)),
        ])
    };
    assert_eq!(
        request.body,
        object(vec![
            ("access_mode", text("read_write")),
            (
                "operations",
                Value::Array(vec![
                    operation("schema", "create table app (id integer primary key)", vec![]),
                    operation("write", "insert into app default values", vec![Value::Null]),
                    operation("read", "select id from app", vec![]),
                ])
            ),
            ("context", context()),
        ])
    );
    assert!(route(AccessMode::ReadWrite).request_batch(&[]).unwrap().is_none());
}

#[test]
fn requests_without_a_valid_context_fail_closed() {
    let bare = NeonAdapter::new("https://propodus.example", None);
    assert_eq!(bare.access_mode(), AccessMode::ReadWrite);
    let error = bare.request("select 1", &[]).err().unwrap();
    assert_eq!(error.adapter_kind(), Some(AdapterErrorKind::Authentication));
    assert_eq!(error.adapter_code(), Some("authentication_required"));
    let invalid = NeonAdapter::new_with_options(
        "https://propodus.example",
        None,
        OpenOptions::default(),
        Some(StorageContext::received(0, payload())),
    );
    let error = invalid
        .request_batch(&[Operation::read("select 1", Vec::new())])
        .err()
        .unwrap();
    assert_eq!(error.adapter_code(), Some("invalid_context"));
    let error = StorageContext::new(1, text("x")).unwrap_err();
    assert_eq!(error.adapter_code(), Some("invalid_context"));
}

#[test]
fn a_read_only_route_sends_no_change() {
    let readonly = route(AccessMode::ReadOnly);
    let error = readonly.request_write("delete from app", &[]).err().unwrap();
    assert_eq!(error.adapter_kind(), Some(AdapterErrorKind::ReadOnly));
    let error = readonly
        .request_batch(&[Operation::write("delete from app", Vec::new())])
        .err()
        .unwrap();
    assert_eq!(error.adapter_kind(), Some(AdapterErrorKind::ReadOnly));
    let request = readonly.request("select 1", &[]).unwrap();
    match request.body {
        Value::Object(members) => assert_eq!(members[2].1, text("read_only")),
        other => panic!("unexpected body {other:?}"),
    }
    assert!(route(AccessMode::ReadWrite).request_write("delete from app", &[]).is_ok());
}

fn response(columns: &[&str], rows: Vec<Value>, affected: Option<u64>) -> Response {
    Response {
        columns: columns.iter().map(|c| c.to_string()).collect(),
        rows,
        affected_rows: affected,
        generated_keys: vec![],
    }
}

#[test]
fn rows_follow_the_columns_of_the_reply() {
    let rows = rows_from_response(&response(
        &["id", "name"],
        vec![object(vec![("name", text("a")), ("id", integer(1))]), object(vec![])],
        None,
    ))
    .unwrap();
    assert_eq!(rows.as_slice()[0].get_int("id").unwrap(), 1);
    assert_eq!(rows.as_slice()[0].columns, vec!["id", "name"]);
    assert!(rows.as_slice()[1].is_null("name").unwrap());
    let rows = rows_from_response(&response(&[], vec![object(vec![("x", integer(2))])], None)).unwrap();
    assert_eq!(rows.as_slice()[0].columns, vec!["x"]);
    let error = rows_from_response(&response(&["id"], vec![integer(1)], None)).unwrap_err();
    assert_eq!(error.adapter_kind(), Some(AdapterErrorKind::Protocol));
}

#[test]
fn writes_count_what_the_service_counted() {
    assert_eq!(write_from_response(response(&[], vec![], Some(4))).affected_rows, 4);
    assert_eq!(
        write_from_response(response(&[], vec![object(vec![])], None)).affected_rows,
        1
    );
}

#[test]
fn batch_results_keep_their_order_and_keys() {
    let mut insert = response(&[], vec![], Some(1));
    insert.generated_keys = vec![GeneratedKey::Integer(7)];
    let results = batch_results(
        vec![
            response(&[], vec![], None),
            insert,
            response(&["id"], vec![object(vec![("id", integer(7))])], None),
        ],
        3,
    )
    .unwrap()
    .results;
    match &results[0] {
        OperationResult::Write(write) => assert_eq!(write.affected_rows, 0),
        other => panic!("unexpected result: {other:?}"),
    }
    match &results[1] {
        OperationResult::Write(write) => assert_eq!(write.generated_keys.len(), 1),
        other => panic!("unexpected result: {other:?}"),
    }
    match &results[2] {
        OperationResult::Rows(rows) => assert_eq!(rows.as_slice()[0].get_int("id").unwrap(), 7),
        other => panic!("unexpected result: {other:?}"),
    }
    let error = batch_results(vec![], 2).unwrap_err();
    assert!(error.message().ends_with("neon batch returned 0 results for 2 operations"));
    assert!(batch_results(vec![response(&["a"], vec![Value::Null], None)], 1).is_err());
}

fn kind(status: u16, code: Option<&str>) -> AdapterErrorKind {
    remote_error(status, code.map(str::to_owned), None, "neon")
        .adapter_kind()
        .unwrap()
}

#[test]
fn stable_codes_decide_and_the_status_fills_in() {
    let codes = [
        ("invalid_request", AdapterErrorKind::InvalidOperation),
        ("unsupported_query", AdapterErrorKind::Capability),
        ("authentication_required", AdapterErrorKind::Authentication),
        ("missing_context", AdapterErrorKind::Authentication),
        ("invalid_context", AdapterErrorKind::Protocol),
        ("malformed_context", AdapterErrorKind::Protocol),
        ("entitlement_required", AdapterErrorKind::Authorization),
        ("repository_not_authorized", AdapterErrorKind::Authorization),
        ("row_not_found", AdapterErrorKind::NotFound),
        ("row_conflict", AdapterErrorKind::Conflict),
        ("constraint_failed", AdapterErrorKind::Constraint),
        ("unique_violation", AdapterErrorKind::Constraint),
        ("not_null_violation", AdapterErrorKind::Constraint),
        ("foreign_key_violation", AdapterErrorKind::Constraint),
        ("busy", AdapterErrorKind::Busy),
        ("locked", AdapterErrorKind::Locked),
        ("timeout", AdapterErrorKind::Timeout),
        ("version_conflict", AdapterErrorKind::VersionConflict),
        ("idempotency_conflict", AdapterErrorKind::IdempotencyConflict),
        ("idempotency_in_progress", AdapterErrorKind::IdempotencyInProgress),
        ("transaction_aborted", AdapterErrorKind::TransactionAborted),
        ("quota_exceeded", AdapterErrorKind::Quota),
        ("payload_too_large", AdapterErrorKind::Quota),
        ("rate_limited", AdapterErrorKind::RateLimited),
        ("storage_failure", AdapterErrorKind::Storage),
        ("storage_unavailable", AdapterErrorKind::Unavailable),
    ];
    for (code, expected) in codes {
        assert_eq!(kind(418, Some(code)), expected, "{code}");
        assert_eq!(kind(500, Some(code)), expected, "{code}");
    }
    let statuses = [
        (401, AdapterErrorKind::Authentication),
        (402, AdapterErrorKind::Authorization),
        (403, AdapterErrorKind::Authorization),
        (404, AdapterErrorKind::NotFound),
        (408, AdapterErrorKind::Conflict),
        (409, AdapterErrorKind::Conflict),
        (429, AdapterErrorKind::RateLimited),
        (500, AdapterErrorKind::Storage),
        (503, AdapterErrorKind::Unavailable),
        (418, AdapterErrorKind::Query),
    ];
    for (status, expected) in statuses {
        assert_eq!(kind(status, None), expected);
        assert_eq!(kind(status, Some("unheard_of")), expected);
    }
    let error = remote_error(500, None, None, "neon batch");
    assert_eq!(error.adapter_code(), None);
    assert!(error.message().ends_with("neon batch returned HTTP status 500"));
    let error = remote_error(403, Some("nope".into()), Some("go away".into()), "neon");
    assert_eq!(error.adapter_code(), Some("nope"));
    assert!(error.message().ends_with("go away"));
}

#[test]
fn transport_and_protocol_failures_are_told_apart() {
    assert!(is_success(204));
    assert!(!is_success(199));
    assert!(!is_success(300));
    assert!(send_error("neon", "refused").message().ends_with("neon send: refused"));
    assert_eq!(
        response_error("neon", "cut").adapter_kind(),
        Some(AdapterErrorKind::Transport)
    );
    assert_eq!(
        decode_error("neon", "bad").adapter_kind(),
        Some(AdapterErrorKind::Protocol)
    );
}
