use dactyl_db::adapter::{begin_batch, ensure_writable, BatchStart};
use dactyl_db::sqlite::batch::{Batch, BatchAction};
use dactyl_db::sqlite::cells::{
    column_kind, normalize_row, plan_binding, step_outcome, BindStep, Binder, Binding, ColumnKind,
    RawCell,
};
use dactyl_db::sqlite::statement::{
    first_word, has_multiple_statements, is_query, map_sqlite_failure, plan_operation,
    quote_identifier, write_outcome, OperationPlan, SqliteFailure,
};
use dactyl_db::{
    AccessMode, AdapterErrorKind, DactylError, GeneratedKey, Number, Operation, OperationResult,
    Parameter, Rows, Value, WriteResult,
};

fn failure(code: i32, message: &str) -> SqliteFailure {
    SqliteFailure {
        code,
        extended_code: code + 256,
        message: message.to_string(),
    }
}

fn classified(code: i32, message: &str) -> (AdapterErrorKind, String) {
    let error = map_sqlite_failure("op", &failure(code, message));
    (
        error.adapter_kind().unwrap(),
        error.adapter_code().unwrap().to_string(),
    )
}

#[test]
fn sqlite_failures_map_to_stable_codes() {
    assert_eq!(classified(5, "x"), (AdapterErrorKind::Busy, "busy".into()));
    assert_eq!(
        classified(6, "x"),
        (AdapterErrorKind::Locked, "locked".into())
    );
    assert_eq!(
        classified(8, "x"),
        (AdapterErrorKind::ReadOnly, "read_only".into())
    );
    assert_eq!(
        classified(19, "FOREIGN KEY constraint failed"),
        (AdapterErrorKind::Constraint, "foreign_key_violation".into())
    );
    assert_eq!(
        classified(19, "NOT NULL constraint failed: t.a"),
        (AdapterErrorKind::Constraint, "not_null_violation".into())
    );
    assert_eq!(
        classified(19, "UNIQUE constraint failed: t.a"),
        (AdapterErrorKind::Constraint, "unique_violation".into())
    );
    assert_eq!(
        classified(19, "CHECK constraint failed"),
        (AdapterErrorKind::Constraint, "constraint_failed".into())
    );
    assert_eq!(
        classified(26, "x"),
        (AdapterErrorKind::Corrupt, "corrupt_database".into())
    );
    assert_eq!(
        classified(11, "x"),
        (AdapterErrorKind::Corrupt, "corrupt_database".into())
    );
    assert_eq!(
        classified(14, "x"),
        (AdapterErrorKind::Unavailable, "cannot_open".into())
    );
    assert_eq!(
        classified(10, "x"),
        (AdapterErrorKind::Storage, "storage_failure".into())
    );
    assert_eq!(
        classified(25, "x"),
        (
            AdapterErrorKind::InvalidOperation,
            "invalid_parameters".into()
        )
    );
    assert_eq!(
        classified(1, "x"),
        (AdapterErrorKind::Query, "sqlite_error".into())
    );
    assert!(map_sqlite_failure("op", &failure(5, "x")).is_retryable());
    assert!(!map_sqlite_failure("op", &failure(19, "x")).is_retryable());
    assert_eq!(
        map_sqlite_failure("op", &failure(1, "no such table: t")).message(),
        "adapter error (Query): op: no such table: t (extended code 257)"
    );
}

#[test]
fn the_first_word_decides_what_a_statement_is() {
    assert_eq!(first_word("  SELECT 1"), Some("select".to_string()));
    assert_eq!(first_word(";;Insert; into"), Some("insert".to_string()));
    assert_eq!(first_word(" \n "), None);
    assert!(is_query(Some("pragma")));
    assert!(is_query(Some("with")));
    assert!(!is_query(Some("insert")));
    assert!(!is_query(None));
}

#[test]
fn several_statements_are_told_from_one() {
    assert!(!has_multiple_statements("create table t (a);  "));
    assert!(has_multiple_statements("create table t (a); drop table t"));
    assert!(!has_multiple_statements("insert into t values ('a; b''; c')"));
}

fn none() -> Vec<Parameter> {
    Vec::new()
}

#[test]
fn operations_are_planned_by_kind_and_text() {
    assert_eq!(
        plan_operation(&Operation::read("select 1", none())).unwrap(),
        OperationPlan::Query
    );
    let error = plan_operation(&Operation::read("delete from t", none())).unwrap_err();
    assert_eq!(
        error.adapter_kind(),
        Some(AdapterErrorKind::InvalidOperation)
    );
    assert_eq!(
        plan_operation(&Operation::write("delete from t", none())).unwrap(),
        OperationPlan::Write
    );
    assert_eq!(
        plan_operation(&Operation::schema("create table t (a)", none())).unwrap(),
        OperationPlan::Write
    );
    assert_eq!(
        plan_operation(&Operation::schema("create table t (a); drop table u", none())).unwrap(),
        OperationPlan::SchemaBatch
    );
    let error = plan_operation(&Operation::schema("insert into t", none())).unwrap_err();
    assert_eq!(
        error.adapter_kind(),
        Some(AdapterErrorKind::InvalidOperation)
    );
    let error = plan_operation(&Operation::schema(
        "create table t (a); drop table u",
        vec![Parameter::Null],
    ))
    .unwrap_err();
    assert_eq!(error.adapter_kind(), Some(AdapterErrorKind::Capability));
}

#[test]
fn inserts_report_their_generated_key() {
    let result = write_outcome("INSERT into t default values", 7, 1);
    assert_eq!(result.affected_rows, 1);
    assert_eq!(result.generated_key(), Some(&GeneratedKey::Integer(7)));
    let result = write_outcome("update t set a = 1", 7, -1);
    assert_eq!(result, WriteResult::default());
    assert!(write_outcome("insert into t", 0, 1).generated_keys.is_empty());
}

#[test]
fn identifiers_are_quoted() {
    assert_eq!(quote_identifier("plain"), "\"plain\"");
    assert_eq!(quote_identifier("we\"ird"), "\"we\"\"ird\"");
}

#[test]
fn cells_keep_their_type() {
    let row = normalize_row(vec![
        RawCell::Null,
        RawCell::Integer(-3),
        RawCell::Float(2.5f64.to_bits()),
        RawCell::Text("h\u{e9}".as_bytes().to_vec()),
        RawCell::Blob(vec![0, 255]),
    ])
    .unwrap();
    assert_eq!(
        row,
        vec![
            Value::Null,
            Value::Number(Number::NegInt(-3)),
            Value::Number(Number::Float(2.5f64.to_bits())),
            Value::Text("h\u{e9}".to_string()),
            Value::from_blob(&[0, 255]),
        ]
    );
    for (cell, message) in [
        (
            RawCell::Float(f64::NAN.to_bits()),
            "SQLite returned a non-finite REAL",
        ),
        (
            RawCell::Text(vec![0x68, 0xff]),
            "SQLite returned invalid UTF-8 text: invalid utf-8 sequence of 1 bytes from index 1",
        ),
        (RawCell::MissingText, "SQLite returned a null text pointer"),
        (RawCell::MissingBlob, "SQLite returned a null blob pointer"),
        (RawCell::Unknown, "SQLite returned an unknown value type"),
    ] {
        let error = normalize_row(vec![RawCell::Null, cell]).unwrap_err();
        assert_eq!(error.adapter_kind(), Some(AdapterErrorKind::Value));
        assert_eq!(error.message(), format!("adapter error (Value): {message}"));
    }
    assert_eq!(column_kind(4), ColumnKind::Blob);
    assert_eq!(column_kind(9), ColumnKind::Unknown);
}

#[test]
fn parameters_are_bound_in_order_until_one_fails() {
    let params = vec![
        Parameter::Bool(true),
        Parameter::Text("h\u{e9}".into()),
        Parameter::Blob(vec![1, 2, 3]),
    ];
    assert_eq!(
        plan_binding(0, &params[0]).unwrap(),
        (1, Binding::Int64(1))
    );
    assert_eq!(plan_binding(1, &params[1]).unwrap(), (2, Binding::Text(3)));
    assert_eq!(plan_binding(2, &params[2]).unwrap(), (3, Binding::Blob(3)));
    let mut binder = Binder::new(&params);
    let mut bound = Vec::new();
    while let BindStep::Bind(position, at, binding) = binder.step() {
        bound.push((position, at, binding));
        binder = binder.advance(None);
    }
    assert_eq!(
        bound,
        vec![
            (0, 1, Binding::Int64(1)),
            (1, 2, Binding::Text(3)),
            (2, 3, Binding::Blob(3)),
        ]
    );
    assert!(binder.into_outcome().is_ok());
    let mut binder = Binder::new(&params).advance(None);
    assert_eq!(binder.step(), BindStep::Bind(1, 2, Binding::Text(3)));
    binder = binder.advance(Some(failure(25, "column index out of range")));
    assert_eq!(binder.step(), BindStep::Finished);
    let error = binder.into_outcome().unwrap_err();
    assert_eq!(error.adapter_code(), Some("invalid_parameters"));
    assert!(Binder::new(&[]).into_outcome().is_ok());
}

#[test]
fn a_step_gives_a_row_or_the_end() {
    assert!(step_outcome(100, &failure(0, "")).unwrap());
    assert!(!step_outcome(101, &failure(0, "")).unwrap());
    let error = step_outcome(5, &failure(5, "database is locked")).unwrap_err();
    assert_eq!(error.adapter_kind(), Some(AdapterErrorKind::Busy));
}

#[test]
fn read_only_routes_refuse_changes() {
    assert!(ensure_writable(AccessMode::ReadWrite).is_ok());
    let error = ensure_writable(AccessMode::ReadOnly).unwrap_err();
    assert_eq!(error.adapter_kind(), Some(AdapterErrorKind::ReadOnly));
    let reads = [Operation::read("select 1", none())];
    let changes = [
        Operation::read("select 1", none()),
        Operation::schema("create table t (a)", none()),
    ];
    assert_eq!(
        begin_batch(&reads, AccessMode::ReadOnly).unwrap(),
        BatchStart::ReadOnly
    );
    assert!(begin_batch(&changes, AccessMode::ReadOnly).is_err());
    assert_eq!(
        begin_batch(&changes, AccessMode::ReadWrite).unwrap(),
        BatchStart::Mutating
    );
    assert_eq!(
        begin_batch(&[], AccessMode::ReadOnly).unwrap(),
        BatchStart::Nothing
    );
}

fn rows() -> OperationResult {
    OperationResult::Rows(Rows::default())
}

#[test]
fn a_batch_commits_once_every_operation_succeeded() {
    assert!(Batch::new(BatchStart::Nothing, 0).is_none());
    let batch = Batch::new(BatchStart::Mutating, 2).unwrap();
    assert_eq!(batch.action(), BatchAction::Begin);
    let batch = batch.begun(None);
    assert_eq!(batch.action(), BatchAction::Execute(0));
    let batch = batch.executed(Ok(OperationResult::Write(WriteResult::default())));
    assert_eq!(batch.action(), BatchAction::Execute(1));
    let batch = batch.executed(Ok(rows()));
    assert_eq!(batch.action(), BatchAction::Commit);
    let batch = batch.committed(None);
    assert_eq!(batch.action(), BatchAction::Finished);
    let results = batch.into_outcome().unwrap().results;
    assert!(matches!(results[0], OperationResult::Write(_)));
    assert!(matches!(results[1], OperationResult::Rows(_)));
}

#[test]
fn a_batch_rolls_back_where_an_operation_fails() {
    let batch = Batch::new(BatchStart::Mutating, 2).unwrap().begun(None);
    let batch = batch.executed(Err(DactylError::adapter(
        AdapterErrorKind::Constraint,
        "refused",
    )));
    assert_eq!(batch.action(), BatchAction::Rollback);
    let batch = batch.rolled_back();
    assert_eq!(batch.action(), BatchAction::Failed);
    let error = batch.into_outcome().unwrap_err();
    assert_eq!(error.adapter_kind(), Some(AdapterErrorKind::Constraint));

    let batch = Batch::new(BatchStart::Mutating, 1)
        .unwrap()
        .begun(Some(failure(5, "busy")));
    let error = batch.into_outcome().unwrap_err();
    assert!(error.message().contains("begin SQLite transaction"));

    let batch = Batch::new(BatchStart::Mutating, 1)
        .unwrap()
        .begun(None)
        .executed(Ok(rows()))
        .committed(Some(failure(19, "deferred")));
    assert_eq!(batch.action(), BatchAction::Rollback);
    let error = batch.rolled_back().into_outcome().unwrap_err();
    assert!(error.message().contains("commit SQLite transaction"));
}

#[test]
fn a_batch_of_reads_needs_no_transaction() {
    let batch = Batch::new(BatchStart::ReadOnly, 1).unwrap();
    assert_eq!(batch.action(), BatchAction::Execute(0));
    let batch = batch.executed(Ok(rows()));
    assert_eq!(batch.action(), BatchAction::Finished);
    let batch = Batch::new(BatchStart::ReadOnly, 1).unwrap();
    let batch = batch.executed(Err(DactylError::adapter(AdapterErrorKind::Query, "no")));
    assert_eq!(batch.action(), BatchAction::Failed);
}
