use dactyl_db::contract::IntegrityReport;
use dactyl_db::sqlite::backup::{
    admit_backup, after_finish, after_pages, Backup, BackupOutcome, BackupStep, PageStep,
};
use dactyl_db::sqlite::cells::RawCell;
use dactyl_db::sqlite::maintenance::{
    candidate_name, ensure_absent, invalid_file_name, shm_path, storage_io, unused_path,
    verify_integrity, wal_path, Claim, TemporaryPath,
};
use dactyl_db::sqlite::open::{
    busy_timeout, check_opened, library_candidates, library_unavailable, open_flags, plan_open,
    platform_library_names, symbol_missing, validate_existing_sqlite_header, ConnectionRegistry,
    OpenPlan, Platform,
};
use dactyl_db::sqlite::rebuild::{
    close_rebuilt, copy_row, plan_copy, CopyOutcome, CopyStep, Rebuild, RebuildAction,
    RebuildOutcome, RebuildStep, TableCopy,
};
use dactyl_db::sqlite::recovery::{
    admit_recovery, RebuildResult, Recovery, RecoveryStep, StepOutcome,
};
use dactyl_db::sqlite::statement::SqliteFailure;
use dactyl_db::sqlite::stores::{bootstrap_statement, bootstrap_statements, store_names};
use dactyl_db::{
    AccessMode, AdapterErrorKind, DactylError, Number, Parameter, Row, Rows, Value,
};

fn failure(code: i32) -> SqliteFailure {
    SqliteFailure {
        code,
        extended_code: code,
        message: "sqlite says no".to_string(),
    }
}

fn text(s: &str) -> Value {
    Value::Text(s.to_string())
}

fn integer(n: i64) -> Value {
    Value::Number(Number::from_i64(n))
}

fn row(values: Vec<Value>) -> Row {
    Row {
        columns: (0..values.len()).map(|i| format!("c{i}")).collect(),
        values,
    }
}

fn refused(message: &str) -> DactylError {
    DactylError::adapter(AdapterErrorKind::Storage, message)
}

#[test]
fn libraries_are_tried_in_order() {
    assert_eq!(platform_library_names(Platform::Windows), vec!["sqlite3.dll"]);
    assert_eq!(
        library_candidates(Some("/opt/custom.so"), Platform::OtherUnix),
        vec![
            "/opt/custom.so",
            "libsqlite3.so.0",
            "libsqlite3.so",
            "libsqlite3.dylib"
        ]
    );
    assert_eq!(library_candidates(Some(" "), Platform::Other), vec!["sqlite3"]);
    assert_eq!(library_candidates(None, Platform::Android).len(), 2);
    let error = library_unavailable(
        &vec!["a".to_string(), "b".to_string()],
        &vec!["a: no".to_string(), "b: no".to_string()],
    );
    assert_eq!(error.adapter_code(), Some("sqlite_runtime_unavailable"));
    assert!(error.message().ends_with(
        "could not load a host SQLite shared library; tried a, b (a: no; b: no)"
    ));
    assert_eq!(
        symbol_missing("sqlite3_open_v2", "gone").adapter_code(),
        Some("sqlite_runtime_incompatible")
    );
}

#[test]
fn only_files_that_may_be_opened_are_opened() {
    assert_eq!(
        plan_open(":memory:", AccessMode::ReadOnly, false).unwrap(),
        OpenPlan {
            create_parent: false,
            check_header: false
        }
    );
    let error = plan_open("a.db", AccessMode::ReadOnly, false).unwrap_err();
    assert_eq!(error.adapter_code(), Some("missing_database"));
    assert_eq!(
        plan_open("a.db", AccessMode::ReadWrite, false).unwrap(),
        OpenPlan {
            create_parent: true,
            check_header: false
        }
    );
    assert!(plan_open("a.db", AccessMode::ReadOnly, true).unwrap().check_header);
    assert!(validate_existing_sqlite_header(0, &[]).is_ok());
    assert!(validate_existing_sqlite_header(21, b"SQLite format 3\0").is_ok());
    let error = validate_existing_sqlite_header(21, b"not a SQLite dat").unwrap_err();
    assert_eq!(error.adapter_kind(), Some(AdapterErrorKind::Corrupt));
    assert_eq!(error.adapter_code(), Some("malformed_database"));
    assert!(validate_existing_sqlite_header(3, b"SQL").is_err());
}

#[test]
fn opening_reports_what_sqlite_gave() {
    assert_eq!(open_flags(AccessMode::ReadOnly), 0x1_0001);
    assert_eq!(open_flags(AccessMode::ReadWrite), 0x1_0006);
    assert_eq!(busy_timeout(250), 250);
    assert_eq!(busy_timeout(u128::MAX), i32::MAX);
    assert!(check_opened("a.db", 0, None, true).is_ok());
    let error = check_opened("a.db", 14, None, false).unwrap_err();
    assert!(error.message().ends_with("open SQLite database a.db: SQLite error code 14"));
    let error = check_opened("a.db", 26, Some(failure(26)), true).unwrap_err();
    assert_eq!(error.adapter_code(), Some("corrupt_database"));
    let error = check_opened("a.db", 0, None, false).unwrap_err();
    assert_eq!(error.adapter_code(), Some("cannot_open"));
}

#[test]
fn connections_are_counted_by_path() {
    let registry = ConnectionRegistry::new().register("a").register("b").register("a");
    assert_eq!(registry.open_count("a"), 2);
    assert!(registry.has_other_connection("a"));
    assert!(!registry.has_other_connection("b"));
    let registry = registry.unregister("a").unregister("missing");
    assert!(!registry.has_other_connection("a"));
    assert_eq!(registry.open_count("b"), 1);
    assert_eq!(registry.unregister("a").open_count("a"), 0);
}

#[test]
fn paths_in_the_way_are_conflicts() {
    assert!(ensure_absent("x", "recovery archive", false).is_ok());
    let error = ensure_absent("x", "recovery archive", true).unwrap_err();
    assert_eq!(error.adapter_kind(), Some(AdapterErrorKind::Conflict));
    assert_eq!(error.adapter_code(), Some("path_exists"));
    assert!(error.message().ends_with("recovery archive already exists: x"));
    assert_eq!(wal_path("a.db"), "a.db-wal");
    assert_eq!(shm_path("a.db"), "a.db-shm");
    assert_eq!(storage_io("stat", "gone").adapter_code(), Some("filesystem_failure"));
    assert_eq!(
        invalid_file_name().adapter_kind(),
        Some(AdapterErrorKind::InvalidOperation)
    );
}

#[test]
fn names_are_tried_until_one_is_free() {
    assert_eq!(
        candidate_name("a.db", "backup", 12, 1000, 3),
        ".a.db.dactyl-backup-12-1003"
    );
    assert_eq!(
        candidate_name("a.db", "backup", 12, u128::MAX, 3),
        format!(".a.db.dactyl-backup-12-{}", u128::MAX)
    );
    let mut search = TemporaryPath::new("a.db", "backup", 1, 5);
    let mut tried = Vec::new();
    while let Some(name) = search.next() {
        let claim = if name.ends_with("-7") {
            Claim::Created
        } else {
            Claim::Taken
        };
        tried.push(name);
        search = search.advance(claim);
    }
    assert_eq!(
        tried,
        vec![
            ".a.db.dactyl-backup-1-5",
            ".a.db.dactyl-backup-1-6",
            ".a.db.dactyl-backup-1-7"
        ]
    );
    assert_eq!(search.into_path().unwrap(), ".a.db.dactyl-backup-1-7");
    let mut search = TemporaryPath::new("a.db", "backup", 1, 5);
    let mut attempts = 0;
    while search.next().is_some() {
        search = search.advance(Claim::Taken);
        attempts += 1;
    }
    assert_eq!(attempts, 32);
    assert!(search.into_path().unwrap_err().message().contains("could not allocate"));
    let search = TemporaryPath::new("a.db", "backup", 1, 5).advance(Claim::Refused("denied".into()));
    assert!(search.next().is_none());
    let error = search.into_path().unwrap_err();
    assert_eq!(error.adapter_code(), Some("filesystem_failure"));
    assert_eq!(
        unused_path("a.db", "failed-recovery", 1, 5, |name| !name.ends_with("-6")).unwrap(),
        ".a.db.dactyl-failed-recovery-1-6"
    );
    assert!(unused_path("a.db", "x", 1, 5, |_| true).is_err());
}

fn answer(sql: &str, check: &str) -> Result<Rows, DactylError> {
    let value = match sql {
        "PRAGMA integrity_check" => text(check),
        "PRAGMA journal_mode" => text("wal"),
        "PRAGMA user_version" => integer(37),
        "PRAGMA application_id" => integer(4242),
        other => return Err(refused(other)),
    };
    Ok(Rows(vec![row(vec![value])]))
}

#[test]
fn integrity_is_reported_with_its_metadata() {
    let report = verify_integrity(|sql: &str| answer(sql, "ok")).unwrap();
    assert_eq!(
        report,
        IntegrityReport {
            journal_mode: "wal".to_string(),
            user_version: 37,
            application_id: 4242
        }
    );
    let error = verify_integrity(|sql: &str| answer(sql, "row 1 missing")).unwrap_err();
    assert_eq!(error.adapter_kind(), Some(AdapterErrorKind::Corrupt));
    assert_eq!(error.adapter_code(), Some("integrity_check_failed"));
    assert!(error.message().ends_with("SQLite integrity_check failed: row 1 missing"));
    let error = verify_integrity(|_: &str| Ok(Rows::default())).unwrap_err();
    assert!(error.message().ends_with("SQLite integrity_check failed: no result"));
    let error = verify_integrity(|sql: &str| {
        if sql == "PRAGMA journal_mode" {
            Ok(Rows::default())
        } else {
            answer(sql, "ok")
        }
    })
    .unwrap_err();
    assert!(error.message().ends_with("SQLite PRAGMA journal_mode returned no text value"));
    let error = verify_integrity(|sql: &str| {
        if sql == "PRAGMA user_version" {
            Ok(Rows(vec![row(vec![text("x")])]))
        } else {
            answer(sql, "ok")
        }
    })
    .unwrap_err();
    assert!(error.message().ends_with("SQLite PRAGMA user_version returned no integer value"));
}

#[test]
fn pages_are_copied_until_done_or_timed_out() {
    assert!(matches!(after_pages(101, true, &failure(0)), PageStep::Complete));
    assert!(matches!(after_pages(0, true, &failure(0)), PageStep::Again));
    assert!(matches!(after_pages(5, true, &failure(5)), PageStep::Wait));
    match after_pages(6, false, &failure(6)) {
        PageStep::Stopped(error) => {
            assert_eq!(error.adapter_kind(), Some(AdapterErrorKind::Timeout));
            assert_eq!(error.adapter_code(), Some("backup_timeout"));
        }
        _ => panic!("expected a timeout"),
    }
    match after_pages(10, true, &failure(10)) {
        PageStep::Stopped(error) => assert_eq!(error.adapter_code(), Some("storage_failure")),
        _ => panic!("expected a failure"),
    }
    assert!(after_finish(None, 0, &failure(0)).is_none());
    assert!(after_finish(None, 10, &failure(10)).is_some());
    let kept = after_finish(Some(refused("first")), 10, &failure(10)).unwrap();
    assert!(kept.message().ends_with("first"));
}

#[test]
fn a_backup_is_published_once_it_is_verified() {
    assert!(admit_backup(false).is_ok());
    assert_eq!(
        admit_backup(true).unwrap_err().adapter_code(),
        Some("backup_destination_is_source")
    );
    let mut backup = Backup::new("b.db".to_string());
    let mut steps = Vec::new();
    loop {
        let step = backup.step();
        steps.push(step);
        let outcome = match step {
            BackupStep::CheckMain | BackupStep::CheckWal | BackupStep::CheckShm => {
                BackupOutcome::Exists(false)
            }
            BackupStep::Verify => BackupOutcome::Mode("delete".to_string()),
            BackupStep::Measure => BackupOutcome::Size(8192),
            BackupStep::ReadJournal => BackupOutcome::Mode("wal".to_string()),
            BackupStep::Finished | BackupStep::Failed => break,
            _ => BackupOutcome::Done,
        };
        backup = backup.advance(outcome);
    }
    let verified = steps.iter().position(|s| *s == BackupStep::Verify).unwrap();
    let published = steps.iter().position(|s| *s == BackupStep::Publish).unwrap();
    assert!(verified < published);
    let result = backup.into_outcome().unwrap();
    assert_eq!(result.destination, "b.db");
    assert_eq!(result.bytes, 8192);
    assert_eq!(result.source_journal_mode, "wal");
    assert_eq!(result.destination_journal_mode, "delete");
}

fn backup_at(step: BackupStep) -> Backup {
    let mut backup = Backup::new("b.db".to_string());
    while backup.step() != step {
        let outcome = match backup.step() {
            BackupStep::CheckMain | BackupStep::CheckWal | BackupStep::CheckShm => {
                BackupOutcome::Exists(false)
            }
            BackupStep::Verify | BackupStep::ReadJournal => BackupOutcome::Mode("wal".to_string()),
            BackupStep::Measure => BackupOutcome::Size(1),
            _ => BackupOutcome::Done,
        };
        backup = backup.advance(outcome);
    }
    backup
}

#[test]
fn a_backup_that_fails_leaves_nothing_behind() {
    let failed = backup_at(BackupStep::CheckWal).advance(BackupOutcome::Exists(true));
    assert_eq!(failed.step(), BackupStep::Failed);
    let error = failed.into_outcome().unwrap_err();
    assert!(error.message().ends_with("backup WAL sidecar already exists: b.db-wal"));

    let failed = backup_at(BackupStep::Verify).advance(BackupOutcome::Refused(refused("bad")));
    assert_eq!(failed.step(), BackupStep::RemoveTemporary);
    let failed = failed.advance(BackupOutcome::Done);
    assert_eq!(failed.step(), BackupStep::Failed);

    let failed =
        backup_at(BackupStep::SyncDirectory).advance(BackupOutcome::Io("no sync".to_string()));
    assert_eq!(failed.step(), BackupStep::Unpublish);
    let failed = failed.advance(BackupOutcome::Io("no rename".to_string()));
    let error = failed.advance(BackupOutcome::Done).into_outcome().unwrap_err();
    assert_eq!(error.adapter_code(), Some("recovery_rollback_failed"));
}

#[test]
fn a_published_backup_is_taken_back_only_where_it_is_not_durable() {
    let failed =
        backup_at(BackupStep::SyncDirectory).advance(BackupOutcome::Io("no sync".to_string()));
    assert_eq!(failed.step(), BackupStep::Unpublish);
    let failed = failed.advance(BackupOutcome::Done);
    assert_eq!(failed.step(), BackupStep::RemoveTemporary);
    let error = failed.advance(BackupOutcome::Done).into_outcome().unwrap_err();
    assert!(error.message().contains("no sync"));
    assert_ne!(error.adapter_code(), Some("recovery_rollback_failed"));

    for step in [BackupStep::Measure, BackupStep::ReadJournal] {
        let failed = backup_at(step).advance(BackupOutcome::Refused(refused("no report")));
        assert_eq!(failed.step(), BackupStep::RemoveTemporary);
        let failed = failed.advance(BackupOutcome::Io("busy".to_string()));
        assert_eq!(failed.step(), BackupStep::Failed);
        let error = failed.into_outcome().unwrap_err();
        assert!(error.message().ends_with("no report"));
    }
}

#[test]
fn recoveries_that_may_not_start_are_typed() {
    let code = |mode, others, path: &str, same_parent, same_path| {
        admit_recovery(mode, others, path, same_parent, same_path)
            .err()
            .and_then(|e| e.adapter_code().map(str::to_owned))
    };
    let rw = AccessMode::ReadWrite;
    assert_eq!(code(AccessMode::ReadOnly, true, "a", true, false).as_deref(), Some("read_only"));
    assert_eq!(code(rw, true, "a", true, false).as_deref(), Some("open_connections"));
    assert_eq!(
        code(rw, false, ":memory:", true, false).as_deref(),
        Some("unsupported_memory_recovery")
    );
    assert_eq!(
        code(rw, false, "a", false, false).as_deref(),
        Some("recovery_paths_must_share_parent")
    );
    assert_eq!(
        code(rw, false, "a", true, true).as_deref(),
        Some("recovery_paths_must_share_parent")
    );
    assert_eq!(code(rw, false, "a", true, false), None);
}

fn usual(step: RecoveryStep) -> StepOutcome {
    match step {
        RecoveryStep::Rebuild => StepOutcome::Rebuilt(RebuildResult {
            user_version: 9,
            application_id: 99,
        }),
        RecoveryStep::ArchiveWal => StepOutcome::Moved(true),
        RecoveryStep::ArchiveShm => StepOutcome::Moved(false),
        _ => StepOutcome::Done,
    }
}

fn run(mut fails: Vec<(RecoveryStep, StepOutcome)>) -> (Vec<RecoveryStep>, Recovery) {
    let mut recovery = Recovery::new();
    let mut steps = Vec::new();
    loop {
        let step = recovery.step();
        steps.push(step);
        if step == RecoveryStep::Finished || step == RecoveryStep::Failed {
            return (steps, recovery);
        }
        let outcome = match fails.iter().position(|(at, _)| *at == step) {
            Some(i) => fails.remove(i).1,
            None => usual(step),
        };
        recovery = recovery.advance(outcome);
    }
}

#[test]
fn a_recovery_preserves_the_original_and_activates_the_copy() {
    let (steps, recovery) = run(vec![]);
    assert_eq!(
        steps,
        vec![
            RecoveryStep::Lock,
            RecoveryStep::Rebuild,
            RecoveryStep::Unlock,
            RecoveryStep::SyncTemporary,
            RecoveryStep::Close,
            RecoveryStep::ArchiveMain,
            RecoveryStep::ArchiveWal,
            RecoveryStep::ArchiveShm,
            RecoveryStep::SyncArchive,
            RecoveryStep::Activate,
            RecoveryStep::SyncDirectory,
            RecoveryStep::Reopen,
            RecoveryStep::Finished,
        ]
    );
    let result = recovery.into_outcome("a.db".into(), "a.old".into()).unwrap();
    assert_eq!(result.active_path, "a.db");
    assert_eq!(result.preserved_original_path, "a.old");
    assert_eq!((result.user_version, result.application_id), (9, 99));
}

fn error_of(recovery: Recovery) -> DactylError {
    recovery.into_outcome("a.db".into(), "a.old".into()).unwrap_err()
}

#[test]
fn a_recovery_that_fails_puts_the_original_back() {
    let (steps, recovery) = run(vec![(
        RecoveryStep::Activate,
        StepOutcome::Io("denied".to_string()),
    )]);
    let undone = steps.iter().position(|s| *s == RecoveryStep::RestoreMain).unwrap();
    assert_eq!(
        &steps[undone..],
        &[
            RecoveryStep::RestoreMain,
            RecoveryStep::RestoreWal,
            RecoveryStep::ReopenOriginal,
            RecoveryStep::RemoveTemporary,
            RecoveryStep::Failed
        ]
    );
    let error = error_of(recovery);
    assert_eq!(error.adapter_code(), Some("filesystem_failure"));
    assert!(error.message().ends_with("activate recovered SQLite database: denied"));
}

#[test]
fn a_failed_reopen_quarantines_the_copy() {
    let (steps, recovery) = run(vec![(
        RecoveryStep::Reopen,
        StepOutcome::Refused(refused("cannot open")),
    )]);
    assert!(steps.contains(&RecoveryStep::CloseRecovered));
    assert!(steps.contains(&RecoveryStep::Quarantine));
    assert!(steps.contains(&RecoveryStep::ReopenOriginal));
    let error = error_of(recovery);
    assert_eq!(error.adapter_code(), Some("recovery_reopen_failed"));
    assert_eq!(error.adapter_kind(), Some(AdapterErrorKind::Unavailable));

    let (steps, recovery) = run(vec![(
        RecoveryStep::SyncDirectory,
        StepOutcome::Io("no sync".to_string()),
    )]);
    assert!(!steps.contains(&RecoveryStep::CloseRecovered));
    assert_eq!(error_of(recovery).adapter_code(), Some("recovery_sync_failed"));
}

#[test]
fn a_failed_rollback_is_reported_with_both_errors() {
    let (_, recovery) = run(vec![
        (RecoveryStep::SyncArchive, StepOutcome::Refused(refused("no sync"))),
        (RecoveryStep::RestoreMain, StepOutcome::Io("no rename".to_string())),
    ]);
    let error = error_of(recovery);
    assert_eq!(error.adapter_code(), Some("recovery_rollback_failed"));
    assert!(error.message().contains("no sync"));
    assert!(error.message().contains("rollback original SQLite database: no rename"));

    let (steps, recovery) = run(vec![
        (RecoveryStep::Rebuild, StepOutcome::Refused(refused("no rebuild"))),
        (RecoveryStep::Unlock, StepOutcome::Sqlite(failure(1))),
    ]);
    assert!(!steps.contains(&RecoveryStep::ArchiveMain));
    assert_eq!(error_of(recovery).adapter_code(), Some("recovery_rollback_failed"));

    let (steps, _) = run(vec![(
        RecoveryStep::ArchiveShm,
        StepOutcome::Io("denied".to_string()),
    )]);
    assert!(steps.contains(&RecoveryStep::UndoWal));
    assert!(steps.contains(&RecoveryStep::UndoMain));
}

#[test]
fn a_copy_reads_past_the_indexes() {
    let info = vec![
        row(vec![integer(0), text("id")]),
        row(vec![integer(1), text("we\"ird")]),
    ];
    let plan = plan_copy("t", &info).unwrap().unwrap();
    assert_eq!(
        plan.select_sql,
        "SELECT \"id\", \"we\"\"ird\" FROM \"t\" NOT INDEXED"
    );
    assert_eq!(
        plan.insert_sql,
        "INSERT INTO \"t\" (\"id\", \"we\"\"ird\") VALUES (?, ?)"
    );
    assert!(plan_copy("t", &[]).unwrap().is_none());
    assert!(plan_copy("t", &[row(vec![integer(0)])]).is_err());
    assert_eq!(
        copy_row(vec![RawCell::Integer(7), RawCell::Null, RawCell::Blob(vec![1])]).unwrap(),
        vec![Parameter::Integer(7), Parameter::Null, Parameter::Blob(vec![1])]
    );
    assert!(copy_row(vec![RawCell::Unknown]).is_err());
}

#[test]
fn every_row_is_inserted_before_the_next_is_taken() {
    let mut copy = TableCopy::new("t");
    assert_eq!(copy.step(), CopyStep::Describe("PRAGMA table_info(\"t\")".to_string()));
    copy = copy.advance(CopyOutcome::Described(Rows(vec![
        row(vec![integer(0), text("a")]),
        row(vec![integer(1), text("b\"c")]),
    ])));
    let select = "SELECT \"a\", \"b\"\"c\" FROM \"t\" NOT INDEXED";
    let insert = "INSERT INTO \"t\" (\"a\", \"b\"\"c\") VALUES (?, ?)";
    for n in [7, 8] {
        assert_eq!(copy.step(), CopyStep::Fetch(select.to_string()));
        copy = copy.advance(CopyOutcome::Row(vec![RawCell::Integer(n), RawCell::Blob(vec![1])]));
        assert_eq!(
            copy.step(),
            CopyStep::Insert(
                insert.to_string(),
                vec![Parameter::Integer(n), Parameter::Blob(vec![1])]
            )
        );
        copy = copy.advance(CopyOutcome::Inserted);
    }
    copy = copy.advance(CopyOutcome::End);
    assert_eq!(copy.step(), CopyStep::Finished);
    assert!(copy.into_failure().is_none());
    let empty = TableCopy::new("t").advance(CopyOutcome::Described(Rows(vec![])));
    assert_eq!(empty.step(), CopyStep::Finished);
    let failed = TableCopy::new("t")
        .advance(CopyOutcome::Described(Rows(vec![row(vec![integer(0), text("a")])])))
        .advance(CopyOutcome::Row(vec![RawCell::Unknown]));
    assert_eq!(failed.step(), CopyStep::Failed);
    assert_eq!(
        failed.into_failure().unwrap().adapter_kind(),
        Some(AdapterErrorKind::Value)
    );
}

fn catalog(sql: &str, objects: &[(&str, &str, &str)]) -> Result<Rows, DactylError> {
    let rows = if sql == "PRAGMA user_version" {
        vec![row(vec![integer(9)])]
    } else if sql == "PRAGMA application_id" {
        vec![row(vec![integer(99)])]
    } else if sql.starts_with("SELECT type, name, sql") {
        objects
            .iter()
            .map(|(kind, name, sql)| row(vec![text(kind), text(name), text(sql)]))
            .collect()
    } else if sql.contains("sqlite_sequence") {
        vec![row(vec![text("sqlite_sequence")])]
    } else {
        return Err(refused(sql));
    };
    Ok(Rows(rows))
}

fn delete_mode() -> Result<IntegrityReport, DactylError> {
    Ok(IntegrityReport {
        journal_mode: "DELETE".to_string(),
        user_version: 9,
        application_id: 99,
    })
}

fn rebuild(
    objects: &[(&str, &str, &str)],
    own_counters: bool,
    failing: &str,
    verify: impl Fn() -> Result<IntegrityReport, DactylError>,
) -> (Vec<String>, Result<RebuildResult, DactylError>) {
    let mut log = Vec::new();
    let mut rebuild = Rebuild::new();
    loop {
        let outcome = match rebuild.step() {
            RebuildStep::QuerySource(sql) => match catalog(&sql, objects) {
                Ok(rows) => RebuildOutcome::Answer(rows),
                Err(error) => RebuildOutcome::Error(error),
            },
            RebuildStep::QueryRebuilt(sql) => {
                assert!(sql.contains("sqlite_sequence"));
                RebuildOutcome::Answer(Rows(if own_counters {
                    vec![row(vec![text("sqlite_sequence")])]
                } else {
                    vec![]
                }))
            }
            RebuildStep::Act(RebuildAction::CopyRows(table)) => {
                log.push(format!("copy {table}"));
                if table == failing {
                    RebuildOutcome::Error(refused("copy"))
                } else {
                    RebuildOutcome::Done
                }
            }
            RebuildStep::Execute(sql)
            | RebuildStep::Act(
                RebuildAction::CreateTable(sql)
                | RebuildAction::ClearCounters(sql)
                | RebuildAction::CreateObject(sql)
                | RebuildAction::SetVersion(sql)
                | RebuildAction::SetApplication(sql)
                | RebuildAction::SetJournal(sql),
            ) => {
                let outcome = if sql == failing {
                    RebuildOutcome::Sqlite(failure(1))
                } else {
                    RebuildOutcome::Done
                };
                log.push(sql);
                outcome
            }
            RebuildStep::Act(RebuildAction::RefuseVirtual(name)) => panic!("{name}"),
            RebuildStep::Verify => {
                log.push("verify".to_string());
                match verify() {
                    Ok(report) => RebuildOutcome::Report(report),
                    Err(error) => RebuildOutcome::Error(error),
                }
            }
            RebuildStep::Finished | RebuildStep::Failed => return (log, rebuild.into_outcome()),
        };
        rebuild = rebuild.advance(outcome);
    }
}

#[test]
fn a_rebuild_fills_tables_before_it_creates_triggers() {
    let objects = [
        ("table", "a", "create table a (x)"),
        ("table", "sqlitedata", "create table sqlitedata (x)"),
        ("trigger", "t", "create trigger t"),
    ];
    let (log, result) = rebuild(&objects, true, "", delete_mode);
    let result = result.unwrap();
    assert_eq!((result.user_version, result.application_id), (9, 99));
    assert_eq!(
        log,
        vec![
            "PRAGMA foreign_keys = OFF",
            "create table a (x)",
            "create table sqlitedata (x)",
            "copy a",
            "copy sqlitedata",
            "DELETE FROM sqlite_sequence",
            "copy sqlite_sequence",
            "create trigger t",
            "PRAGMA user_version = 9",
            "PRAGMA application_id = 99",
            "PRAGMA journal_mode = DELETE",
            "verify",
        ]
    );
    let (log, result) = rebuild(&objects, false, "", delete_mode);
    assert!(result.is_ok());
    assert!(!log.contains(&"DELETE FROM sqlite_sequence".to_string()));
    assert!(log.contains(&"copy sqlite_sequence".to_string()));
}

#[test]
fn the_catalog_query_leaves_out_only_the_names_of_sqlite() {
    let mut rebuild = Rebuild::new().advance(RebuildOutcome::Done);
    for _ in 0..2 {
        let rows = Rows(vec![row(vec![integer(1)])]);
        rebuild = rebuild.advance(RebuildOutcome::Answer(rows));
    }
    match rebuild.step() {
        RebuildStep::QuerySource(sql) => {
            assert!(sql.contains("substr(name, 1, 7) <> 'sqlite_'"));
            assert!(!sql.contains("LIKE"));
        }
        other => panic!("{other:?}"),
    }
}

#[test]
fn a_rebuild_refuses_what_it_cannot_copy() {
    let objects = [
        ("table", "a", "create table a (x)"),
        ("table", "v", "CREATE VIRTUAL TABLE v USING fts5(x)"),
    ];
    let (log, result) = rebuild(&objects, true, "", delete_mode);
    assert_eq!(result.unwrap_err().adapter_code(), Some("unsupported_recovery_object"));
    assert_eq!(log, vec!["PRAGMA foreign_keys = OFF", "create table a (x)"]);
    let objects = [("table", "a", "create table a (x)")];
    let (log, result) = rebuild(&objects, true, "create table a (x)", delete_mode);
    let error = result.unwrap_err();
    assert!(error.message().contains("create recovered SQLite table: sqlite says no"));
    assert_eq!(log.len(), 2);
    let (log, result) = rebuild(&objects, true, "a", delete_mode);
    assert!(result.is_err());
    assert_eq!(log.last().unwrap(), "copy a");
    let (_, result) = rebuild(&objects, true, "", || {
        Ok(IntegrityReport {
            journal_mode: "wal".to_string(),
            user_version: 0,
            application_id: 0,
        })
    });
    assert_eq!(
        result.unwrap_err().adapter_code(),
        Some("recovery_journal_mode_mismatch")
    );
    let done = RebuildResult {
        user_version: 1,
        application_id: 2,
    };
    assert!(close_rebuilt(Ok(done), None).is_ok());
    assert!(close_rebuilt(Ok(done), Some(refused("close"))).is_err());
}

#[test]
fn known_stores_have_a_table() {
    assert_eq!(store_names().len(), 9);
    let ddl = bootstrap_statement("todos").unwrap();
    assert!(ddl.starts_with("create table if not exists todos ("));
    assert!(bootstrap_statement("unknown").is_none());
    assert_eq!(bootstrap_statements()[8], bootstrap_statement("events").unwrap());
}
