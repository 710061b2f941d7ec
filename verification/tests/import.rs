use dactyl_db::schema::{ColumnSchema, IndexSchema, StoreSchema, TableSchema};
use dactyl_db::sqlite::import::{
    begin_import, finish_import, index_refused, load_import_error, report, sniff, table_refused,
    Conversion, ConvertStep, FileKind, Import, ImportFinish, ImportOutcome, ImportPaths, ImportStart,
    ImportStep,
};
use dactyl_db::sqlite::load::{align_row, import_table_rows, ImportTable};
use dactyl_db::sqlite::publish::{backup_name, temporary_name, PublishAction, Publisher};
use dactyl_db::sqlite::bytes::TextEncoding;
use dactyl_db::sqlite::reader::{decode_serial_value, SourceStamp, SqliteReader};
use dactyl_db::{AdapterErrorKind, DactylError, Number, Value};

enum Cell<'a> {
    Null,
    Int(i64),
    Text(&'a str),
    Blob(&'a [u8]),
    Double(f64),
}

fn varint(n: u64) -> Vec<u8> {
    if n < 0x80 {
        vec![n as u8]
    } else {
        let mut out = varint(n >> 7);
        let last = out.len() - 1;
        out[last] |= 0x80;
        out.push((n & 0x7f) as u8);
        out
    }
}

fn record(cells: &[Cell]) -> Vec<u8> {
    let mut types: Vec<u8> = Vec::new();
    let mut body: Vec<u8> = Vec::new();
    for cell in cells {
        match cell {
            Cell::Null => types.push(0),
            Cell::Int(n) => {
                types.push(6);
                body.extend_from_slice(&n.to_be_bytes());
            }
            Cell::Text(s) => {
                types.extend(varint(13 + 2 * s.len() as u64));
                body.extend_from_slice(s.as_bytes());
            }
            Cell::Blob(b) => {
                types.extend(varint(12 + 2 * b.len() as u64));
                body.extend_from_slice(b);
            }
            Cell::Double(x) => {
                types.push(7);
                body.extend_from_slice(&x.to_bits().to_be_bytes());
            }
        }
    }
    let mut out = varint(1 + types.len() as u64);
    out.extend(types);
    out.extend(body);
    out
}

const PAGE: usize = 4096;

fn leaf(header: &[u8], rows: &[(u64, Vec<u8>)]) -> Vec<u8> {
    let mut page = vec![0u8; PAGE];
    page[..header.len()].copy_from_slice(header);
    let at = header.len();
    page[at] = 13;
    page[at + 3..at + 5].copy_from_slice(&(rows.len() as u16).to_be_bytes());
    let mut end = PAGE;
    for (i, (rowid, payload)) in rows.iter().enumerate() {
        let mut cell = varint(payload.len() as u64);
        cell.extend(varint(*rowid));
        cell.extend_from_slice(payload);
        end -= cell.len();
        page[end..end + cell.len()].copy_from_slice(&cell);
        let pointer = at + 8 + 2 * i;
        page[pointer..pointer + 2].copy_from_slice(&(end as u16).to_be_bytes());
    }
    page[at + 5..at + 7].copy_from_slice(&(end as u16).to_be_bytes());
    page
}

fn interior(children: &[u32], right: u32) -> Vec<u8> {
    let mut page = vec![0u8; PAGE];
    page[0] = 5;
    page[3..5].copy_from_slice(&(children.len() as u16).to_be_bytes());
    page[8..12].copy_from_slice(&right.to_be_bytes());
    let mut end = PAGE;
    for (i, child) in children.iter().enumerate() {
        end -= 5;
        page[end..end + 4].copy_from_slice(&child.to_be_bytes());
        page[end + 4] = 1;
        let pointer = 12 + 2 * i;
        page[pointer..pointer + 2].copy_from_slice(&(end as u16).to_be_bytes());
    }
    page[5..7].copy_from_slice(&(end as u16).to_be_bytes());
    page
}

fn file_header() -> Vec<u8> {
    let mut header = vec![0u8; 100];
    header[..16].copy_from_slice(b"SQLite format 3\0");
    header[16..18].copy_from_slice(&(PAGE as u16).to_be_bytes());
    header[18] = 1;
    header[19] = 1;
    header[56..60].copy_from_slice(&1u32.to_be_bytes());
    header
}

fn database(schema: &[(&str, &str, i64, &str)], pages: Vec<Vec<u8>>) -> Vec<u8> {
    let rows: Vec<(u64, Vec<u8>)> = schema
        .iter()
        .enumerate()
        .map(|(i, (kind, name, root, sql))| {
            let payload = record(&[
                Cell::Text(kind),
                Cell::Text(name),
                Cell::Text(name),
                Cell::Int(*root),
                Cell::Text(sql),
            ]);
            (i as u64 + 1, payload)
        })
        .collect();
    let mut bytes = leaf(&file_header(), &rows);
    for page in pages {
        bytes.extend(page);
    }
    bytes
}

fn stamp(len: u64) -> SourceStamp {
    SourceStamp {
        len,
        modified: Some(7),
    }
}

fn open(bytes: Vec<u8>) -> Result<SqliteReader, DactylError> {
    let at = stamp(bytes.len() as u64);
    SqliteReader::open(bytes, at, at)
}

fn integer(n: i64) -> Value {
    Value::Number(Number::from_i64(n))
}

fn text(s: &str) -> Value {
    Value::Text(s.to_string())
}

fn column(name: &str, primary_key: bool) -> ColumnSchema {
    ColumnSchema {
        name: name.to_string(),
        primary_key,
        unique: false,
        not_null: false,
        default: None,
    }
}

const TASKS: &str = "create table tasks (id integer primary key, title text)";

#[test]
fn rows_are_read_from_a_leaf_page() {
    let page = leaf(
        &[],
        &[
            (1, record(&[Cell::Null, Cell::Text("one")])),
            (
                300,
                record(&[Cell::Int(-5), Cell::Blob(&[1, 2]), Cell::Double(1.5)]),
            ),
        ],
    );
    let reader = open(database(&[("table", "tasks", 2, TASKS)], vec![page])).unwrap();
    let rows = reader.table_rows(2).unwrap();
    assert_eq!(rows[0], (1, vec![Value::Null, text("one")]));
    assert_eq!(
        rows[1],
        (
            300,
            vec![
                integer(-5),
                Value::from_blob(&[1, 2]),
                Value::Number(Number::Float(1.5f64.to_bits())),
            ]
        )
    );
}

#[test]
fn rows_of_an_interior_page_come_left_to_right() {
    let pages = vec![
        interior(&[3], 4),
        leaf(&[], &[(1, record(&[Cell::Text("left")]))]),
        leaf(&[], &[(2, record(&[Cell::Text("right")]))]),
    ];
    let reader = open(database(&[("table", "t", 2, "create table t (a)")], pages)).unwrap();
    let rows = reader.table_rows(2).unwrap();
    assert_eq!(rows, vec![(1, vec![text("left")]), (2, vec![text("right")])]);
}

#[test]
fn a_long_payload_is_put_together_from_its_overflow_pages() {
    let long: String = "x".repeat(6000);
    let payload = record(&[Cell::Text(&long)]);
    let usable = PAGE;
    let minimum = (usable - 12) * 32 / 255 - 23;
    let maximum = usable - 35;
    let surplus = minimum + (payload.len() - minimum) % (usable - 4);
    let local = if surplus <= maximum { surplus } else { minimum };
    let mut cell = varint(payload.len() as u64);
    cell.push(1);
    cell.extend_from_slice(&payload[..local]);
    cell.extend_from_slice(&3u32.to_be_bytes());
    let mut page = vec![0u8; PAGE];
    page[0] = 13;
    page[4] = 1;
    let end = PAGE - cell.len();
    page[end..].copy_from_slice(&cell);
    page[8..10].copy_from_slice(&(end as u16).to_be_bytes());
    let mut pages = vec![page];
    let mut rest: &[u8] = &payload[local..];
    let mut number: u32 = 3;
    while !rest.is_empty() {
        let take = rest.len().min(PAGE - 4);
        let mut overflow = vec![0u8; PAGE];
        if take < rest.len() {
            overflow[..4].copy_from_slice(&(number + 1).to_be_bytes());
        }
        overflow[4..4 + take].copy_from_slice(&rest[..take]);
        pages.push(overflow);
        rest = &rest[take..];
        number += 1;
    }
    let reader = open(database(&[("table", "t", 2, "create table t (a)")], pages)).unwrap();
    assert_eq!(reader.table_rows(2).unwrap(), vec![(1, vec![text(&long)])]);
}

#[test]
fn a_cycle_of_pages_is_corrupt() {
    let reader = open(database(
        &[("table", "t", 2, "create table t (a)")],
        vec![interior(&[2], 2)],
    ))
    .unwrap();
    let error = reader.table_rows(2).unwrap_err();
    assert_eq!(error.adapter_code(), Some("corrupt_input"));
    assert!(error.message().contains("page cycle"));
    assert!(reader.table_rows(0).is_err());
    assert!(reader.table_rows(9).is_err());
}

#[test]
fn headers_that_cannot_be_read_are_typed() {
    let truncated = open(b"SQLite format 3\0".to_vec()).err().unwrap();
    assert_eq!(truncated.adapter_code(), Some("corrupt_input"));
    let mut bytes = database(&[], vec![]);
    bytes[16] = 0;
    bytes[17] = 3;
    let size = open(bytes).err().unwrap();
    assert_eq!(size.adapter_code(), Some("unsupported_schema"));
    let mut bytes = database(&[], vec![]);
    bytes[59] = 9;
    let encoding = open(bytes).err().unwrap();
    assert_eq!(encoding.adapter_code(), Some("unsupported_value"));
    let mut bytes = database(&[], vec![]);
    bytes.push(0);
    let geometry = open(bytes).err().unwrap();
    assert_eq!(geometry.adapter_code(), Some("corrupt_input"));
}

#[test]
fn a_source_that_changes_while_it_is_read_is_refused() {
    let bytes = database(&[], vec![]);
    let error = SqliteReader::open(bytes, stamp(1), stamp(2)).err().unwrap();
    assert_eq!(error.adapter_code(), Some("source_changed"));
}

#[test]
fn schema_objects_come_sorted_by_name() {
    let reader = open(database(
        &[
            ("table", "zeta", 2, "create table zeta (a)"),
            ("table", "alpha", 3, "create table alpha (a)"),
        ],
        vec![leaf(&[], &[]), leaf(&[], &[])],
    ))
    .unwrap();
    let objects = reader.schema_objects().unwrap();
    let names: Vec<&str> = objects.iter().map(|o| o.name.as_str()).collect();
    assert_eq!(names, vec!["alpha", "zeta"]);
    assert_eq!(objects[0].root_page, 3);
    assert_eq!(objects[0].sql.as_deref(), Some("create table alpha (a)"));
}

#[test]
fn a_conversion_creates_loads_and_checks_in_that_order() {
    let reader = open(database(
        &[
            ("table", "tasks", 2, TASKS),
            ("index", "by_title", 3, "create index by_title on tasks(title)"),
        ],
        vec![
            leaf(&[], &[(1, record(&[Cell::Null, Cell::Text("one")]))]),
            leaf(&[], &[]),
        ],
    ))
    .unwrap();
    let mut conversion = Conversion::convert_sqlite(reader).ok().unwrap();
    match conversion.next().unwrap() {
        ConvertStep::CreateTable { name, sql } => {
            assert_eq!(name, "tasks");
            assert_eq!(sql, TASKS);
        }
        _ => panic!("expected a table"),
    }
    match conversion.next().unwrap() {
        ConvertStep::CreateIndex { name, .. } => assert_eq!(name, "by_title"),
        _ => panic!("expected an index"),
    }
    match conversion.next().unwrap() {
        ConvertStep::LoadRows {
            name,
            rows,
            rowid_column,
        } => {
            assert_eq!(name, "tasks");
            assert_eq!(rows, vec![(1, vec![Value::Null, text("one")])]);
            assert_eq!(rowid_column.as_deref(), Some("id"));
        }
        _ => panic!("expected rows"),
    }
    assert!(matches!(
        conversion.next().unwrap(),
        ConvertStep::CheckForeignKeys
    ));
    assert!(matches!(conversion.next().unwrap(), ConvertStep::Finished));
}

#[test]
fn views_and_triggers_are_refused() {
    let reader = open(database(
        &[("view", "v", 0, "create view v as select 1")],
        vec![],
    ))
    .unwrap();
    let error = Conversion::convert_sqlite(reader).err().unwrap();
    assert_eq!(error.adapter_code(), Some("unsupported_schema"));
}

#[test]
fn files_are_told_apart_by_their_first_bytes() {
    assert_eq!(sniff(b"SQLite format 3\0"), FileKind::Sqlite);
    assert_eq!(sniff(b"{\"format_version\":2}"), FileKind::Dactyl);
    assert_eq!(sniff(b"not a database"), FileKind::Unknown);
    assert_eq!(sniff(b""), FileKind::Empty);
}

fn paths(source: FileKind, destination: FileKind, same: bool, read_only: bool) -> ImportPaths {
    ImportPaths {
        source: "in.db".to_string(),
        destination: "out.store".to_string(),
        source_kind: source,
        destination_kind: destination,
        same,
        destination_read_only: read_only,
    }
}

fn start_code(paths: ImportPaths) -> Option<String> {
    begin_import(&paths)
        .err()
        .and_then(|error| error.adapter_code().map(str::to_owned))
}

#[test]
fn an_import_starts_only_where_it_may() {
    assert_eq!(
        start_code(paths(FileKind::Missing, FileKind::Missing, false, false)).as_deref(),
        Some("missing_input")
    );
    assert_eq!(
        start_code(paths(FileKind::Unknown, FileKind::Missing, false, false)).as_deref(),
        Some("not_sqlite")
    );
    assert_eq!(
        start_code(paths(FileKind::Empty, FileKind::Missing, false, false)).as_deref(),
        Some("not_sqlite")
    );
    assert_eq!(
        start_code(paths(FileKind::Dactyl, FileKind::Missing, false, false)).as_deref(),
        Some("already_dactyl")
    );
    assert_eq!(
        start_code(paths(FileKind::Sqlite, FileKind::Sqlite, false, false)).as_deref(),
        Some("destination_is_sqlite")
    );
    let read_only = begin_import(&paths(FileKind::Sqlite, FileKind::Dactyl, false, true)).unwrap_err();
    assert_eq!(read_only.adapter_kind(), Some(AdapterErrorKind::ReadOnly));
    assert_eq!(
        begin_import(&paths(FileKind::Dactyl, FileKind::Dactyl, true, false)).unwrap(),
        ImportStart::Report
    );
    assert_eq!(
        begin_import(&paths(FileKind::Sqlite, FileKind::Missing, false, false)).unwrap(),
        ImportStart::Convert
    );
}

#[test]
fn a_divergent_destination_is_not_overwritten() {
    let error = finish_import(&paths(FileKind::Sqlite, FileKind::Dactyl, false, false), false).unwrap_err();
    assert_eq!(error.adapter_code(), Some("divergent_destination"));
    assert_eq!(
        finish_import(&paths(FileKind::Sqlite, FileKind::Dactyl, false, false), true).unwrap(),
        ImportFinish::Report
    );
    assert_eq!(
        finish_import(&paths(FileKind::Sqlite, FileKind::Sqlite, true, false), false).unwrap(),
        ImportFinish::PublishInPlace
    );
    assert_eq!(
        finish_import(&paths(FileKind::Sqlite, FileKind::Missing, false, false), false).unwrap(),
        ImportFinish::Persist
    );
}

#[test]
fn a_report_counts_what_the_snapshot_holds() {
    let table = |name: &str, row_count: u64| TableSchema {
        name: name.to_string(),
        columns: vec![column("id", true)],
        unique_constraints: vec![],
        foreign_keys: vec![],
        row_count,
    };
    let schema = StoreSchema {
        format_version: 2,
        tables: vec![table("events", 2), table("tasks", 3)],
        indexes: vec![IndexSchema {
            name: "i".into(),
            table: "tasks".into(),
            columns: vec!["id".into()],
            unique: true,
        }],
    };
    let report = report(
        &paths(FileKind::Sqlite, FileKind::Missing, false, false),
        false,
        &schema,
        Some("in.db.legacy-sqlite".to_string()),
    );
    assert_eq!((report.tables, report.indexes, report.rows), (2, 1, 5));
    assert_eq!(report.backup.as_deref(), Some("in.db.legacy-sqlite"));
    assert_eq!(schema.row_count(), 5);
    assert_eq!(schema.table("TASKS").unwrap().row_count, 3);
    assert!(schema.table("none").is_none());
}

fn one_table() -> StoreSchema {
    StoreSchema {
        format_version: 1,
        tables: vec![TableSchema {
            name: "t".to_string(),
            columns: vec![column("id", true)],
            unique_constraints: vec![],
            foreign_keys: vec![],
            row_count: 4,
        }],
        indexes: vec![],
    }
}

#[test]
fn a_second_import_in_place_changes_nothing() {
    let mut import = Import::new(paths(FileKind::Sqlite, FileKind::Sqlite, true, false));
    let mut steps = Vec::new();
    while import.step() != ImportStep::Finished {
        steps.push(import.step());
        import = import.advance(ImportOutcome::Done);
    }
    assert_eq!(
        steps,
        vec![
            ImportStep::Convert,
            ImportStep::CreateParent,
            ImportStep::PublishInPlace
        ]
    );
    let first = import.into_report(&one_table()).unwrap();
    assert!(!first.already_converted);
    assert_eq!(first.source, first.destination);
    assert_eq!(first.backup, Some(format!("{}.legacy-sqlite", first.destination)));
    let import = Import::new(paths(FileKind::Dactyl, FileKind::Dactyl, true, false));
    assert_eq!(import.step(), ImportStep::Load);
    let import = import.advance(ImportOutcome::Done);
    assert_eq!(import.step(), ImportStep::Finished);
    let second = import.into_report(&one_table()).unwrap();
    assert!(second.already_converted);
    assert_eq!(second.backup, None);
    assert_eq!(
        (second.tables, second.indexes, second.rows),
        (first.tables, first.indexes, first.rows)
    );
}

#[test]
fn an_import_ends_with_the_first_step_that_fails() {
    let elsewhere = || Import::new(paths(FileKind::Sqlite, FileKind::Missing, false, false));
    let parent = elsewhere()
        .advance(ImportOutcome::Done)
        .advance(ImportOutcome::Io("denied".into()));
    assert_eq!(parent.step(), ImportStep::Failed);
    let error = parent.into_report(&one_table()).unwrap_err();
    assert_eq!(error.adapter_code(), Some("replacement_failed"));
    assert!(error.message().contains("create destination parent: denied"));
    let mut written = elsewhere().advance(ImportOutcome::Done).advance(ImportOutcome::Done);
    assert_eq!(written.step(), ImportStep::Persist);
    written = written.advance(ImportOutcome::Io("full".into()));
    let error = written.into_report(&one_table()).unwrap_err();
    assert!(error.message().contains("persist converted store: full"));
    let compared = Import::new(paths(FileKind::Sqlite, FileKind::Dactyl, false, false))
        .advance(ImportOutcome::Done);
    assert_eq!(compared.step(), ImportStep::Compare);
    let error = compared
        .advance(ImportOutcome::Compared(false))
        .into_report(&one_table())
        .unwrap_err();
    assert_eq!(error.adapter_code(), Some("divergent_destination"));
    let same = Import::new(paths(FileKind::Sqlite, FileKind::Dactyl, false, false))
        .advance(ImportOutcome::Done)
        .advance(ImportOutcome::Compared(true));
    assert!(same.into_report(&one_table()).unwrap().already_converted);
    let broken = Import::new(paths(FileKind::Dactyl, FileKind::Dactyl, true, false)).advance(
        ImportOutcome::Refused(DactylError::adapter(AdapterErrorKind::Storage, "bad json")),
    );
    let error = broken.into_report(&one_table()).unwrap_err();
    assert_eq!(error.adapter_code(), Some("corrupt_input"));
    let refused = Import::new(paths(FileKind::Missing, FileKind::Missing, false, false));
    assert_eq!(refused.step(), ImportStep::Failed);
}

#[test]
fn a_value_beyond_the_payload_is_truncated() {
    let mut position = 9;
    let error = decode_serial_value(1, &[1, 2], &mut position, TextEncoding::Utf8).unwrap_err();
    assert_eq!(error.adapter_code(), Some("corrupt_input"));
    assert!(error.message().contains("truncated"));
    assert_eq!(position, 9);
    assert!(decode_serial_value(10, &[1, 2], &mut position, TextEncoding::Utf8).is_err());
    position = 0;
    let value = decode_serial_value(2, &[1, 2], &mut position, TextEncoding::Utf8).unwrap();
    assert_eq!((value, position), (integer(258), 2));
}

#[test]
fn errors_of_an_import_name_what_failed() {
    let error = load_import_error(DactylError::adapter(AdapterErrorKind::Storage, "bad json"));
    assert_eq!(error.adapter_code(), Some("corrupt_input"));
    let kept = load_import_error(DactylError::adapter(AdapterErrorKind::Busy, "busy"));
    assert_eq!(kept.adapter_kind(), Some(AdapterErrorKind::Busy));
    assert!(table_refused("t", "why").message().contains("unsupported CREATE TABLE for t: why"));
    assert!(index_refused("i", "why").message().contains("unsupported CREATE INDEX for i: why"));
}

#[test]
fn the_row_id_stands_in_for_an_integer_primary_key() {
    let columns = vec![column("id", true), column("title", false)];
    assert_eq!(
        align_row(&columns, Some("id"), "tasks", 9, vec![Value::Null, text("a")]).unwrap(),
        vec![integer(9), text("a")]
    );
    assert_eq!(
        align_row(&columns, Some("id"), "tasks", 9, vec![text("a")]).unwrap(),
        vec![integer(9), text("a")]
    );
    let error = align_row(&columns, None, "tasks", 9, vec![text("a")]).unwrap_err();
    assert!(error.message().contains("row width mismatch for tasks"));
}

#[test]
fn loading_stops_at_the_first_row_that_is_refused() {
    let mut table = ImportTable {
        columns: vec![column("id", true), column("title", false)],
        rows: vec![],
        next_id: 1,
    };
    let rows = vec![
        (4, vec![Value::Null, text("a")]),
        (5, vec![Value::Null, text("bad")]),
        (6, vec![Value::Null, text("c")]),
    ];
    let error = import_table_rows(&mut table, "tasks", rows, Some("id"), |_, values| {
        if values[1] == text("bad") {
            Err(DactylError::adapter(AdapterErrorKind::Constraint, "refused"))
        } else {
            Ok(())
        }
    })
    .unwrap_err();
    assert_eq!(error.adapter_kind(), Some(AdapterErrorKind::Constraint));
    assert_eq!(table.rows, vec![vec![integer(4), text("a")]]);
    assert_eq!(table.next_id, 5);
}

#[test]
fn a_replacement_that_fails_puts_the_source_back() {
    let mut publisher = Publisher::new();
    assert_eq!(publisher.action(), PublishAction::ClearTemporary);
    publisher.advance(Err("none".into()), false);
    assert_eq!(publisher.action(), PublishAction::WriteTemporary);
    publisher.advance(Ok(()), true);
    assert_eq!(publisher.action(), PublishAction::RemoveOldBackup);
    publisher.advance(Ok(()), false);
    assert_eq!(publisher.action(), PublishAction::MoveSourceToBackup);
    publisher.advance(Ok(()), false);
    assert_eq!(publisher.action(), PublishAction::MoveTemporaryToSource);
    publisher.advance(Err("disk full".into()), false);
    assert_eq!(publisher.action(), PublishAction::RestoreSource);
    publisher.advance(Ok(()), false);
    assert_eq!(publisher.action(), PublishAction::DropTemporary);
    publisher.advance(Ok(()), false);
    assert_eq!(publisher.action(), PublishAction::Failed);
    let error = publisher.into_failure().unwrap();
    assert_eq!(error.adapter_code(), Some("replacement_failed"));
    assert!(error.message().contains("replace destination: disk full"));
}

#[test]
fn a_replacement_that_succeeds_keeps_a_backup() {
    let mut publisher = Publisher::new();
    publisher.advance(Ok(()), false);
    publisher.advance(Ok(()), false);
    assert_eq!(publisher.action(), PublishAction::MoveSourceToBackup);
    publisher.advance(Ok(()), false);
    publisher.advance(Ok(()), false);
    assert_eq!(publisher.action(), PublishAction::Finished);
    assert!(publisher.into_failure().is_none());
    assert_eq!(temporary_name("a.db"), "a.db.import.tmp");
    assert_eq!(backup_name("a.db"), "a.db.legacy-sqlite");
}
