//! Reading the schema of a store through its catalog, one query after the
//! other.

use vstd::prelude::*;

use crate::error::{DactylError, ErrorView};
use crate::rows;
use crate::rows::{Row, RowView, Rows};
use crate::schema::{
    ColumnSchema, ColumnView, ForeignKeySchema, ForeignKeyView, IndexSchema, IndexView, StoreSchema,
    TableSchema,
};
use crate::sqlite::inspect;
use crate::sqlite::maintenance;
use crate::sqlite::statement;

verus! {

/// What a [`TableSchema`] says.
#[verifier::ext_equal]
pub ghost struct TableView {
    pub name: Seq<char>,
    pub columns: Seq<ColumnView>,
    pub unique_constraints: Seq<Seq<Seq<char>>>,
    pub foreign_keys: Seq<ForeignKeyView>,
    pub row_count: u64,
}

/// What a table says.
pub open spec fn table_view(table: TableSchema) -> TableView {
    TableView {
        name: table.name@,
        columns: inspect::column_views(table.columns@),
        unique_constraints: inspect::text_lists(table.unique_constraints@),
        foreign_keys: inspect::foreign_key_views(table.foreign_keys@),
        row_count: table.row_count,
    }
}

/// What tables say.
pub open spec fn table_views(tables: Seq<TableSchema>) -> Seq<TableView> {
    tables.map_values(|t: TableSchema| table_view(t))
}

/// The query for the tables of the application.
pub open spec fn tables_query() -> Seq<char> {
    "SELECT name FROM sqlite_schema WHERE type = 'table' AND substr(name, 1, 7) <> 'sqlite_' ORDER BY name"@
}

/// The query for the number of rows of a table.
pub open spec fn count_query(name: Seq<char>) -> Seq<char> {
    "SELECT COUNT(*) FROM "@ + statement::quoted_identifier(name)
}

// ---------------------------------------------------------------------------
// What the queries come to
// ---------------------------------------------------------------------------

/// What reading one index, listed by a row, can come to.
pub open spec fn index_read<Q: Fn(&str) -> Result<Rows, DactylError>>(
    query: Q,
    table: Seq<char>,
    row: RowView,
    outcome: Result<IndexView, ErrorView>,
) -> bool {
    match (inspect::text_at(row, 1), inspect::integer_at(row, 2)) {
        (Err(e), _) => outcome == Err::<IndexView, ErrorView>(e),
        (Ok(_), Err(e)) => outcome == Err::<IndexView, ErrorView>(e),
        (Ok(name), Ok(unique)) => exists|answer: Result<Seq<RowView>, ErrorView>| #[trigger]
            maintenance::answered(query, inspect::pragma_on("index_info"@, name), answer)
                && outcome == match answer {
                Err(e) => Err::<IndexView, ErrorView>(e),
                Ok(found) => Ok(
                    IndexView {
                        name,
                        table,
                        columns: inspect::indexed_columns(found),
                        unique: unique != 0,
                    },
                ),
            },
    }
}

/// What reading one more index can come to, where those before came to `head`.
pub open spec fn next_index_read<Q: Fn(&str) -> Result<Rows, DactylError>>(
    query: Q,
    table: Seq<char>,
    row: RowView,
    head: Result<Seq<IndexView>, ErrorView>,
    outcome: Result<Seq<IndexView>, ErrorView>,
) -> bool {
    match head {
        Err(e) => outcome == Err::<Seq<IndexView>, ErrorView>(e),
        Ok(list) => exists|one: Result<IndexView, ErrorView>| #[trigger]
            index_read(query, table, row, one) && outcome == match one {
                Err(e) => Err::<Seq<IndexView>, ErrorView>(e),
                Ok(index) => Ok(list.push(index)),
            },
    }
}

/// What reading the indexes that rows list can come to; the first that fails
/// is reported.
pub open spec fn indexes_read<Q: Fn(&str) -> Result<Rows, DactylError>>(
    query: Q,
    table: Seq<char>,
    all: Seq<RowView>,
    outcome: Result<Seq<IndexView>, ErrorView>,
) -> bool
    decreases all.len(),
{
    if all.len() == 0 {
        outcome == Ok::<Seq<IndexView>, ErrorView>(Seq::empty())
    } else {
        exists|head: Result<Seq<IndexView>, ErrorView>|
            indexes_read(query, table, all.drop_last(), head) && #[trigger] next_index_read(
                query,
                table,
                all.last(),
                head,
                outcome,
            )
    }
}

/// What reading the indexes of a table can come to: the indexes in order of
/// name.
pub open spec fn table_indexes_read<Q: Fn(&str) -> Result<Rows, DactylError>>(
    query: Q,
    table: Seq<char>,
    outcome: Result<Seq<IndexView>, ErrorView>,
) -> bool {
    exists|answer: Result<Seq<RowView>, ErrorView>| #[trigger]
        maintenance::answered(query, inspect::pragma_on("index_list"@, table), answer)
            && match answer {
            Err(e) => outcome == Err::<Seq<IndexView>, ErrorView>(e),
            Ok(found) => exists|list: Result<Seq<IndexView>, ErrorView>| #[trigger]
                indexes_read(query, table, found, list) && outcome == match list {
                    Err(e) => Err::<Seq<IndexView>, ErrorView>(e),
                    Ok(list) => Ok(inspect::indexes_sorted(list)),
                },
        }
}

/// A table, from the answers to the three queries about it; the first that
/// fails is reported.
pub open spec fn table_of(
    name: Seq<char>,
    indexes: Seq<IndexView>,
    info: Result<Seq<RowView>, ErrorView>,
    keys: Result<Seq<RowView>, ErrorView>,
    count: Result<Seq<RowView>, ErrorView>,
) -> Result<TableView, ErrorView> {
    if info is Err {
        Err(info->Err_0)
    } else {
        match inspect::columns_of(info->Ok_0, inspect::unique_columns_of(indexes)) {
            Err(e) => Err(e),
            Ok(columns) => if keys is Err {
                Err(keys->Err_0)
            } else {
                match inspect::foreign_keys_of(keys->Ok_0) {
                    Err(e) => Err(e),
                    Ok(foreign_keys) => if count is Err {
                        Err(count->Err_0)
                    } else {
                        match inspect::counted(count->Ok_0) {
                            Err(e) => Err(e),
                            Ok(row_count) => Ok(
                                TableView {
                                    name,
                                    columns,
                                    unique_constraints: inspect::unique_sets_of(indexes),
                                    foreign_keys,
                                    row_count,
                                },
                            ),
                        }
                    },
                }
            },
        }
    }
}

/// Whether the columns of a table could be read.
pub open spec fn columns_known(
    indexes: Seq<IndexView>,
    info: Result<Seq<RowView>, ErrorView>,
) -> bool {
    info is Ok && inspect::columns_of(info->Ok_0, inspect::unique_columns_of(indexes)) is Ok
}

/// Whether the foreign keys of a table could be read.
pub open spec fn keys_known(keys: Result<Seq<RowView>, ErrorView>) -> bool {
    keys is Ok && inspect::foreign_keys_of(keys->Ok_0) is Ok
}

/// What reading a table whose indexes are known can come to. A query is made
/// only where those before it passed.
pub open spec fn table_read<Q: Fn(&str) -> Result<Rows, DactylError>>(
    query: Q,
    name: Seq<char>,
    indexes: Seq<IndexView>,
    outcome: Result<TableView, ErrorView>,
) -> bool {
    exists|
        info: Result<Seq<RowView>, ErrorView>,
        keys: Result<Seq<RowView>, ErrorView>,
        count: Result<Seq<RowView>, ErrorView>,
    |
        {
            &&& maintenance::answered(query, inspect::pragma_on("table_info"@, name), info)
            &&& columns_known(indexes, info) ==> maintenance::answered(
                query,
                inspect::pragma_on("foreign_key_list"@, name),
                keys,
            )
            &&& columns_known(indexes, info) && keys_known(keys) ==> maintenance::answered(
                query,
                count_query(name),
                count,
            )
            &&& outcome == #[trigger] table_of(name, indexes, info, keys, count)
        }
}

/// What was read of a store so far.
#[verifier::ext_equal]
pub ghost struct SurveyView {
    pub tables: Seq<TableView>,
    pub indexes: Seq<IndexView>,
}

/// What reading one table, listed by a row, can come to.
pub open spec fn entry_read<Q: Fn(&str) -> Result<Rows, DactylError>>(
    query: Q,
    row: RowView,
    so_far: SurveyView,
    outcome: Result<SurveyView, ErrorView>,
) -> bool {
    match inspect::text_at(row, 0) {
        Err(e) => outcome == Err::<SurveyView, ErrorView>(e),
        Ok(name) => exists|indexes: Result<Seq<IndexView>, ErrorView>| #[trigger]
            table_indexes_read(query, name, indexes) && match indexes {
                Err(e) => outcome == Err::<SurveyView, ErrorView>(e),
                Ok(indexes) => exists|table: Result<TableView, ErrorView>| #[trigger]
                    table_read(query, name, indexes, table) && outcome == match table {
                        Err(e) => Err::<SurveyView, ErrorView>(e),
                        Ok(table) => Ok(
                            SurveyView {
                                tables: so_far.tables.push(table),
                                indexes: so_far.indexes + indexes,
                            },
                        ),
                    },
            },
    }
}

/// What reading one more table can come to, where those before came to `head`.
pub open spec fn next_entry_read<Q: Fn(&str) -> Result<Rows, DactylError>>(
    query: Q,
    row: RowView,
    head: Result<SurveyView, ErrorView>,
    outcome: Result<SurveyView, ErrorView>,
) -> bool {
    match head {
        Err(e) => outcome == Err::<SurveyView, ErrorView>(e),
        Ok(so_far) => entry_read(query, row, so_far, outcome),
    }
}

/// What reading the tables that rows list can come to; the first that fails
/// is reported.
pub open spec fn entries_read<Q: Fn(&str) -> Result<Rows, DactylError>>(
    query: Q,
    all: Seq<RowView>,
    outcome: Result<SurveyView, ErrorView>,
) -> bool
    decreases all.len(),
{
    if all.len() == 0 {
        outcome == Ok::<SurveyView, ErrorView>(
            SurveyView { tables: Seq::empty(), indexes: Seq::empty() },
        )
    } else {
        exists|head: Result<SurveyView, ErrorView>|
            entries_read(query, all.drop_last(), head) && #[trigger] next_entry_read(
                query,
                all.last(),
                head,
                outcome,
            )
    }
}

/// What the schema of a store says.
#[verifier::ext_equal]
pub ghost struct StoreView {
    pub format_version: u32,
    pub tables: Seq<TableView>,
    pub indexes: Seq<IndexView>,
}

/// What reading the schema of a store can come to: its tables in the order in
/// which they are listed, and all indexes in order of name, under the version
/// of the description.
pub open spec fn store_read<Q: Fn(&str) -> Result<Rows, DactylError>>(
    query: Q,
    outcome: Result<StoreView, ErrorView>,
) -> bool {
    exists|answer: Result<Seq<RowView>, ErrorView>| #[trigger]
        maintenance::answered(query, tables_query(), answer) && match answer {
            Err(e) => outcome == Err::<StoreView, ErrorView>(e),
            Ok(found) => exists|survey: Result<SurveyView, ErrorView>| #[trigger]
                entries_read(query, found, survey) && outcome == match survey {
                    Err(e) => Err::<StoreView, ErrorView>(e),
                    Ok(survey) => Ok(
                        StoreView {
                            format_version: inspect::SCHEMA_DESCRIPTION_VERSION,
                            tables: survey.tables,
                            indexes: inspect::indexes_sorted(survey.indexes),
                        },
                    ),
                },
        }
}

// ---------------------------------------------------------------------------
// Making the queries
// ---------------------------------------------------------------------------

/// What indexes came to.
pub open spec fn indexes_view(r: Result<Vec<IndexSchema>, DactylError>) -> Result<
    Seq<IndexView>,
    ErrorView,
> {
    match r {
        Ok(list) => Ok(inspect::index_views(list@)),
        Err(e) => Err(e@),
    }
}

/// What an index came to.
pub open spec fn index_result(r: Result<IndexSchema, DactylError>) -> Result<IndexView, ErrorView> {
    match r {
        Ok(index) => Ok(index@),
        Err(e) => Err(e@),
    }
}

/// What a table came to.
pub open spec fn table_result(r: Result<TableSchema, DactylError>) -> Result<TableView, ErrorView> {
    match r {
        Ok(table) => Ok(table_view(table)),
        Err(e) => Err(e@),
    }
}

/// What a schema came to.
pub open spec fn store_result(r: Result<StoreSchema, DactylError>) -> Result<StoreView, ErrorView> {
    match r {
        Ok(schema) => Ok(
            StoreView {
                format_version: schema.format_version,
                tables: table_views(schema.tables@),
                indexes: inspect::index_views(schema.indexes@),
            },
        ),
        Err(e) => Err(e@),
    }
}

fn read_index<Q: Fn(&str) -> Result<Rows, DactylError>>(query: &Q, table: &str, row: &Row) -> (r:
    Result<IndexSchema, DactylError>)
    requires
        forall|s: &str| #[trigger] call_requires(*query, (s,)),
    ensures
        index_read(*query, table@, row@, index_result(r)),
{
    let (name, unique) = match inspect::index_entry(row) {
        Ok(entry) => entry,
        Err(e) => {
            return Err(e);
        },
    };
    let sql: String = inspect::pragma_sql("index_info", name.as_str());
    match maintenance::ask(query, sql.as_str()) {
        Ok(found) => Ok(
            IndexSchema {
                name,
                table: table.to_string(),
                columns: inspect::index_columns(found.as_slice()),
                unique,
            },
        ),
        Err(e) => Err(e),
    }
}

proof fn lemma_first_index_fault<Q: Fn(&str) -> Result<Rows, DactylError>>(
    query: Q,
    table: Seq<char>,
    all: Seq<RowView>,
    i: int,
    e: ErrorView,
)
    requires
        0 <= i < all.len(),
        indexes_read(query, table, all.take(i + 1), Err(e)),
    ensures
        indexes_read(query, table, all, Err(e)),
    decreases all.len(),
{
    if i + 1 == all.len() {
        assert(all.take(i + 1) =~= all);
    } else {
        assert(all.drop_last().take(i + 1) =~= all.take(i + 1));
        lemma_first_index_fault(query, table, all.drop_last(), i, e);
        assert(next_index_read(query, table, all.last(), Err(e), Err(e)));
    }
}

fn read_indexes<Q: Fn(&str) -> Result<Rows, DactylError>>(query: &Q, table: &str, all: &[Row]) -> (r:
    Result<Vec<IndexSchema>, DactylError>)
    requires
        forall|s: &str| #[trigger] call_requires(*query, (s,)),
    ensures
        indexes_read(*query, table@, rows::row_views(all@), indexes_view(r)),
{
    let ghost views = rows::row_views(all@);
    let mut out: Vec<IndexSchema> = Vec::new();
    let mut i: usize = 0;
    assert(views.take(0) =~= Seq::<RowView>::empty());
    assert(inspect::index_views(out@) =~= Seq::<IndexView>::empty());
    while i < all.len()
        invariant
            i <= all@.len(),
            views == rows::row_views(all@),
            forall|s: &str| #[trigger] call_requires(*query, (s,)),
            indexes_read(
                *query,
                table@,
                views.take(i as int),
                Ok(inspect::index_views(out@)),
            ),
        decreases all@.len() - i,
    {
        let ghost before = inspect::index_views(out@);
        let ghost head: Result<Seq<IndexView>, ErrorView> = Ok(before);
        proof {
            assert(views.take(i + 1).drop_last() =~= views.take(i as int));
            assert(views.take(i + 1).last() == all@[i as int]@);
            assert(indexes_read(*query, table@, views.take(i + 1).drop_last(), head));
        }
        match read_index(query, table, &all[i]) {
            Ok(index) => {
                let ghost one: Result<IndexView, ErrorView> = Ok(index@);
                assert(index_read(*query, table@, views.take(i + 1).last(), one));
                out.push(index);
                assert(inspect::index_views(out@) =~= before.push(index@));
                assert(next_index_read(
                    *query,
                    table@,
                    views.take(i + 1).last(),
                    head,
                    Ok(inspect::index_views(out@)),
                ));
                assert(indexes_read(
                    *query,
                    table@,
                    views.take(i + 1),
                    Ok(inspect::index_views(out@)),
                ));
            },
            Err(e) => {
                proof {
                    let one: Result<IndexView, ErrorView> = Err(e@);
                    assert(index_read(*query, table@, views.take(i + 1).last(), one));
                    assert(next_index_read(
                        *query,
                        table@,
                        views.take(i + 1).last(),
                        head,
                        Err(e@),
                    ));
                    assert(indexes_read(*query, table@, views.take(i + 1), Err(e@)));
                    lemma_first_index_fault(*query, table@, views, i as int, e@);
                }
                return Err(e);
            },
        }
        i = i + 1;
    }
    assert(views.take(i as int) =~= views);
    Ok(out)
}

/// The indexes of a table, in order of name.
pub fn indexes_for_table<Q: Fn(&str) -> Result<Rows, DactylError>>(query: &Q, table: &str) -> (r:
    Result<Vec<IndexSchema>, DactylError>)
    requires
        forall|s: &str| #[trigger] call_requires(*query, (s,)),
    ensures
        table_indexes_read(*query, table@, indexes_view(r)),
{
    let sql: String = inspect::pragma_sql("index_list", table);
    let found: Rows = match maintenance::ask(query, sql.as_str()) {
        Ok(found) => found,
        Err(e) => {
            return Err(e);
        },
    };
    let ghost answer: Result<Seq<RowView>, ErrorView> = Ok(rows::row_views(found.0@));
    assert(maintenance::answered(
        *query,
        inspect::pragma_on("index_list"@, table@),
        answer,
    ));
    let listed = read_indexes(query, table, found.as_slice());
    assert(indexes_read(*query, table@, answer->Ok_0, indexes_view(listed)));
    match listed {
        Ok(list) => Ok(inspect::sort_indexes(list)),
        Err(e) => Err(e),
    }
}

fn read_table<Q: Fn(&str) -> Result<Rows, DactylError>>(
    query: &Q,
    name: String,
    indexes: &Vec<IndexSchema>,
) -> (r: Result<TableSchema, DactylError>)
    requires
        forall|s: &str| #[trigger] call_requires(*query, (s,)),
    ensures
        table_read(*query, name@, inspect::index_views(indexes@), table_result(r)),
{
    let ghost listed = inspect::index_views(indexes@);
    let ghost none: Result<Seq<RowView>, ErrorView> = Ok(Seq::empty());
    let sql: String = inspect::pragma_sql("table_info", name.as_str());
    let answer = maintenance::ask(query, sql.as_str());
    let ghost info = maintenance::answer_view(answer);
    let columns: Vec<ColumnSchema> = match answer {
        Ok(found) => match inspect::columns_for_table(
            found.as_slice(),
            &inspect::unique_columns(indexes),
        ) {
            Ok(columns) => columns,
            Err(e) => {
                assert(table_of(name@, listed, info, none, none) == Err::<TableView, ErrorView>(e@));
                return Err(e);
            },
        },
        Err(e) => {
            assert(table_of(name@, listed, info, none, none) == Err::<TableView, ErrorView>(e@));
            return Err(e);
        },
    };
    let sql: String = inspect::pragma_sql("foreign_key_list", name.as_str());
    let answer = maintenance::ask(query, sql.as_str());
    let ghost keys = maintenance::answer_view(answer);
    let foreign_keys: Vec<ForeignKeySchema> = match answer {
        Ok(found) => match inspect::foreign_keys_for_table(found.as_slice()) {
            Ok(foreign_keys) => foreign_keys,
            Err(e) => {
                assert(table_of(name@, listed, info, keys, none) == Err::<TableView, ErrorView>(e@));
                return Err(e);
            },
        },
        Err(e) => {
            assert(table_of(name@, listed, info, keys, none) == Err::<TableView, ErrorView>(e@));
            return Err(e);
        },
    };
    let sql: String = inspect::count_sql(name.as_str());
    let answer = maintenance::ask(query, sql.as_str());
    let ghost count = maintenance::answer_view(answer);
    assert(maintenance::answered(*query, count_query(name@), count));
    match answer {
        Ok(found) => match inspect::table_count(found.as_slice()) {
            Ok(row_count) => {
                let table: TableSchema = inspect::table_schema(
                    name,
                    indexes,
                    columns,
                    foreign_keys,
                    row_count,
                );
                assert(table_of(name@, listed, info, keys, count) == Ok::<TableView, ErrorView>(
                    table_view(table),
                ));
                Ok(table)
            },
            Err(e) => {
                assert(table_of(name@, listed, info, keys, count) == Err::<TableView, ErrorView>(
                    e@,
                ));
                Err(e)
            },
        },
        Err(e) => {
            assert(table_of(name@, listed, info, keys, count) == Err::<TableView, ErrorView>(e@));
            Err(e)
        },
    }
}

proof fn lemma_first_entry_fault<Q: Fn(&str) -> Result<Rows, DactylError>>(
    query: Q,
    all: Seq<RowView>,
    i: int,
    e: ErrorView,
)
    requires
        0 <= i < all.len(),
        entries_read(query, all.take(i + 1), Err(e)),
    ensures
        entries_read(query, all, Err(e)),
    decreases all.len(),
{
    if i + 1 == all.len() {
        assert(all.take(i + 1) =~= all);
    } else {
        assert(all.drop_last().take(i + 1) =~= all.take(i + 1));
        lemma_first_entry_fault(query, all.drop_last(), i, e);
        assert(next_entry_read(query, all.last(), Err(e), Err(e)));
    }
}

/// What was read of a store once an entry was read.
pub open spec fn with_entry(
    so_far: SurveyView,
    entry: Result<(TableSchema, Vec<IndexSchema>), DactylError>,
) -> Result<SurveyView, ErrorView> {
    match entry {
        Ok((table, indexes)) => Ok(
            SurveyView {
                tables: so_far.tables.push(table_view(table)),
                indexes: so_far.indexes + inspect::index_views(indexes@),
            },
        ),
        Err(e) => Err(e@),
    }
}

fn read_entry<Q: Fn(&str) -> Result<Rows, DactylError>>(query: &Q, row: &Row) -> (r: Result<
    (TableSchema, Vec<IndexSchema>),
    DactylError,
>)
    requires
        forall|s: &str| #[trigger] call_requires(*query, (s,)),
    ensures
        forall|so_far: SurveyView| #[trigger]
            entry_read(*query, row@, so_far, with_entry(so_far, r)),
{
    let name: String = match inspect::row_string(row, 0) {
        Ok(name) => name,
        Err(e) => {
            return Err(e);
        },
    };
    let ghost called = name@;
    let indexes: Vec<IndexSchema> = match indexes_for_table(query, name.as_str()) {
        Ok(indexes) => indexes,
        Err(e) => {
            let ghost failed: Result<Seq<IndexView>, ErrorView> = Err(e@);
            assert(table_indexes_read(*query, called, failed));
            return Err(e);
        },
    };
    let ghost listed: Result<Seq<IndexView>, ErrorView> = Ok(inspect::index_views(indexes@));
    assert(table_indexes_read(*query, called, listed));
    match read_table(query, name, &indexes) {
        Ok(table) => {
            let ghost read: Result<TableView, ErrorView> = Ok(table_view(table));
            assert(table_read(*query, called, listed->Ok_0, read));
            Ok((table, indexes))
        },
        Err(e) => {
            let ghost read: Result<TableView, ErrorView> = Err(e@);
            assert(table_read(*query, called, listed->Ok_0, read));
            Err(e)
        },
    }
}

/// What the entries of a store came to.
pub open spec fn entries_view(
    r: Result<(Vec<TableSchema>, Vec<IndexSchema>), DactylError>,
) -> Result<SurveyView, ErrorView> {
    match r {
        Ok((tables, indexes)) => Ok(
            SurveyView { tables: table_views(tables@), indexes: inspect::index_views(indexes@) },
        ),
        Err(e) => Err(e@),
    }
}

fn read_entries<Q: Fn(&str) -> Result<Rows, DactylError>>(query: &Q, all: &[Row]) -> (r: Result<
    (Vec<TableSchema>, Vec<IndexSchema>),
    DactylError,
>)
    requires
        forall|s: &str| #[trigger] call_requires(*query, (s,)),
    ensures
        entries_read(*query, rows::row_views(all@), entries_view(r)),
{
    let ghost views = rows::row_views(all@);
    let mut tables: Vec<TableSchema> = Vec::new();
    let mut indexes: Vec<IndexSchema> = Vec::new();
    let mut i: usize = 0;
    assert(views.take(0) =~= Seq::<RowView>::empty());
    assert(table_views(tables@) =~= Seq::<TableView>::empty());
    assert(inspect::index_views(indexes@) =~= Seq::<IndexView>::empty());
    while i < all.len()
        invariant
            i <= all@.len(),
            views == rows::row_views(all@),
            forall|s: &str| #[trigger] call_requires(*query, (s,)),
            entries_read(
                *query,
                views.take(i as int),
                Ok(
                    SurveyView {
                        tables: table_views(tables@),
                        indexes: inspect::index_views(indexes@),
                    },
                ),
            ),
        decreases all@.len() - i,
    {
        let ghost so_far = SurveyView {
            tables: table_views(tables@),
            indexes: inspect::index_views(indexes@),
        };
        let ghost head: Result<SurveyView, ErrorView> = Ok(so_far);
        proof {
            assert(views.take(i + 1).drop_last() =~= views.take(i as int));
            assert(views.take(i + 1).last() == all@[i as int]@);
            assert(entries_read(*query, views.take(i + 1).drop_last(), head));
        }
        let entry = read_entry(query, &all[i]);
        assert(entry_read(*query, views.take(i + 1).last(), so_far, with_entry(so_far, entry)));
        match entry {
            Ok((table, mut listed)) => {
                let ghost added = inspect::index_views(listed@);
                let ghost grown = SurveyView {
                    tables: so_far.tables.push(table_view(table)),
                    indexes: so_far.indexes + added,
                };
                assert(entry_read(*query, views.take(i + 1).last(), so_far, Ok(grown)));
                tables.push(table);
                indexes.append(&mut listed);
                proof {
                    assert(table_views(tables@) =~= grown.tables);
                    assert(inspect::index_views(indexes@) =~= grown.indexes);
                    assert(next_entry_read(*query, views.take(i + 1).last(), head, Ok(grown)));
                    assert(entries_read(*query, views.take(i + 1), Ok(grown)));
                }
            },
            Err(e) => {
                proof {
                    assert(entry_read(*query, views.take(i + 1).last(), so_far, Err(e@)));
                    assert(next_entry_read(*query, views.take(i + 1).last(), head, Err(e@)));
                    assert(entries_read(*query, views.take(i + 1), Err(e@)));
                    lemma_first_entry_fault(*query, views, i as int, e@);
                }
                return Err(e);
            },
        }
        i = i + 1;
    }
    assert(views.take(i as int) =~= views);
    Ok((tables, indexes))
}

/// Read the schema of a store. `query` runs a statement on it.
pub fn survey_schema<Q: Fn(&str) -> Result<Rows, DactylError>>(query: &Q) -> (r: Result<
    StoreSchema,
    DactylError,
>)
    requires
        forall|s: &str| #[trigger] call_requires(*query, (s,)),
    ensures
        store_read(*query, store_result(r)),
{
    let sql: &str = inspect::tables_sql();
    assert(sql@ == tables_query());
    let found: Rows = match maintenance::ask(query, sql) {
        Ok(found) => found,
        Err(e) => {
            return Err(e);
        },
    };
    let ghost answer: Result<Seq<RowView>, ErrorView> = Ok(rows::row_views(found.0@));
    assert(maintenance::answered(*query, tables_query(), answer));
    let entries = read_entries(query, found.as_slice());
    assert(entries_read(*query, answer->Ok_0, entries_view(entries)));
    match entries {
        Ok((tables, indexes)) => Ok(inspect::inspect_schema(tables, indexes)),
        Err(e) => Err(e),
    }
}

// ---------------------------------------------------------------------------
// What a schema that was read says
// ---------------------------------------------------------------------------

/// The statements by which a store is read, written out.
pub proof fn lemma_survey_statements(name: Seq<char>)
    ensures
        tables_query()
            == "SELECT name FROM sqlite_schema WHERE type = 'table' AND substr(name, 1, 7) <> 'sqlite_' ORDER BY name"@,
        count_query(name) == "SELECT COUNT(*) FROM "@ + statement::quoted_identifier(name),
        inspect::pragma_on("table_info"@, name) == "PRAGMA table_info("@
            + statement::quoted_identifier(name) + ")"@,
        inspect::pragma_on("foreign_key_list"@, name) == "PRAGMA foreign_key_list("@
            + statement::quoted_identifier(name) + ")"@,
        inspect::pragma_on("index_list"@, name) == "PRAGMA index_list("@
            + statement::quoted_identifier(name) + ")"@,
        inspect::pragma_on("index_info"@, name) == "PRAGMA index_info("@
            + statement::quoted_identifier(name) + ")"@,
{
    reveal_strlit("PRAGMA ");
    reveal_strlit("(");
    reveal_strlit("table_info");
    reveal_strlit("foreign_key_list");
    reveal_strlit("index_list");
    reveal_strlit("index_info");
    reveal_strlit("PRAGMA table_info(");
    reveal_strlit("PRAGMA foreign_key_list(");
    reveal_strlit("PRAGMA index_list(");
    reveal_strlit("PRAGMA index_info(");
    assert("PRAGMA "@ + "table_info"@ + "("@ =~= "PRAGMA table_info("@);
    assert("PRAGMA "@ + "foreign_key_list"@ + "("@ =~= "PRAGMA foreign_key_list("@);
    assert("PRAGMA "@ + "index_list"@ + "("@ =~= "PRAGMA index_list("@);
    assert("PRAGMA "@ + "index_info"@ + "("@ =~= "PRAGMA index_info("@);
}

/// An index that was read has the name in the second cell of its row, stands on
/// the table that was asked for, is unique exactly where the third cell is not
/// 0, and has the columns that `PRAGMA index_info` lists. Where it could not be
/// read, a cell is of another kind or the statement failed.
pub proof fn lemma_index_is_told<Q: Fn(&str) -> Result<Rows, DactylError>>(
    query: Q,
    table: Seq<char>,
    row: RowView,
    outcome: Result<IndexView, ErrorView>,
)
    requires
        index_read(query, table, row, outcome),
    ensures
        outcome is Ok ==> {
            let index = outcome->Ok_0;
            &&& Some(index.name) == inspect::text_in(row, 1)
            &&& index.table == table
            &&& inspect::number_in(row, 2) is Some
            &&& index.unique <==> inspect::number_in(row, 2) != Some(0int)
            &&& exists|found: Seq<RowView>|
                {
                    &&& index.columns == #[trigger] inspect::indexed_columns(found)
                    &&& maintenance::answered(
                        query,
                        inspect::pragma_on("index_info"@, index.name),
                        Ok(found),
                    )
                }
        },
        outcome is Err ==> inspect::text_in(row, 1) is None || inspect::number_in(row, 2) is None
            || maintenance::answered(
            query,
            inspect::pragma_on("index_info"@, inspect::text_in(row, 1)->Some_0),
            Err(outcome->Err_0),
        ),
{
    inspect::lemma_catalog_cells(row, 1);
    inspect::lemma_catalog_cells(row, 2);
    if inspect::text_at(row, 1) is Ok && inspect::integer_at(row, 2) is Ok {
        let name = inspect::text_at(row, 1)->Ok_0;
        let unique = inspect::integer_at(row, 2)->Ok_0;
        let answer = choose|answer: Result<Seq<RowView>, ErrorView>| #[trigger]
            maintenance::answered(query, inspect::pragma_on("index_info"@, name), answer)
                && outcome == match answer {
                Err(e) => Err::<IndexView, ErrorView>(e),
                Ok(found) => Ok(
                    IndexView {
                        name,
                        table,
                        columns: inspect::indexed_columns(found),
                        unique: unique != 0,
                    },
                ),
            };
        if let Ok(found) = answer {
            assert(outcome->Ok_0.columns == inspect::indexed_columns(found));
        }
    }
}

/// The indexes of a table are the rows that list them, one for one and in
/// order, each read on its own. Where they could not be read, one of them could
/// not.
pub proof fn lemma_indexes_one_for_one<Q: Fn(&str) -> Result<Rows, DactylError>>(
    query: Q,
    table: Seq<char>,
    all: Seq<RowView>,
    outcome: Result<Seq<IndexView>, ErrorView>,
)
    requires
        indexes_read(query, table, all, outcome),
    ensures
        outcome is Ok ==> {
            &&& outcome->Ok_0.len() == all.len()
            &&& forall|k: int|
                0 <= k < all.len() ==> index_read(query, table, #[trigger] all[k], Ok(outcome->Ok_0[k]))
        },
        outcome is Err ==> exists|k: int|
            0 <= k < all.len() && index_read(query, table, #[trigger] all[k], Err(outcome->Err_0)),
    decreases all.len(),
{
    if all.len() > 0 {
        let front = all.drop_last();
        let head = choose|head: Result<Seq<IndexView>, ErrorView>|
            indexes_read(query, table, front, head) && #[trigger] next_index_read(
                query,
                table,
                all.last(),
                head,
                outcome,
            );
        lemma_indexes_one_for_one(query, table, front, head);
        assert forall|k: int| 0 <= k < front.len() implies #[trigger] front[k] == all[k] by {}
        if head is Ok {
            let one = choose|one: Result<IndexView, ErrorView>| #[trigger]
                index_read(query, table, all.last(), one) && outcome == match one {
                    Err(e) => Err::<Seq<IndexView>, ErrorView>(e),
                    Ok(index) => Ok(head->Ok_0.push(index)),
                };
            if one is Ok {
                assert forall|k: int| 0 <= k < all.len() implies index_read(
                    query,
                    table,
                    #[trigger] all[k],
                    Ok(outcome->Ok_0[k]),
                ) by {
                    if k < front.len() {
                        assert(index_read(query, table, front[k], Ok(head->Ok_0[k])));
                    }
                }
            } else {
                assert(index_read(query, table, all[all.len() - 1], Err(outcome->Err_0)));
            }
        } else {
            let k = choose|k: int|
                0 <= k < front.len() && index_read(
                    query,
                    table,
                    #[trigger] front[k],
                    Err(head->Err_0),
                );
            assert(index_read(query, table, all[k], Err(outcome->Err_0)));
        }
    }
}

/// A table that was read has the name that was asked for, the columns that
/// `PRAGMA table_info` describes, the foreign keys that `PRAGMA
/// foreign_key_list` lists and the number of rows that were counted; what is
/// unique comes from its unique indexes.
pub proof fn lemma_table_is_told<Q: Fn(&str) -> Result<Rows, DactylError>>(
    query: Q,
    name: Seq<char>,
    indexes: Seq<IndexView>,
    table: TableView,
)
    requires
        table_read(query, name, indexes, Ok(table)),
    ensures
        table.name == name,
        table.unique_constraints == inspect::unique_sets_of(indexes),
        exists|info: Seq<RowView>|
            #![trigger inspect::columns_of(info, inspect::unique_columns_of(indexes))]
            maintenance::answered(query, inspect::pragma_on("table_info"@, name), Ok(info))
                && inspect::columns_of(info, inspect::unique_columns_of(indexes)) == Ok::<
                Seq<ColumnView>,
                ErrorView,
            >(table.columns),
        exists|keys: Seq<RowView>|
            #![trigger inspect::foreign_keys_of(keys)]
            maintenance::answered(query, inspect::pragma_on("foreign_key_list"@, name), Ok(keys))
                && inspect::foreign_keys_of(keys) == Ok::<Seq<ForeignKeyView>, ErrorView>(
                table.foreign_keys,
            ),
        exists|count: Seq<RowView>|
            #![trigger inspect::counted(count)]
            maintenance::answered(query, count_query(name), Ok(count)) && inspect::counted(count)
                == Ok::<u64, ErrorView>(table.row_count),
{
    let (info, keys, count) = choose|
        info: Result<Seq<RowView>, ErrorView>,
        keys: Result<Seq<RowView>, ErrorView>,
        count: Result<Seq<RowView>, ErrorView>,
    |
        {
            &&& maintenance::answered(query, inspect::pragma_on("table_info"@, name), info)
            &&& columns_known(indexes, info) ==> maintenance::answered(
                query,
                inspect::pragma_on("foreign_key_list"@, name),
                keys,
            )
            &&& columns_known(indexes, info) && keys_known(keys) ==> maintenance::answered(
                query,
                count_query(name),
                count,
            )
            &&& Ok::<TableView, ErrorView>(table) == #[trigger] table_of(
                name,
                indexes,
                info,
                keys,
                count,
            )
        };
    assert(info is Ok && keys is Ok && count is Ok);
    let columns = inspect::columns_of(info->Ok_0, inspect::unique_columns_of(indexes));
    assert(columns == Ok::<Seq<ColumnView>, ErrorView>(table.columns));
    assert(inspect::foreign_keys_of(keys->Ok_0) == Ok::<Seq<ForeignKeyView>, ErrorView>(
        table.foreign_keys,
    ));
    assert(inspect::counted(count->Ok_0) == Ok::<u64, ErrorView>(table.row_count));
}

/// Where a table could not be read, one of the three statements about it
/// failed, or its answer could not be understood.
pub proof fn lemma_unread_table<Q: Fn(&str) -> Result<Rows, DactylError>>(
    query: Q,
    name: Seq<char>,
    indexes: Seq<IndexView>,
    e: ErrorView,
)
    requires
        table_read(query, name, indexes, Err(e)),
    ensures
        maintenance::answered(query, inspect::pragma_on("table_info"@, name), Err(e))
            || maintenance::answered(query, inspect::pragma_on("foreign_key_list"@, name), Err(e))
            || maintenance::answered(query, count_query(name), Err(e)) || (exists|
            info: Seq<RowView>,
        |
            #![trigger inspect::columns_of(info, inspect::unique_columns_of(indexes))]
            maintenance::answered(query, inspect::pragma_on("table_info"@, name), Ok(info))
                && inspect::columns_of(info, inspect::unique_columns_of(indexes)) == Err::<
                Seq<ColumnView>,
                ErrorView,
            >(e)) || (exists|keys: Seq<RowView>|
            #![trigger inspect::foreign_keys_of(keys)]
            maintenance::answered(query, inspect::pragma_on("foreign_key_list"@, name), Ok(keys))
                && inspect::foreign_keys_of(keys) == Err::<Seq<ForeignKeyView>, ErrorView>(e)) || (
        exists|count: Seq<RowView>|
            #![trigger inspect::counted(count)]
            maintenance::answered(query, count_query(name), Ok(count)) && inspect::counted(count)
                == Err::<u64, ErrorView>(e)),
{
    let (info, keys, count) = choose|
        info: Result<Seq<RowView>, ErrorView>,
        keys: Result<Seq<RowView>, ErrorView>,
        count: Result<Seq<RowView>, ErrorView>,
    |
        {
            &&& maintenance::answered(query, inspect::pragma_on("table_info"@, name), info)
            &&& columns_known(indexes, info) ==> maintenance::answered(
                query,
                inspect::pragma_on("foreign_key_list"@, name),
                keys,
            )
            &&& columns_known(indexes, info) && keys_known(keys) ==> maintenance::answered(
                query,
                count_query(name),
                count,
            )
            &&& Err::<TableView, ErrorView>(e) == #[trigger] table_of(
                name,
                indexes,
                info,
                keys,
                count,
            )
        };
    if info is Ok {
        let columns = inspect::columns_of(info->Ok_0, inspect::unique_columns_of(indexes));
        if columns is Ok && keys is Ok {
            let foreign_keys = inspect::foreign_keys_of(keys->Ok_0);
            if foreign_keys is Ok && count is Ok {
                let counted = inspect::counted(count->Ok_0);
            }
        }
    }
}

/// The indexes of several tables, one list behind the other.
pub open spec fn all_of(lists: Seq<Seq<IndexView>>) -> Seq<IndexView>
    decreases lists.len(),
{
    if lists.len() == 0 {
        Seq::empty()
    } else {
        all_of(lists.drop_last()) + lists.last()
    }
}

/// Whether a table and its indexes were read for a row that names it.
pub open spec fn told<Q: Fn(&str) -> Result<Rows, DactylError>>(
    query: Q,
    row: RowView,
    indexes: Seq<IndexView>,
    table: TableView,
) -> bool {
    &&& inspect::text_in(row, 0) == Some(table.name)
    &&& table_indexes_read(query, table.name, Ok(indexes))
    &&& table_read(query, table.name, indexes, Ok(table))
}

proof fn lemma_entry_is_told<Q: Fn(&str) -> Result<Rows, DactylError>>(
    query: Q,
    row: RowView,
    so_far: SurveyView,
    grown: SurveyView,
) -> (r: (Seq<IndexView>, TableView))
    requires
        entry_read(query, row, so_far, Ok(grown)),
    ensures
        told(query, row, r.0, r.1),
        grown.tables == so_far.tables.push(r.1),
        grown.indexes == so_far.indexes + r.0,
{
    inspect::lemma_catalog_cells(row, 0);
    let name = inspect::text_at(row, 0)->Ok_0;
    let indexes = choose|indexes: Result<Seq<IndexView>, ErrorView>| #[trigger]
        table_indexes_read(query, name, indexes) && match indexes {
            Err(e) => Ok::<SurveyView, ErrorView>(grown) == Err::<SurveyView, ErrorView>(e),
            Ok(indexes) => exists|table: Result<TableView, ErrorView>| #[trigger]
                table_read(query, name, indexes, table) && Ok::<SurveyView, ErrorView>(grown)
                    == match table {
                    Err(e) => Err::<SurveyView, ErrorView>(e),
                    Ok(table) => Ok(
                        SurveyView {
                            tables: so_far.tables.push(table),
                            indexes: so_far.indexes + indexes,
                        },
                    ),
                },
        };
    let list = indexes->Ok_0;
    let table = choose|table: Result<TableView, ErrorView>| #[trigger]
        table_read(query, name, list, table) && Ok::<SurveyView, ErrorView>(grown) == match table {
            Err(e) => Err::<SurveyView, ErrorView>(e),
            Ok(table) => Ok(
                SurveyView {
                    tables: so_far.tables.push(table),
                    indexes: so_far.indexes + list,
                },
            ),
        };
    lemma_table_is_told(query, name, list, table->Ok_0);
    (list, table->Ok_0)
}

proof fn lemma_entries_are_told<Q: Fn(&str) -> Result<Rows, DactylError>>(
    query: Q,
    all: Seq<RowView>,
    survey: SurveyView,
) -> (lists: Seq<Seq<IndexView>>)
    requires
        entries_read(query, all, Ok(survey)),
    ensures
        survey.tables.len() == all.len(),
        lists.len() == all.len(),
        forall|k: int|
            0 <= k < all.len() ==> told(query, #[trigger] all[k], lists[k], survey.tables[k]),
        survey.indexes == all_of(lists),
    decreases all.len(),
{
    if all.len() == 0 {
        Seq::empty()
    } else {
        let front = all.drop_last();
        let head = choose|head: Result<SurveyView, ErrorView>|
            entries_read(query, front, head) && #[trigger] next_entry_read(
                query,
                all.last(),
                head,
                Ok(survey),
            );
        let so_far = head->Ok_0;
        let lists = lemma_entries_are_told(query, front, so_far);
        let (list, table) = lemma_entry_is_told(query, all.last(), so_far, survey);
        let more = lists.push(list);
        assert(more.drop_last() =~= lists);
        assert forall|k: int| 0 <= k < all.len() implies told(
            query,
            #[trigger] all[k],
            more[k],
            survey.tables[k],
        ) by {
            if k < front.len() {
                assert(told(query, front[k], lists[k], so_far.tables[k]));
            }
        }
        more
    }
}

/// Whether a store was read as these rows list its tables, with these indexes.
pub open spec fn store_told<Q: Fn(&str) -> Result<Rows, DactylError>>(
    query: Q,
    all: Seq<RowView>,
    lists: Seq<Seq<IndexView>>,
    store: StoreView,
) -> bool {
    &&& store.tables.len() == all.len()
    &&& lists.len() == all.len()
    &&& forall|k: int|
        0 <= k < all.len() ==> told(query, #[trigger] all[k], lists[k], store.tables[k])
    &&& store.indexes.to_multiset() == all_of(lists).to_multiset()
    &&& inspect::indexes_in_order(store.indexes)
}

/// A store that was read has the tables that the catalog lists, one for one and
/// in that order, each with what was read of it, and the indexes of all of them
/// in order of name: none is lost and none is added. The version of the
/// description is 1.
pub proof fn lemma_store_is_told<Q: Fn(&str) -> Result<Rows, DactylError>>(
    query: Q,
    store: StoreView,
)
    requires
        store_read(query, Ok(store)),
    ensures
        store.format_version == 1,
        exists|all: Seq<RowView>, lists: Seq<Seq<IndexView>>|
            maintenance::answered(query, tables_query(), Ok(all)) && #[trigger] store_told(
                query,
                all,
                lists,
                store,
            ),
{
    let answer = choose|answer: Result<Seq<RowView>, ErrorView>| #[trigger]
        maintenance::answered(query, tables_query(), answer) && match answer {
            Err(e) => Ok::<StoreView, ErrorView>(store) == Err::<StoreView, ErrorView>(e),
            Ok(found) => exists|survey: Result<SurveyView, ErrorView>| #[trigger]
                entries_read(query, found, survey) && Ok::<StoreView, ErrorView>(store)
                    == match survey {
                    Err(e) => Err::<StoreView, ErrorView>(e),
                    Ok(survey) => Ok(
                        StoreView {
                            format_version: inspect::SCHEMA_DESCRIPTION_VERSION,
                            tables: survey.tables,
                            indexes: inspect::indexes_sorted(survey.indexes),
                        },
                    ),
                },
        };
    let all = answer->Ok_0;
    let survey = choose|survey: Result<SurveyView, ErrorView>| #[trigger]
        entries_read(query, all, survey) && Ok::<StoreView, ErrorView>(store) == match survey {
            Err(e) => Err::<StoreView, ErrorView>(e),
            Ok(survey) => Ok(
                StoreView {
                    format_version: inspect::SCHEMA_DESCRIPTION_VERSION,
                    tables: survey.tables,
                    indexes: inspect::indexes_sorted(survey.indexes),
                },
            ),
        };
    let lists = lemma_entries_are_told(query, all, survey->Ok_0);
    inspect::lemma_indexes_sorted(survey->Ok_0.indexes);
    assert(store_told(query, all, lists, store));
}

/// The indexes of a table are those that `PRAGMA index_list` lists, in order of
/// name: none is lost and none is added. Where they could not be read, the
/// statement failed or one of them could not be read.
pub proof fn lemma_table_indexes_are_told<Q: Fn(&str) -> Result<Rows, DactylError>>(
    query: Q,
    table: Seq<char>,
    outcome: Result<Seq<IndexView>, ErrorView>,
)
    requires
        table_indexes_read(query, table, outcome),
    ensures
        outcome is Ok ==> inspect::indexes_in_order(outcome->Ok_0) && exists|
            found: Seq<RowView>,
            list: Seq<IndexView>,
        |
            maintenance::answered(query, inspect::pragma_on("index_list"@, table), Ok(found))
                && #[trigger] indexes_read(query, table, found, Ok(list))
                && outcome->Ok_0.to_multiset() == list.to_multiset(),
        outcome is Err ==> maintenance::answered(
            query,
            inspect::pragma_on("index_list"@, table),
            Err(outcome->Err_0),
        ) || exists|found: Seq<RowView>|
            maintenance::answered(query, inspect::pragma_on("index_list"@, table), Ok(found))
                && #[trigger] indexes_read(query, table, found, Err(outcome->Err_0)),
{
    let answer = choose|answer: Result<Seq<RowView>, ErrorView>| #[trigger]
        maintenance::answered(query, inspect::pragma_on("index_list"@, table), answer)
            && match answer {
            Err(e) => outcome == Err::<Seq<IndexView>, ErrorView>(e),
            Ok(found) => exists|list: Result<Seq<IndexView>, ErrorView>| #[trigger]
                indexes_read(query, table, found, list) && outcome == match list {
                    Err(e) => Err::<Seq<IndexView>, ErrorView>(e),
                    Ok(list) => Ok(inspect::indexes_sorted(list)),
                },
        };
    if let Ok(found) = answer {
        let list = choose|list: Result<Seq<IndexView>, ErrorView>| #[trigger]
            indexes_read(query, table, found, list) && outcome == match list {
                Err(e) => Err::<Seq<IndexView>, ErrorView>(e),
                Ok(list) => Ok(inspect::indexes_sorted(list)),
            };
        if list is Ok {
            inspect::lemma_indexes_sorted(list->Ok_0);
            assert(indexes_read(query, table, found, Ok(list->Ok_0)));
        } else {
            assert(indexes_read(query, table, found, Err(outcome->Err_0)));
        }
    }
}

/// Whether a row that should name a table kept the store from being read.
pub open spec fn untold<Q: Fn(&str) -> Result<Rows, DactylError>>(
    query: Q,
    row: RowView,
    e: ErrorView,
) -> bool {
    match inspect::text_in(row, 0) {
        None => true,
        Some(name) => table_indexes_read(query, name, Err(e)) || exists|indexes: Seq<IndexView>|
            table_indexes_read(query, name, Ok(indexes)) && #[trigger] table_read(
                query,
                name,
                indexes,
                Err(e),
            ),
    }
}

proof fn lemma_entry_is_untold<Q: Fn(&str) -> Result<Rows, DactylError>>(
    query: Q,
    row: RowView,
    so_far: SurveyView,
    e: ErrorView,
)
    requires
        entry_read(query, row, so_far, Err(e)),
    ensures
        untold(query, row, e),
{
    inspect::lemma_catalog_cells(row, 0);
    if inspect::text_at(row, 0) is Ok {
        let name = inspect::text_at(row, 0)->Ok_0;
        let outcome = Err::<SurveyView, ErrorView>(e);
        let indexes = choose|indexes: Result<Seq<IndexView>, ErrorView>| #[trigger]
            table_indexes_read(query, name, indexes) && match indexes {
                Err(e) => outcome == Err::<SurveyView, ErrorView>(e),
                Ok(indexes) => exists|table: Result<TableView, ErrorView>| #[trigger]
                    table_read(query, name, indexes, table) && outcome == match table {
                        Err(e) => Err::<SurveyView, ErrorView>(e),
                        Ok(table) => Ok(
                            SurveyView {
                                tables: so_far.tables.push(table),
                                indexes: so_far.indexes + indexes,
                            },
                        ),
                    },
            };
        if let Ok(list) = indexes {
            let table = choose|table: Result<TableView, ErrorView>| #[trigger]
                table_read(query, name, list, table) && outcome == match table {
                    Err(e) => Err::<SurveyView, ErrorView>(e),
                    Ok(table) => Ok(
                        SurveyView {
                            tables: so_far.tables.push(table),
                            indexes: so_far.indexes + list,
                        },
                    ),
                };
            assert(table_indexes_read(query, name, Ok(list)));
            assert(table_read(query, name, list, Err(e)));
        }
    }
}

proof fn lemma_entries_are_untold<Q: Fn(&str) -> Result<Rows, DactylError>>(
    query: Q,
    all: Seq<RowView>,
    e: ErrorView,
)
    requires
        entries_read(query, all, Err(e)),
    ensures
        exists|k: int| 0 <= k < all.len() && untold(query, #[trigger] all[k], e),
    decreases all.len(),
{
    let front = all.drop_last();
    let head = choose|head: Result<SurveyView, ErrorView>|
        entries_read(query, front, head) && #[trigger] next_entry_read(
            query,
            all.last(),
            head,
            Err(e),
        );
    if head is Ok {
        lemma_entry_is_untold(query, all.last(), head->Ok_0, e);
        assert(untold(query, all[all.len() - 1], e));
    } else {
        lemma_entries_are_untold(query, front, e);
        let k = choose|k: int| 0 <= k < front.len() && untold(query, #[trigger] front[k], e);
        assert(untold(query, all[k], e));
    }
}

/// Where a store could not be read, the statement that lists its tables failed,
/// or one of the tables it lists could not be read.
pub proof fn lemma_unread_store<Q: Fn(&str) -> Result<Rows, DactylError>>(query: Q, e: ErrorView)
    requires
        store_read(query, Err(e)),
    ensures
        maintenance::answered(query, tables_query(), Err(e)) || exists|all: Seq<RowView>, k: int|
            maintenance::answered(query, tables_query(), Ok(all)) && 0 <= k < all.len() && untold(
                query,
                #[trigger] all[k],
                e,
            ),
{
    let outcome = Err::<StoreView, ErrorView>(e);
    let answer = choose|answer: Result<Seq<RowView>, ErrorView>| #[trigger]
        maintenance::answered(query, tables_query(), answer) && match answer {
            Err(e) => outcome == Err::<StoreView, ErrorView>(e),
            Ok(found) => exists|survey: Result<SurveyView, ErrorView>| #[trigger]
                entries_read(query, found, survey) && outcome == match survey {
                    Err(e) => Err::<StoreView, ErrorView>(e),
                    Ok(survey) => Ok(
                        StoreView {
                            format_version: inspect::SCHEMA_DESCRIPTION_VERSION,
                            tables: survey.tables,
                            indexes: inspect::indexes_sorted(survey.indexes),
                        },
                    ),
                },
        };
    if let Ok(all) = answer {
        let survey = choose|survey: Result<SurveyView, ErrorView>| #[trigger]
            entries_read(query, all, survey) && outcome == match survey {
                Err(e) => Err::<StoreView, ErrorView>(e),
                Ok(survey) => Ok(
                    StoreView {
                        format_version: inspect::SCHEMA_DESCRIPTION_VERSION,
                        tables: survey.tables,
                        indexes: inspect::indexes_sorted(survey.indexes),
                    },
                ),
            };
        assert(entries_read(query, all, Err(e)));
        lemma_entries_are_untold(query, all, e);
    }
}

} // verus!
