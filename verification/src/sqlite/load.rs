//! Loading the rows of a SQLite table into a snapshot table.

use vstd::prelude::*;

use crate::error::{DactylError, ErrorView};
use crate::schema::{ColumnSchema, ColumnView};
use crate::sqlite::keywords;
use crate::sqlite::reader;
use crate::sqlite::reader::TableRow;
use crate::text;
use crate::value::{Number, Value, ValueView};

verus! {

/// A snapshot table that rows are loaded into.
pub struct ImportTable {
    pub columns: Vec<ColumnSchema>,
    pub rows: Vec<Vec<Value>>,
    /// The key that the next generated row gets.
    pub next_id: i64,
}

/// What an [`ImportTable`] says.
#[verifier::ext_equal]
pub ghost struct LoadView {
    pub columns: Seq<ColumnView>,
    pub rows: Seq<Seq<ValueView>>,
    pub next_id: i64,
}

impl ImportTable {
    pub open spec fn view(self) -> LoadView {
        LoadView {
            columns: self.columns@.map_values(|c: ColumnSchema| c@),
            rows: self.rows@.map_values(|row: Vec<Value>| crate::value::value_views(row@)),
            next_id: self.next_id,
        }
    }
}

/// The first primary key column of this name.
pub open spec fn rowid_position(columns: Seq<ColumnView>, name: Option<Seq<char>>) -> Option<int>
    decreases columns.len(),
{
    if columns.len() == 0 {
        None
    } else if columns[0].primary_key && name == Some(columns[0].name) {
        Some(0)
    } else {
        match rowid_position(columns.drop_first(), name) {
            Some(i) => Some(i + 1),
            None => None,
        }
    }
}

/// The first primary key column.
pub open spec fn key_position(columns: Seq<ColumnView>) -> Option<int>
    decreases columns.len(),
{
    if columns.len() == 0 {
        None
    } else if columns[0].primary_key {
        Some(0)
    } else {
        match key_position(columns.drop_first()) {
            Some(i) => Some(i + 1),
            None => None,
        }
    }
}

/// The error for a row whose width is not the table's.
pub open spec fn width_mismatch(table: Seq<char>) -> ErrorView {
    keywords::unsupported_schema("row width mismatch for "@ + table)
}

/// The row id as a cell.
pub open spec fn rowid_cell(rowid: int) -> ValueView {
    ValueView::Number(Number::of_int(rowid as i64))
}

/// A row of a SQLite table as the snapshot table holds it. SQLite keeps an
/// integer primary key in the row id and stores NULL, or nothing, in its
/// place: the row id is put there.
pub open spec fn aligned(
    columns: Seq<ColumnView>,
    rowid_column: Option<Seq<char>>,
    table: Seq<char>,
    row: TableRow,
) -> Result<Seq<ValueView>, ErrorView> {
    let at = rowid_position(columns, rowid_column);
    let values = if row.values.len() + 1 == columns.len() && at is Some {
        row.values.insert(at->Some_0, rowid_cell(row.rowid))
    } else if at is Some && at->Some_0 < row.values.len() && row.values[at->Some_0] is Null {
        row.values.update(at->Some_0, rowid_cell(row.rowid))
    } else {
        row.values
    };
    if values.len() == columns.len() {
        Ok(values)
    } else {
        Err(width_mismatch(table))
    }
}

/// The next generated key once a row with this key is in the table.
pub open spec fn bumped(next_id: i64, key: i64) -> i64 {
    let after = if key == i64::MAX {
        i64::MAX
    } else {
        (key + 1) as i64
    };
    if next_id < after {
        after
    } else {
        next_id
    }
}

/// A table with one more row.
pub open spec fn with_row(t: LoadView, values: Seq<ValueView>) -> LoadView {
    LoadView {
        columns: t.columns,
        rows: t.rows.push(values),
        next_id: match key_position(t.columns) {
            Some(i) => match values[i] {
                ValueView::Number(n) => match n.integer() {
                    Some(key) => bumped(t.next_id, key),
                    None => t.next_id,
                },
                _ => t.next_id,
            },
            None => t.next_id,
        },
    }
}

/// A table once the first `n` rows, all of which fit, have been loaded.
pub open spec fn loaded(
    t: LoadView,
    rowid_column: Option<Seq<char>>,
    table: Seq<char>,
    rows: Seq<TableRow>,
    n: int,
) -> LoadView
    decreases n,
{
    if n <= 0 {
        t
    } else {
        with_row(
            loaded(t, rowid_column, table, rows, n - 1),
            aligned(t.columns, rowid_column, table, rows[n - 1])->Ok_0,
        )
    }
}

/// Loading keeps the columns, adds one row after the other, and never lowers
/// the next generated key.
pub proof fn lemma_loaded(
    t: LoadView,
    rowid_column: Option<Seq<char>>,
    table: Seq<char>,
    rows: Seq<TableRow>,
    n: int,
)
    requires
        0 <= n <= rows.len(),
    ensures
        ({
            let after = loaded(t, rowid_column, table, rows, n);
            &&& after.columns == t.columns
            &&& after.rows.len() == t.rows.len() + n
            &&& after.rows.take(t.rows.len() as int) == t.rows
            &&& forall|i: int|
                0 <= i < n ==> #[trigger] after.rows[t.rows.len() + i] == aligned(
                    t.columns,
                    rowid_column,
                    table,
                    rows[i],
                )->Ok_0
            &&& after.next_id >= t.next_id
        }),
    decreases n,
{
    if n > 0 {
        lemma_loaded(t, rowid_column, table, rows, n - 1);
        let before = loaded(t, rowid_column, table, rows, n - 1);
        let after = loaded(t, rowid_column, table, rows, n);
        assert(after.rows.take(t.rows.len() as int) =~= before.rows.take(t.rows.len() as int));
    } else {
        assert(t.rows.take(t.rows.len() as int) =~= t.rows);
    }
}

fn find_rowid(columns: &Vec<ColumnSchema>, name: Option<&str>) -> (r: Option<usize>)
    ensures
        match rowid_position(
            columns@.map_values(|c: ColumnSchema| c@),
            crate::route::str_option(name),
        ) {
            Some(i) => r is Some && r->Some_0 == i && i < columns@.len(),
            None => r is None,
        },
{
    let ghost all = columns@.map_values(|c: ColumnSchema| c@);
    let ghost wanted = crate::route::str_option(name);
    let mut i: usize = 0;
    assert(all.skip(0) =~= all);
    while i < columns.len()
        invariant
            i <= columns@.len(),
            all == columns@.map_values(|c: ColumnSchema| c@),
            wanted == crate::route::str_option(name),
            rowid_position(all, wanted) == match rowid_position(all.skip(i as int), wanted) {
                Some(k) => Some(k + i),
                None => None,
            },
        decreases columns@.len() - i,
    {
        assert(all.skip(i as int)[0] == columns@[i as int]@);
        assert(all.skip(i as int).drop_first() =~= all.skip(i + 1));
        if columns[i].primary_key {
            if let Some(name) = name {
                if text::str_eq(columns[i].name.as_str(), name) {
                    return Some(i);
                }
            }
        }
        i = i + 1;
    }
    None
}

fn find_key(columns: &Vec<ColumnSchema>) -> (r: Option<usize>)
    ensures
        match key_position(columns@.map_values(|c: ColumnSchema| c@)) {
            Some(i) => r is Some && r->Some_0 == i && i < columns@.len(),
            None => r is None,
        },
{
    let ghost all = columns@.map_values(|c: ColumnSchema| c@);
    let mut i: usize = 0;
    assert(all.skip(0) =~= all);
    while i < columns.len()
        invariant
            i <= columns@.len(),
            all == columns@.map_values(|c: ColumnSchema| c@),
            key_position(all) == match key_position(all.skip(i as int)) {
                Some(k) => Some(k + i),
                None => None,
            },
        decreases columns@.len() - i,
    {
        assert(all.skip(i as int)[0] == columns@[i as int]@);
        assert(all.skip(i as int).drop_first() =~= all.skip(i + 1));
        if columns[i].primary_key {
            return Some(i);
        }
        i = i + 1;
    }
    None
}

/// A row of a SQLite table as the snapshot table holds it.
pub fn align_row(
    columns: &Vec<ColumnSchema>,
    rowid_column: Option<&str>,
    table: &str,
    rowid: i64,
    values: Vec<Value>,
) -> (r: Result<Vec<Value>, DactylError>)
    ensures
        match aligned(
            columns@.map_values(|c: ColumnSchema| c@),
            crate::route::str_option(rowid_column),
            table@,
            (TableRow { rowid: rowid as int, values: crate::value::value_views(values@) }),
        ) {
            Ok(v) => r is Ok && crate::value::value_views(r->Ok_0@) == v,
            Err(e) => r is Err && r->Err_0@ == e,
        },
{
    let mut values: Vec<Value> = values;
    let ghost before = crate::value::value_views(values@);
    let cell: Value = Value::Number(Number::from_i64(rowid));
    if let Some(i) = find_rowid(columns, rowid_column) {
        if columns.len() - 1 == values.len() {
            values.insert(i, cell);
            assert(crate::value::value_views(values@) =~= before.insert(i as int, cell@));
        } else if i < values.len() {
            assert(before[i as int] == values@[i as int]@);
            if values[i].is_null() {
                values.set(i, cell);
                assert(crate::value::value_views(values@) =~= before.update(i as int, cell@));
            }
        }
    }
    if values.len() != columns.len() {
        return Err(
            keywords::unsupported("row width mismatch for ".to_string().concat(table).as_str()),
        );
    }
    Ok(values)
}

impl ImportTable {
    /// Add a row that fits.
    pub fn push_row(&mut self, values: Vec<Value>)
        requires
            values@.len() == old(self).columns@.len(),
        ensures
            final(self)@ == with_row(old(self)@, crate::value::value_views(values@)),
            final(self).columns == old(self).columns,
    {
        let ghost before = self@;
        if let Some(i) = find_key(&self.columns) {
            assert(crate::value::value_views(values@)[i as int] == values@[i as int]@);
            if let Value::Number(n) = &values[i] {
                if let Some(key) = n.as_i64() {
                    let after: i64 = if key == i64::MAX {
                        i64::MAX
                    } else {
                        key + 1
                    };
                    if self.next_id < after {
                        self.next_id = after;
                    }
                }
            }
        }
        let ghost added = crate::value::value_views(values@);
        self.rows.push(values);
        assert(self@.rows =~= before.rows.push(added));
    }
}

/// Whether `validate` let a row pass into a table that holds the rows before
/// it.
pub open spec fn let_pass<F: Fn(&ImportTable, &Vec<Value>) -> Result<(), DactylError>>(
    validate: F,
    before: LoadView,
    values: Seq<ValueView>,
) -> bool {
    exists|t: &ImportTable, v: &Vec<Value>, answer: Result<(), DactylError>|
        t@ == before && crate::value::value_views(v@) == values && answer is Ok
            && #[trigger] call_ensures(validate, (t, v), answer)
}

/// Load rows into a table, one after the other, until one does not fit or the
/// engine's `validate` refuses it. The rows before it stay.
pub fn import_table_rows<F: Fn(&ImportTable, &Vec<Value>) -> Result<(), DactylError>>(
    table: &mut ImportTable,
    name: &str,
    rows: Vec<(i64, Vec<Value>)>,
    rowid_column: Option<&str>,
    validate: F,
) -> (r: Result<(), DactylError>)
    requires
        forall|t: &ImportTable, v: &Vec<Value>| #[trigger] call_requires(validate, (t, v)),
    ensures
        ({
            let was = old(table)@;
            let all = reader::table_row_views(rows@);
            let column = crate::route::str_option(rowid_column);
            match r {
                Ok(()) => {
                    &&& final(table)@ == loaded(was, column, name@, all, all.len() as int)
                    &&& forall|i: int|
                        0 <= i < all.len() ==> aligned(
                            was.columns,
                            column,
                            name@,
                            #[trigger] all[i],
                        ) is Ok && let_pass(
                            validate,
                            loaded(was, column, name@, all, i),
                            aligned(was.columns, column, name@, all[i])->Ok_0,
                        )
                },
                Err(error) => exists|n: int|
                    #![trigger all[n]]
                    {
                        &&& 0 <= n < all.len()
                        &&& final(table)@ == loaded(was, column, name@, all, n)
                        &&& forall|i: int|
                            0 <= i < n ==> aligned(
                                was.columns,
                                column,
                                name@,
                                #[trigger] all[i],
                            ) is Ok && let_pass(
                                validate,
                                loaded(was, column, name@, all, i),
                                aligned(was.columns, column, name@, all[i])->Ok_0,
                            )
                        &&& match aligned(was.columns, column, name@, all[n]) {
                            Err(e) => error@ == e,
                            Ok(values) => exists|v: &Vec<Value>|
                                crate::value::value_views(v@) == values
                                    && #[trigger] call_ensures(
                                    validate,
                                    (&*final(table), v),
                                    Err(error),
                                ),
                        }
                    },
            }
        }),
{
    let ghost was = table@;
    let ghost all = reader::table_row_views(rows@);
    let ghost column = crate::route::str_option(rowid_column);
    for row in it: rows
        invariant
            it.seq() == rows@,
            was == old(table)@,
            all == reader::table_row_views(rows@),
            column == crate::route::str_option(rowid_column),
            table@ == loaded(was, column, name@, all, it.index() as int),
            forall|i: int|
                0 <= i < it.index() ==> aligned(
                    was.columns,
                    column,
                    name@,
                    #[trigger] all[i],
                ) is Ok && let_pass(
                    validate,
                    loaded(was, column, name@, all, i),
                    aligned(was.columns, column, name@, all[i])->Ok_0,
                ),
            forall|t: &ImportTable, v: &Vec<Value>| #[trigger] call_requires(validate, (t, v)),
    {
        let ghost n = it.index() as int;
        proof {
            lemma_loaded(was, column, name@, all, n);
            assert(all[n] == reader::table_row(row));
        }
        let (rowid, values) = row;
        match align_row(&table.columns, rowid_column, name, rowid, values) {
            Err(e) => {
                return Err(e);
            },
            Ok(values) => {
                let answer = validate(&*table, &values);
                assert(call_ensures(validate, (&*table, &values), answer));
                match answer {
                    Err(e) => {
                        return Err(e);
                    },
                    Ok(()) => {
                        assert(let_pass(
                            validate,
                            loaded(was, column, name@, all, n),
                            aligned(was.columns, column, name@, all[n])->Ok_0,
                        ));
                    },
                }
                table.push_row(values);
            },
        }
    }
    Ok(())
}

// ---------------------------------------------------------------------------
// What loading is for
// ---------------------------------------------------------------------------

/// The column that a row id stands for is the first primary key column of that
/// name.
pub proof fn lemma_rowid_position(columns: Seq<ColumnView>, name: Option<Seq<char>>)
    ensures
        match rowid_position(columns, name) {
            Some(i) => {
                &&& 0 <= i < columns.len()
                &&& columns[i].primary_key && name == Some(columns[i].name)
                &&& forall|k: int|
                    0 <= k < i ==> !((#[trigger] columns[k]).primary_key && name == Some(
                        columns[k].name,
                    ))
            },
            None => forall|k: int|
                0 <= k < columns.len() ==> !((#[trigger] columns[k]).primary_key && name == Some(
                    columns[k].name,
                )),
        },
    decreases columns.len(),
{
    if columns.len() > 0 && !(columns[0].primary_key && name == Some(columns[0].name)) {
        let rest = columns.drop_first();
        lemma_rowid_position(rest, name);
        match rowid_position(rest, name) {
            Some(i) => {
                assert forall|k: int| 0 <= k < i + 1 implies !((#[trigger] columns[k]).primary_key
                    && name == Some(columns[k].name)) by {
                    if k > 0 {
                        assert(rest[k - 1] == columns[k]);
                    }
                }
            },
            None => {
                assert forall|k: int| 0 <= k < columns.len() implies !((
                #[trigger] columns[k]).primary_key && name == Some(columns[k].name)) by {
                    if k > 0 {
                        assert(rest[k - 1] == columns[k]);
                    }
                }
            },
        }
    }
}

/// The key of a table is its first primary key column.
pub proof fn lemma_key_position(columns: Seq<ColumnView>)
    ensures
        match key_position(columns) {
            Some(i) => 0 <= i < columns.len() && columns[i].primary_key && forall|k: int|
                0 <= k < i ==> !(#[trigger] columns[k]).primary_key,
            None => forall|k: int| 0 <= k < columns.len() ==> !(#[trigger] columns[k]).primary_key,
        },
    decreases columns.len(),
{
    if columns.len() > 0 && !columns[0].primary_key {
        let rest = columns.drop_first();
        lemma_key_position(rest);
        match key_position(rest) {
            Some(i) => {
                assert forall|k: int| 0 <= k < i + 1 implies !(
                #[trigger] columns[k]).primary_key by {
                    if k > 0 {
                        assert(rest[k - 1] == columns[k]);
                    }
                }
            },
            None => {
                assert forall|k: int| 0 <= k < columns.len() implies !(
                #[trigger] columns[k]).primary_key by {
                    if k > 0 {
                        assert(rest[k - 1] == columns[k]);
                    }
                }
            },
        }
    }
}

/// How a stored row becomes a row of the snapshot. As wide as the table, it
/// stays cell for cell, but that a null in the row id's column becomes the row
/// id. One cell short, it gets the row id in that column, and the cells behind
/// move up. A row of any other width is refused.
pub proof fn lemma_rows_are_aligned(
    columns: Seq<ColumnView>,
    rowid_column: Option<Seq<char>>,
    table: Seq<char>,
    row: TableRow,
)
    ensures
        ({
            let at = rowid_position(columns, rowid_column);
            let r = aligned(columns, rowid_column, table, row);
            let key = ValueView::Number(
                if row.rowid as i64 >= 0 {
                    Number::PosInt(row.rowid as i64 as u64)
                } else {
                    Number::NegInt(row.rowid as i64)
                },
            );
            &&& r is Ok <==> (row.values.len() == columns.len() || (row.values.len() + 1
                == columns.len() && at is Some))
            &&& r is Ok ==> r->Ok_0.len() == columns.len()
            &&& row.values.len() == columns.len() ==> forall|i: int|
                0 <= i < columns.len() ==> #[trigger] r->Ok_0[i] == if at == Some(i)
                    && row.values[i] is Null {
                    key
                } else {
                    row.values[i]
                }
            &&& row.values.len() + 1 == columns.len() && at is Some ==> {
                &&& r->Ok_0[at->Some_0] == key
                &&& forall|i: int|
                    0 <= i < at->Some_0 ==> #[trigger] r->Ok_0[i] == row.values[i]
                &&& forall|i: int|
                    at->Some_0 < i < columns.len() ==> #[trigger] r->Ok_0[i] == row.values[i - 1]
            }
            &&& r is Err ==> r->Err_0.code() == Some("unsupported_schema"@)
        }),
{
    lemma_rowid_position(columns, rowid_column);
}

/// The next key lies behind every key in the table, and never moves back; it
/// stops at the largest key there is.
pub proof fn lemma_next_key(t: LoadView, values: Seq<ValueView>, i: int, key: i64)
    requires
        key_position(t.columns) == Some(i),
        values[i] is Number && values[i]->Number_0.integer() == Some(key),
    ensures
        ({
            let after = with_row(t, values);
            &&& after.next_id >= t.next_id
            &&& key < i64::MAX ==> after.next_id > key
            &&& key == i64::MAX ==> after.next_id == i64::MAX
            &&& after.next_id == t.next_id || (key < i64::MAX && after.next_id == key + 1) || key
                == i64::MAX
            &&& after.rows == t.rows.push(values)
            &&& after.columns == t.columns
        }),
{
}

/// A row without an integer key leaves the next key as it is.
pub proof fn lemma_next_key_is_kept(t: LoadView, values: Seq<ValueView>)
    requires
        match key_position(t.columns) {
            Some(i) => !(values[i] is Number && values[i]->Number_0.integer() is Some),
            None => true,
        },
    ensures
        with_row(t, values).next_id == t.next_id,
        with_row(t, values).rows == t.rows.push(values),
{
}

} // verus!
