//! The portable schema that SQLite's catalog rows describe.

use vstd::prelude::*;

use crate::error::{AdapterErrorKind, DactylError, ErrorView};
use crate::rows;
use crate::rows::{Row, RowView};
use crate::schema::{
    ColumnSchema, ColumnView, ForeignKeyAction, ForeignKeySchema, ForeignKeyView, IndexSchema,
    IndexView, StoreSchema, TableSchema,
};
use crate::text;
use crate::value::{Value, ValueView};

verus! {

/// The version of the schema description.
pub const SCHEMA_DESCRIPTION_VERSION: u32 = 1;

/// The query for the tables of the application.
pub fn tables_sql() -> (r: &'static str)
    ensures
        r@ == "SELECT name FROM sqlite_schema WHERE type = 'table' AND substr(name, 1, 7) <> 'sqlite_' ORDER BY name"@,
{
    "SELECT name FROM sqlite_schema WHERE type = 'table' AND substr(name, 1, 7) <> 'sqlite_' ORDER BY name"
}

/// A pragma on a quoted name.
pub open spec fn pragma_on(pragma: Seq<char>, name: Seq<char>) -> Seq<char> {
    "PRAGMA "@ + pragma + "("@ + crate::sqlite::statement::quoted_identifier(name) + ")"@
}

/// A pragma on a quoted name.
pub fn pragma_sql(pragma: &str, name: &str) -> (r: String)
    ensures
        r@ == pragma_on(pragma@, name@),
{
    "PRAGMA ".to_string().concat(pragma).concat("(").concat(
        crate::sqlite::statement::quote_identifier(name).as_str(),
    ).concat(")")
}

/// The query for the number of rows of a table.
pub fn count_sql(name: &str) -> (r: String)
    ensures
        r@ == "SELECT COUNT(*) FROM "@ + crate::sqlite::statement::quoted_identifier(name@),
{
    "SELECT COUNT(*) FROM ".to_string().concat(
        crate::sqlite::statement::quote_identifier(name).as_str(),
    )
}

// ---------------------------------------------------------------------------
// Catalog cells
// ---------------------------------------------------------------------------

/// The error for a catalog cell that is no text.
pub open spec fn not_text() -> ErrorView {
    crate::error::plain(AdapterErrorKind::Value, "SQLite catalog returned a non-text value"@)
}

/// The error for a catalog cell that is no integer.
pub open spec fn not_integer() -> ErrorView {
    crate::error::plain(AdapterErrorKind::Value, "SQLite catalog returned a non-integer value"@)
}

/// The text of a catalog cell, if it is one.
pub open spec fn optional_text(row: RowView, i: int) -> Option<Seq<char>> {
    if 0 <= i < row.values.len() {
        match row.values[i] {
            ValueView::Text(s) => Some(s),
            _ => None,
        }
    } else {
        None
    }
}

/// The text of a catalog cell.
pub open spec fn text_at(row: RowView, i: int) -> Result<Seq<char>, ErrorView> {
    match optional_text(row, i) {
        Some(s) => Ok(s),
        None => Err(not_text()),
    }
}

/// The integer of a catalog cell.
pub open spec fn integer_at(row: RowView, i: int) -> Result<i64, ErrorView> {
    if 0 <= i < row.values.len() {
        match row.values[i] {
            ValueView::Number(n) => match n.integer() {
                Some(v) => Ok(v),
                None => Err(not_integer()),
            },
            _ => Err(not_integer()),
        }
    } else {
        Err(not_integer())
    }
}

fn cell_text(row: &Row, index: usize) -> (r: Option<String>)
    ensures
        crate::error::text_option(r) == optional_text(row@, index as int),
{
    if index >= row.values.len() {
        return None;
    }
    assert(row@.values[index as int] == row.values@[index as int]@);
    match &row.values[index] {
        Value::Text(s) => Some(s.clone()),
        _ => None,
    }
}

/// The text of a catalog cell.
pub fn row_string(row: &Row, index: usize) -> (r: Result<String, DactylError>)
    ensures
        match text_at(row@, index as int) {
            Ok(s) => r is Ok && r->Ok_0@ == s,
            Err(e) => r is Err && r->Err_0@ == e,
        },
{
    match cell_text(row, index) {
        Some(s) => Ok(s),
        None => Err(
            DactylError::adapter(
                AdapterErrorKind::Value,
                "SQLite catalog returned a non-text value",
            ),
        ),
    }
}

fn integer_error() -> (r: DactylError)
    ensures
        r@ == not_integer(),
{
    DactylError::adapter(AdapterErrorKind::Value, "SQLite catalog returned a non-integer value")
}

/// The integer of a catalog cell.
pub fn row_i64(row: &Row, index: usize) -> (r: Result<i64, DactylError>)
    ensures
        match integer_at(row@, index as int) {
            Ok(v) => r is Ok && r->Ok_0 == v,
            Err(e) => r is Err && r->Err_0@ == e,
        },
{
    if index >= row.values.len() {
        return Err(integer_error());
    }
    assert(row@.values[index as int] == row.values@[index as int]@);
    match &row.values[index] {
        Value::Number(n) => match n.as_i64() {
            Some(v) => Ok(v),
            None => Err(integer_error()),
        },
        _ => Err(integer_error()),
    }
}

/// The texts of one column of catalog rows; the first cell that is none is
/// reported.
pub open spec fn texts_at(all: Seq<RowView>, i: int) -> Result<Seq<Seq<char>>, ErrorView>
    decreases all.len(),
{
    if all.len() == 0 {
        Ok(Seq::empty())
    } else {
        match text_at(all[0], i) {
            Err(e) => Err(e),
            Ok(s) => match texts_at(all.drop_first(), i) {
                Err(e) => Err(e),
                Ok(rest) => Ok(seq![s] + rest),
            },
        }
    }
}

/// The texts of one column of catalog rows.
pub fn row_strings(all: &[Row], index: usize) -> (r: Result<Vec<String>, DactylError>)
    ensures
        match texts_at(rows::row_views(all@), index as int) {
            Ok(list) => r is Ok && rows::texts(r->Ok_0@) == list,
            Err(e) => r is Err && r->Err_0@ == e,
        },
{
    let ghost views = rows::row_views(all@);
    let ghost whole = texts_at(views, index as int);
    let mut out: Vec<String> = Vec::new();
    let mut i: usize = 0;
    proof {
        assert(views.skip(0) =~= views);
        if whole is Ok {
            assert(rows::texts(out@) + whole->Ok_0 =~= whole->Ok_0);
        }
    }
    while i < all.len()
        invariant
            i <= all@.len(),
            views == rows::row_views(all@),
            whole == texts_at(views, index as int),
            match texts_at(views.skip(i as int), index as int) {
                Ok(rest) => whole == Ok::<Seq<Seq<char>>, ErrorView>(rows::texts(out@) + rest),
                Err(e) => whole == Err::<Seq<Seq<char>>, ErrorView>(e),
            },
        decreases all@.len() - i,
    {
        proof {
            assert(views.skip(i as int)[0] == all@[i as int]@);
            assert(views.skip(i as int).drop_first() =~= views.skip(i + 1));
        }
        match row_string(&all[i], index) {
            Ok(s) => {
                let ghost before = rows::texts(out@);
                out.push(s);
                proof {
                    let rest = texts_at(views.skip(i + 1), index as int);
                    if rest is Ok {
                        assert(rows::texts(out@) + rest->Ok_0 =~= before + (seq![s@]
                            + rest->Ok_0));
                    }
                }
            },
            Err(e) => {
                return Err(e);
            },
        }
        i = i + 1;
    }
    assert(rows::texts(out@) + Seq::<Seq<char>>::empty() =~= rows::texts(out@));
    Ok(out)
}

fn clone_texts(list: &Vec<String>) -> (r: Vec<String>)
    ensures
        rows::texts(r@) == rows::texts(list@),
{
    let mut out: Vec<String> = Vec::new();
    let mut i: usize = 0;
    while i < list.len()
        invariant
            i <= list@.len(),
            out@.len() == i,
            forall|k: int| 0 <= k < i ==> (#[trigger] out@[k])@ == list@[k]@,
        decreases list@.len() - i,
    {
        out.push(list[i].clone());
        i = i + 1;
    }
    assert(rows::texts(out@) =~= rows::texts(list@));
    out
}

// ---------------------------------------------------------------------------
// Defaults
// ---------------------------------------------------------------------------

/// A text with every doubled single quote made single, from position `i` on.
pub open spec fn unquoted_from(s: Seq<char>, i: int) -> Seq<char>
    decreases s.len() - i,
{
    if i < 0 || i >= s.len() {
        Seq::empty()
    } else if s[i] == '\'' && i + 1 < s.len() && s[i + 1] == '\'' {
        seq!['\''] + unquoted_from(s, i + 2)
    } else {
        seq![s[i]] + unquoted_from(s, i + 1)
    }
}

/// Whether a text stands in single quotes.
pub open spec fn is_quoted(s: Seq<char>) -> bool {
    s.len() >= 2 && s[0] == '\'' && s.last() == '\''
}

/// The value of a default clause. `parsed` is what its text spells in JSON.
pub open spec fn default_view(clause: Seq<char>, parsed: Option<ValueView>) -> ValueView {
    let t = text::trimmed(clause);
    if text::lower(t) == "null"@ {
        ValueView::Null
    } else if is_quoted(t) {
        ValueView::Text(unquoted_from(t.subrange(1, t.len() - 1), 0))
    } else if parsed is Some {
        parsed->Some_0
    } else {
        ValueView::Text(t)
    }
}

fn unquote(s: &str) -> (r: String)
    ensures
        r@ == unquoted_from(s@, 0),
{
    let chars: Vec<char> = text::chars_of(s);
    let mut out: String = String::new();
    let mut i: usize = 0;
    assert(out@ + unquoted_from(s@, 0) =~= unquoted_from(s@, 0));
    while i < chars.len()
        invariant
            i <= chars@.len(),
            chars@ == s@,
            out@ + unquoted_from(s@, i as int) == unquoted_from(s@, 0),
        decreases chars@.len() - i,
    {
        let ghost before = out@;
        if chars[i] == '\'' && chars.len() - i > 1 && chars[i + 1] == '\'' {
            out.push('\'');
            i = i + 2;
            assert(out@ + unquoted_from(s@, i as int) =~= before + (seq!['\''] + unquoted_from(
                s@,
                i as int,
            )));
        } else {
            out.push(chars[i]);
            i = i + 1;
            assert(out@ + unquoted_from(s@, i as int) =~= before + (seq![s@[i - 1]]
                + unquoted_from(s@, i as int)));
        }
    }
    assert(out@ + unquoted_from(s@, i as int) =~= out@);
    out
}

/// The value of a default clause, given what its text spells in JSON.
pub fn default_from(value: &str, parsed: Option<Value>) -> (r: Value)
    ensures
        r@ == default_view(value@, crate::json::value_option(parsed)),
{
    let t: &str = text::trim(value);
    if text::str_eq(text::to_lower(t).as_str(), "null") {
        return Value::Null;
    }
    let chars: Vec<char> = text::chars_of(t);
    if chars.len() >= 2 && chars[0] == '\'' && chars[chars.len() - 1] == '\'' {
        return Value::Text(unquote(t.substring_char(1, chars.len() - 1)));
    }
    match parsed {
        Some(v) => v,
        None => Value::Text(t.to_string()),
    }
}

/// The value of a default clause: a null, a string literal, JSON, or else the
/// clause as text.
pub fn default_value(value: &str) -> (r: Value)
    ensures
        r@ == default_view(value@, crate::json::json_parsed(text::trimmed(value@))),
{
    let parsed: Option<Value> = crate::json::parse_json(text::trim(value));
    default_from(value, parsed)
}

// ---------------------------------------------------------------------------
// Indexes
// ---------------------------------------------------------------------------

/// What a sequence of indexes says.
pub open spec fn index_views(list: Seq<IndexSchema>) -> Seq<IndexView> {
    list.map_values(|i: IndexSchema| i@)
}

/// Indexes in order of name with one more, behind those of its name.
pub open spec fn index_inserted(sorted: Seq<IndexView>, index: IndexView) -> Seq<IndexView>
    decreases sorted.len(),
{
    if sorted.len() == 0 || text::text_le(sorted.last().name, index.name) {
        sorted.push(index)
    } else {
        index_inserted(sorted.drop_last(), index).push(sorted.last())
    }
}

/// Indexes in order of name; those of one name stay in their order.
pub open spec fn indexes_sorted(list: Seq<IndexView>) -> Seq<IndexView>
    decreases list.len(),
{
    if list.len() == 0 {
        Seq::empty()
    } else {
        index_inserted(indexes_sorted(list.drop_last()), list.last())
    }
}

proof fn lemma_index_inserted_at(sorted: Seq<IndexView>, index: IndexView, k: int)
    requires
        0 <= k <= sorted.len(),
        k == 0 || text::text_le(sorted[k - 1].name, index.name),
        forall|j: int|
            k <= j < sorted.len() ==> !text::text_le((#[trigger] sorted[j]).name, index.name),
    ensures
        index_inserted(sorted, index) == sorted.insert(k, index),
    decreases sorted.len(),
{
    if sorted.len() == k {
        assert(sorted.insert(k, index) =~= sorted.push(index));
    } else {
        let head = sorted.drop_last();
        lemma_index_inserted_at(head, index, k);
        assert(head.insert(k, index).push(sorted.last()) =~= sorted.insert(k, index));
    }
}

/// Whether indexes stand in order of name.
pub open spec fn indexes_in_order(list: Seq<IndexView>) -> bool {
    forall|i: int, j: int|
        0 <= i <= j < list.len() ==> text::text_le(
            (#[trigger] list[i]).name,
            (#[trigger] list[j]).name,
        )
}

/// The indexes of one name, in their order.
pub open spec fn indexes_named(list: Seq<IndexView>, name: Seq<char>) -> Seq<IndexView> {
    list.filter(|i: IndexView| i.name == name)
}

proof fn lemma_index_inserted(sorted: Seq<IndexView>, index: IndexView)
    requires
        indexes_in_order(sorted),
    ensures
        indexes_in_order(index_inserted(sorted, index)),
        index_inserted(sorted, index).len() == sorted.len() + 1,
        index_inserted(sorted, index).to_multiset() =~= sorted.to_multiset().insert(index),
        index_inserted(sorted, index).last() == index || (sorted.len() > 0 && index_inserted(
            sorted,
            index,
        ).last() == sorted.last()),
    decreases sorted.len(),
{
    broadcast use vstd::seq_lib::group_to_multiset_ensures;

    let name = text::utf8(index.name);
    text::lemma_bytes_le_total(name, name);
    if sorted.len() > 0 {
        let last = text::utf8(sorted.last().name);
        text::lemma_bytes_le_total(last, name);
        text::lemma_bytes_le_total(last, last);
        let head = sorted.drop_last();
        let (before, added) = if text::text_le(sorted.last().name, index.name) {
            (sorted, index)
        } else {
            lemma_index_inserted(head, index);
            (index_inserted(head, index), sorted.last())
        };
        let all = before.push(added);
        assert(indexes_in_order(before));
        assert(text::text_le(before.last().name, added.name)) by {
            if before != sorted && before.last() != index {
                assert(before.last() == sorted[sorted.len() - 2]);
            }
        }
        assert forall|i: int, j: int| 0 <= i <= j < all.len() implies text::text_le(
            (#[trigger] all[i]).name,
            (#[trigger] all[j]).name,
        ) by {
            if j == before.len() && i < j {
                assert(text::text_le(before[i].name, before.last().name));
                text::lemma_bytes_le_transitive(
                    text::utf8(before[i].name),
                    text::utf8(before.last().name),
                    text::utf8(added.name),
                );
            }
        }
        assert(sorted =~= head.push(sorted.last()));
        assert(all.to_multiset() =~= sorted.to_multiset().insert(index));
    }
}

proof fn lemma_indexes_named_push(list: Seq<IndexView>, index: IndexView, name: Seq<char>)
    ensures
        indexes_named(list.push(index), name) == if index.name == name {
            indexes_named(list, name).push(index)
        } else {
            indexes_named(list, name)
        },
{
    reveal(Seq::filter);
    assert(list.push(index).drop_last() =~= list);
}

proof fn lemma_index_inserted_behind(sorted: Seq<IndexView>, index: IndexView, name: Seq<char>)
    ensures
        indexes_named(index_inserted(sorted, index), name) == indexes_named(
            sorted.push(index),
            name,
        ),
    decreases sorted.len(),
{
    if sorted.len() > 0 && !text::text_le(sorted.last().name, index.name) {
        let head = sorted.drop_last();
        text::lemma_bytes_le_total(text::utf8(index.name), text::utf8(index.name));
        lemma_index_inserted_behind(head, index, name);
        lemma_indexes_named_push(head, index, name);
        lemma_indexes_named_push(head, sorted.last(), name);
        lemma_indexes_named_push(sorted, index, name);
        lemma_indexes_named_push(index_inserted(head, index), sorted.last(), name);
        assert(sorted =~= head.push(sorted.last()));
    }
}

/// Sorting puts the indexes in order of name, neither loses nor adds one, and
/// leaves those of one name in their order.
pub proof fn lemma_indexes_sorted(list: Seq<IndexView>)
    ensures
        indexes_in_order(indexes_sorted(list)),
        indexes_sorted(list).to_multiset() =~= list.to_multiset(),
        forall|name: Seq<char>| #[trigger]
            indexes_named(indexes_sorted(list), name) == indexes_named(list, name),
    decreases list.len(),
{
    broadcast use vstd::seq_lib::group_to_multiset_ensures;

    if list.len() > 0 {
        let head = indexes_sorted(list.drop_last());
        lemma_indexes_sorted(list.drop_last());
        lemma_index_inserted(head, list.last());
        assert(list =~= list.drop_last().push(list.last()));
        assert forall|name: Seq<char>| #[trigger]
            indexes_named(indexes_sorted(list), name) == indexes_named(list, name) by {
            lemma_index_inserted_behind(head, list.last(), name);
            assert(indexes_named(head, name) == indexes_named(list.drop_last(), name));
            lemma_indexes_named_push(head, list.last(), name);
            lemma_indexes_named_push(list.drop_last(), list.last(), name);
        }
    }
}

fn insert_index(sorted: &mut Vec<IndexSchema>, index: IndexSchema)
    ensures
        index_views(final(sorted)@) == index_inserted(index_views(old(sorted)@), index@),
{
    let ghost before = index_views(sorted@);
    let mut k: usize = sorted.len();
    while k > 0 && !text::str_le(sorted[k - 1].name.as_str(), index.name.as_str())
        invariant
            k <= sorted@.len(),
            before == index_views(sorted@),
            forall|j: int|
                k <= j < before.len() ==> !text::text_le((#[trigger] before[j]).name, index@.name),
        decreases k,
    {
        assert(before[k - 1] == sorted@[k - 1]@);
        k = k - 1;
    }
    proof {
        if k > 0 {
            assert(before[k - 1] == sorted@[k - 1]@);
        }
        lemma_index_inserted_at(before, index@, k as int);
        assert(index_views(sorted@.insert(k as int, index)) =~= before.insert(k as int, index@));
    }
    sorted.insert(k, index);
}

/// Put indexes in order of name.
pub fn sort_indexes(list: Vec<IndexSchema>) -> (r: Vec<IndexSchema>)
    ensures
        index_views(r@) == indexes_sorted(index_views(list@)),
{
    let ghost all = index_views(list@);
    let mut sorted: Vec<IndexSchema> = Vec::new();
    assert(all.take(0) =~= Seq::<IndexView>::empty());
    assert(index_views(sorted@) =~= Seq::<IndexView>::empty());
    for index in it: list
        invariant
            it.seq() == list@,
            all == index_views(list@),
            index_views(sorted@) == indexes_sorted(all.take(it.index() as int)),
    {
        let ghost i = it.index() as int;
        proof {
            assert(all.take(i + 1).drop_last() =~= all.take(i));
            assert(all.take(i + 1).last() == index@);
        }
        insert_index(&mut sorted, index);
    }
    assert(all.take(all.len() as int) =~= all);
    sorted
}

/// The name of an index and whether it is unique, from a row of
/// `PRAGMA index_list`.
pub open spec fn entry_of(row: RowView) -> Result<(Seq<char>, bool), ErrorView> {
    match (text_at(row, 1), integer_at(row, 2)) {
        (Err(e), _) => Err(e),
        (Ok(_), Err(e)) => Err(e),
        (Ok(name), Ok(unique)) => Ok((name, unique != 0)),
    }
}

/// The name of an index and whether it is unique, from a row of
/// `PRAGMA index_list`.
pub fn index_entry(row: &Row) -> (r: Result<(String, bool), DactylError>)
    ensures
        match entry_of(row@) {
            Err(e) => r is Err && r->Err_0@ == e,
            Ok((name, unique)) => r is Ok && r->Ok_0.0@ == name && r->Ok_0.1 == unique,
        },
{
    let name: String = match row_string(row, 1) {
        Ok(name) => name,
        Err(e) => {
            return Err(e);
        },
    };
    match row_i64(row, 2) {
        Ok(unique) => Ok((name, unique != 0)),
        Err(e) => Err(e),
    }
}

/// The column names in rows of `PRAGMA index_info`; a row without a name
/// stands for an expression and is left out.
pub open spec fn indexed_columns(all: Seq<RowView>) -> Seq<Seq<char>>
    decreases all.len(),
{
    if all.len() == 0 {
        Seq::empty()
    } else {
        match optional_text(all.last(), 2) {
            Some(s) => indexed_columns(all.drop_last()).push(s),
            None => indexed_columns(all.drop_last()),
        }
    }
}

/// The column names in rows of `PRAGMA index_info`.
pub fn index_columns(all: &[Row]) -> (r: Vec<String>)
    ensures
        rows::texts(r@) == indexed_columns(rows::row_views(all@)),
{
    let ghost views = rows::row_views(all@);
    let mut out: Vec<String> = Vec::new();
    let mut i: usize = 0;
    assert(views.take(0) =~= Seq::<RowView>::empty());
    assert(rows::texts(out@) =~= Seq::<Seq<char>>::empty());
    while i < all.len()
        invariant
            i <= all@.len(),
            views == rows::row_views(all@),
            rows::texts(out@) == indexed_columns(views.take(i as int)),
        decreases all@.len() - i,
    {
        proof {
            assert(views.take(i + 1).drop_last() =~= views.take(i as int));
            assert(views.take(i + 1).last() == all@[i as int]@);
        }
        let ghost before = rows::texts(out@);
        if let Some(s) = cell_text(&all[i], 2) {
            out.push(s);
            assert(rows::texts(out@) =~= before.push(s@));
        }
        i = i + 1;
    }
    assert(views.take(i as int) =~= views);
    out
}

/// The columns that a unique index of their own makes unique.
pub open spec fn unique_columns_of(list: Seq<IndexView>) -> Seq<Seq<char>>
    decreases list.len(),
{
    if list.len() == 0 {
        Seq::empty()
    } else if list.last().unique && list.last().columns.len() == 1 {
        unique_columns_of(list.drop_last()).push(list.last().columns[0])
    } else {
        unique_columns_of(list.drop_last())
    }
}

/// The columns that a unique index of their own makes unique.
pub fn unique_columns(list: &Vec<IndexSchema>) -> (r: Vec<String>)
    ensures
        rows::texts(r@) == unique_columns_of(index_views(list@)),
{
    let ghost views = index_views(list@);
    let mut out: Vec<String> = Vec::new();
    let mut i: usize = 0;
    assert(views.take(0) =~= Seq::<IndexView>::empty());
    assert(rows::texts(out@) =~= Seq::<Seq<char>>::empty());
    while i < list.len()
        invariant
            i <= list@.len(),
            views == index_views(list@),
            rows::texts(out@) == unique_columns_of(views.take(i as int)),
        decreases list@.len() - i,
    {
        proof {
            assert(views.take(i + 1).drop_last() =~= views.take(i as int));
            assert(views.take(i + 1).last() == list@[i as int]@);
        }
        let ghost before = rows::texts(out@);
        if list[i].unique && list[i].columns.len() == 1 {
            out.push(list[i].columns[0].clone());
            assert(rows::texts(out@) =~= before.push(views[i as int].columns[0]));
        }
        i = i + 1;
    }
    assert(views.take(i as int) =~= views);
    out
}

/// The column sets of the unique indexes.
pub open spec fn unique_sets_of(list: Seq<IndexView>) -> Seq<Seq<Seq<char>>>
    decreases list.len(),
{
    if list.len() == 0 {
        Seq::empty()
    } else if list.last().unique {
        unique_sets_of(list.drop_last()).push(list.last().columns)
    } else {
        unique_sets_of(list.drop_last())
    }
}

/// What a list of column sets says.
pub open spec fn text_lists(lists: Seq<Vec<String>>) -> Seq<Seq<Seq<char>>> {
    lists.map_values(|l: Vec<String>| rows::texts(l@))
}

/// The column sets of the unique indexes.
pub fn unique_constraints(list: &Vec<IndexSchema>) -> (r: Vec<Vec<String>>)
    ensures
        text_lists(r@) == unique_sets_of(index_views(list@)),
{
    let ghost views = index_views(list@);
    let mut out: Vec<Vec<String>> = Vec::new();
    let mut i: usize = 0;
    assert(views.take(0) =~= Seq::<IndexView>::empty());
    assert(text_lists(out@) =~= Seq::<Seq<Seq<char>>>::empty());
    while i < list.len()
        invariant
            i <= list@.len(),
            views == index_views(list@),
            text_lists(out@) == unique_sets_of(views.take(i as int)),
        decreases list@.len() - i,
    {
        proof {
            assert(views.take(i + 1).drop_last() =~= views.take(i as int));
            assert(views.take(i + 1).last() == list@[i as int]@);
        }
        let ghost before = text_lists(out@);
        if list[i].unique {
            let columns: Vec<String> = clone_texts(&list[i].columns);
            out.push(columns);
            assert(text_lists(out@) =~= before.push(views[i as int].columns));
        }
        i = i + 1;
    }
    assert(views.take(i as int) =~= views);
    out
}

// ---------------------------------------------------------------------------
// Columns
// ---------------------------------------------------------------------------

/// The column that a row of `PRAGMA table_info` describes.
pub open spec fn column_of(row: RowView, unique: Seq<Seq<char>>) -> Result<
    ColumnView,
    ErrorView,
> {
    match text_at(row, 1) {
        Err(e) => Err(e),
        Ok(name) => match integer_at(row, 5) {
            Err(e) => Err(e),
            Ok(key) => match integer_at(row, 3) {
                Err(e) => Err(e),
                Ok(not_null) => Ok(
                    ColumnView {
                        name,
                        primary_key: key != 0,
                        unique: unique.contains(name),
                        not_null: not_null != 0,
                        default: match optional_text(row, 4) {
                            Some(clause) => Some(
                                default_view(
                                    clause,
                                    crate::json::json_parsed(text::trimmed(clause)),
                                ),
                            ),
                            None => None,
                        },
                    },
                ),
            },
        },
    }
}

/// The columns that rows of `PRAGMA table_info` describe.
pub open spec fn columns_of(all: Seq<RowView>, unique: Seq<Seq<char>>) -> Result<
    Seq<ColumnView>,
    ErrorView,
>
    decreases all.len(),
{
    if all.len() == 0 {
        Ok(Seq::empty())
    } else {
        match column_of(all[0], unique) {
            Err(e) => Err(e),
            Ok(column) => match columns_of(all.drop_first(), unique) {
                Err(e) => Err(e),
                Ok(rest) => Ok(seq![column] + rest),
            },
        }
    }
}

/// What a sequence of columns says.
pub open spec fn column_views(columns: Seq<ColumnSchema>) -> Seq<ColumnView> {
    columns.map_values(|c: ColumnSchema| c@)
}

fn read_column(row: &Row, unique: &Vec<String>) -> (r: Result<ColumnSchema, DactylError>)
    ensures
        match column_of(row@, rows::texts(unique@)) {
            Ok(column) => r is Ok && r->Ok_0@ == column,
            Err(e) => r is Err && r->Err_0@ == e,
        },
{
    let name: String = match row_string(row, 1) {
        Ok(name) => name,
        Err(e) => {
            return Err(e);
        },
    };
    let default: Option<Value> = match cell_text(row, 4) {
        Some(clause) => Some(default_value(clause.as_str())),
        None => None,
    };
    let key: i64 = match row_i64(row, 5) {
        Ok(key) => key,
        Err(e) => {
            return Err(e);
        },
    };
    let not_null: i64 = match row_i64(row, 3) {
        Ok(not_null) => not_null,
        Err(e) => {
            return Err(e);
        },
    };
    proof {
        rows::lemma_first_position(rows::texts(unique@), name@);
    }
    let is_unique: bool = rows::position_of(unique, name.as_str()).is_some();
    Ok(
        ColumnSchema {
            name,
            primary_key: key != 0,
            unique: is_unique,
            not_null: not_null != 0,
            default,
        },
    )
}

/// The columns that rows of `PRAGMA table_info` describe.
pub fn columns_for_table(all: &[Row], unique: &Vec<String>) -> (r: Result<
    Vec<ColumnSchema>,
    DactylError,
>)
    ensures
        match columns_of(rows::row_views(all@), rows::texts(unique@)) {
            Ok(columns) => r is Ok && column_views(r->Ok_0@) == columns,
            Err(e) => r is Err && r->Err_0@ == e,
        },
{
    let ghost views = rows::row_views(all@);
    let ghost names = rows::texts(unique@);
    let ghost whole = columns_of(views, names);
    let mut out: Vec<ColumnSchema> = Vec::new();
    let mut i: usize = 0;
    proof {
        assert(views.skip(0) =~= views);
        if whole is Ok {
            assert(column_views(out@) + whole->Ok_0 =~= whole->Ok_0);
        }
    }
    while i < all.len()
        invariant
            i <= all@.len(),
            views == rows::row_views(all@),
            names == rows::texts(unique@),
            whole == columns_of(views, names),
            match columns_of(views.skip(i as int), names) {
                Ok(rest) => whole == Ok::<Seq<ColumnView>, ErrorView>(column_views(out@) + rest),
                Err(e) => whole == Err::<Seq<ColumnView>, ErrorView>(e),
            },
        decreases all@.len() - i,
    {
        proof {
            assert(views.skip(i as int)[0] == all@[i as int]@);
            assert(views.skip(i as int).drop_first() =~= views.skip(i + 1));
        }
        match read_column(&all[i], unique) {
            Ok(column) => {
                let ghost before = column_views(out@);
                out.push(column);
                proof {
                    let rest = columns_of(views.skip(i + 1), names);
                    if rest is Ok {
                        assert(column_views(out@) + rest->Ok_0 =~= before + (seq![column@]
                            + rest->Ok_0));
                    }
                }
            },
            Err(e) => {
                return Err(e);
            },
        }
        i = i + 1;
    }
    assert(column_views(out@) + Seq::<ColumnView>::empty() =~= column_views(out@));
    Ok(out)
}

// ---------------------------------------------------------------------------
// Foreign keys
// ---------------------------------------------------------------------------

/// The action that SQLite's name of it stands for.
pub open spec fn action_of(name: Seq<char>) -> ForeignKeyAction {
    let n = text::lower(name);
    if n == "cascade"@ {
        ForeignKeyAction::Cascade
    } else if n == "set null"@ {
        ForeignKeyAction::SetNull
    } else if n == "set default"@ {
        ForeignKeyAction::SetDefault
    } else if n == "restrict"@ {
        ForeignKeyAction::Restrict
    } else {
        ForeignKeyAction::NoAction
    }
}

/// The action that SQLite's name of it stands for, in any ASCII case. An
/// unknown name stands for no action.
pub fn foreign_key_action(action: &str) -> (r: ForeignKeyAction)
    ensures
        r == action_of(action@),
{
    let lower: String = text::to_lower(action);
    if text::str_eq(lower.as_str(), "cascade") {
        ForeignKeyAction::Cascade
    } else if text::str_eq(lower.as_str(), "set null") {
        ForeignKeyAction::SetNull
    } else if text::str_eq(lower.as_str(), "set default") {
        ForeignKeyAction::SetDefault
    } else if text::str_eq(lower.as_str(), "restrict") {
        ForeignKeyAction::Restrict
    } else {
        ForeignKeyAction::NoAction
    }
}

/// A row of `PRAGMA foreign_key_list`: one column of a foreign key.
#[verifier::ext_equal]
pub ghost struct KeyRow {
    pub id: i64,
    pub sequence: i64,
    pub ref_table: Seq<char>,
    pub column: Seq<char>,
    pub ref_column: Seq<char>,
    pub action: ForeignKeyAction,
}

/// One column of a foreign key: its place, its name and the name of the
/// column that it refers to.
#[verifier::ext_equal]
pub ghost struct KeyPart {
    pub sequence: i64,
    pub column: Seq<char>,
    pub ref_column: Seq<char>,
}

/// A foreign key that is being put together.
#[verifier::ext_equal]
pub ghost struct KeyGroup {
    pub id: i64,
    pub ref_table: Seq<char>,
    pub on_delete: ForeignKeyAction,
    pub parts: Seq<KeyPart>,
}

/// The foreign key column that a row describes. A key that names no column
/// refers to the primary key; its reference is empty.
pub open spec fn key_row(row: RowView) -> Result<KeyRow, ErrorView> {
    match integer_at(row, 0) {
        Err(e) => Err(e),
        Ok(id) => match integer_at(row, 1) {
            Err(e) => Err(e),
            Ok(sequence) => match text_at(row, 2) {
                Err(e) => Err(e),
                Ok(ref_table) => match text_at(row, 3) {
                    Err(e) => Err(e),
                    Ok(column) => match text_at(row, 6) {
                        Err(e) => Err(e),
                        Ok(action) => Ok(
                            KeyRow {
                                id,
                                sequence,
                                ref_table,
                                column,
                                ref_column: match optional_text(row, 4) {
                                    Some(s) => s,
                                    None => Seq::empty(),
                                },
                                action: action_of(action),
                            },
                        ),
                    },
                },
            },
        },
    }
}

/// Parts in order of place with one more, behind those of its place.
pub open spec fn part_inserted(parts: Seq<KeyPart>, part: KeyPart) -> Seq<KeyPart>
    decreases parts.len(),
{
    if parts.len() == 0 || parts.last().sequence <= part.sequence {
        parts.push(part)
    } else {
        part_inserted(parts.drop_last(), part).push(parts.last())
    }
}

/// The part that a row adds.
pub open spec fn part_of(row: KeyRow) -> KeyPart {
    KeyPart { sequence: row.sequence, column: row.column, ref_column: row.ref_column }
}

/// Foreign keys in order of id with one more row. The first row of a key says
/// which table it refers to and what a delete does.
pub open spec fn row_grouped(groups: Seq<KeyGroup>, row: KeyRow) -> Seq<KeyGroup>
    decreases groups.len(),
{
    if groups.len() == 0 || groups.last().id < row.id {
        groups.push(
            KeyGroup {
                id: row.id,
                ref_table: row.ref_table,
                on_delete: row.action,
                parts: seq![part_of(row)],
            },
        )
    } else if groups.last().id == row.id {
        groups.drop_last().push(
            KeyGroup {
                parts: part_inserted(groups.last().parts, part_of(row)),
                ..groups.last()
            },
        )
    } else {
        row_grouped(groups.drop_last(), row).push(groups.last())
    }
}

/// The foreign keys that rows describe.
pub open spec fn grouped(all: Seq<RowView>) -> Result<Seq<KeyGroup>, ErrorView>
    decreases all.len(),
{
    if all.len() == 0 {
        Ok(Seq::empty())
    } else {
        match grouped(all.drop_last()) {
            Err(e) => Err(e),
            Ok(groups) => match key_row(all.last()) {
                Err(e) => Err(e),
                Ok(row) => Ok(row_grouped(groups, row)),
            },
        }
    }
}

/// A foreign key that is complete.
pub open spec fn key_of(group: KeyGroup) -> ForeignKeyView {
    ForeignKeyView {
        columns: group.parts.map_values(|p: KeyPart| p.column),
        ref_table: group.ref_table,
        ref_columns: group.parts.map_values(|p: KeyPart| p.ref_column),
        on_delete: group.on_delete,
    }
}

/// The foreign keys that rows of `PRAGMA foreign_key_list` describe, in order
/// of id, the columns of each in order of place.
pub open spec fn foreign_keys_of(all: Seq<RowView>) -> Result<Seq<ForeignKeyView>, ErrorView> {
    match grouped(all) {
        Err(e) => Err(e),
        Ok(groups) => Ok(groups.map_values(|g: KeyGroup| key_of(g))),
    }
}

/// Whether foreign keys stand in order of id, one for each id, and the parts
/// of each in order of place.
pub open spec fn keys_in_order(groups: Seq<KeyGroup>) -> bool {
    &&& forall|i: int, j: int|
        0 <= i < j < groups.len() ==> (#[trigger] groups[i]).id < (#[trigger] groups[j]).id
    &&& forall|i: int| 0 <= i < groups.len() ==> parts_in_order((#[trigger] groups[i]).parts)
}

/// Whether parts stand in order of place.
pub open spec fn parts_in_order(parts: Seq<KeyPart>) -> bool {
    forall|i: int, j: int|
        0 <= i <= j < parts.len() ==> (#[trigger] parts[i]).sequence <= (
        #[trigger] parts[j]).sequence
}

proof fn lemma_part_inserted(parts: Seq<KeyPart>, part: KeyPart)
    requires
        parts_in_order(parts),
    ensures
        parts_in_order(part_inserted(parts, part)),
        part_inserted(parts, part).len() == parts.len() + 1,
        part_inserted(parts, part).last().sequence == part.sequence || (parts.len() > 0
            && part_inserted(parts, part).last() == parts.last()),
    decreases parts.len(),
{
    if !(parts.len() == 0 || parts.last().sequence <= part.sequence) {
        lemma_part_inserted(parts.drop_last(), part);
        let head = part_inserted(parts.drop_last(), part);
        let all = head.push(parts.last());
        assert(parts.drop_last().len() > 0 ==> parts.drop_last().last().sequence
            <= parts.last().sequence);
        assert forall|i: int, j: int| 0 <= i <= j < all.len() implies (
        #[trigger] all[i]).sequence <= (#[trigger] all[j]).sequence by {
            if j == head.len() && i < head.len() {
                assert(head[i].sequence <= head.last().sequence);
            }
        }
    }
}

proof fn lemma_row_grouped(groups: Seq<KeyGroup>, row: KeyRow)
    requires
        keys_in_order(groups),
    ensures
        keys_in_order(row_grouped(groups, row)),
        row_grouped(groups, row).len() > 0,
        row_grouped(groups, row).last().id == row.id || (groups.len() > 0 && row_grouped(
            groups,
            row,
        ).last().id == groups.last().id),
    decreases groups.len(),
{
    if groups.len() == 0 || groups.last().id < row.id {
    } else if groups.last().id == row.id {
        lemma_part_inserted(groups.last().parts, part_of(row));
    } else {
        lemma_row_grouped(groups.drop_last(), row);
        let head = row_grouped(groups.drop_last(), row);
        let all = head.push(groups.last());
        assert(groups.drop_last().len() > 0 ==> groups.drop_last().last().id < groups.last().id);
        assert forall|i: int, j: int| 0 <= i < j < all.len() implies (#[trigger] all[i]).id < (
        #[trigger] all[j]).id by {
            if j == head.len() {
                assert(i < head.len() - 1 ==> head[i].id < head.last().id);
            }
        }
    }
}

/// Foreign keys come out in order of id, each once, with their columns in
/// order of place.
pub proof fn lemma_foreign_keys_in_order(all: Seq<RowView>)
    requires
        grouped(all) is Ok,
    ensures
        keys_in_order(grouped(all)->Ok_0),
    decreases all.len(),
{
    if all.len() > 0 {
        lemma_foreign_keys_in_order(all.drop_last());
        lemma_row_grouped(grouped(all.drop_last())->Ok_0, key_row(all.last())->Ok_0);
    }
}

struct Part {
    sequence: i64,
    column: String,
    ref_column: String,
}

struct Group {
    id: i64,
    ref_table: String,
    on_delete: ForeignKeyAction,
    parts: Vec<Part>,
}

impl Part {
    spec fn view(self) -> KeyPart {
        KeyPart {
            sequence: self.sequence,
            column: self.column@,
            ref_column: self.ref_column@,
        }
    }
}

spec fn part_views(parts: Seq<Part>) -> Seq<KeyPart> {
    parts.map_values(|p: Part| p@)
}

impl Group {
    spec fn view(self) -> KeyGroup {
        KeyGroup {
            id: self.id,
            ref_table: self.ref_table@,
            on_delete: self.on_delete,
            parts: part_views(self.parts@),
        }
    }
}

spec fn group_views(groups: Seq<Group>) -> Seq<KeyGroup> {
    groups.map_values(|g: Group| g@)
}

struct ReadKey {
    id: i64,
    ref_table: String,
    action: ForeignKeyAction,
    part: Part,
}

impl ReadKey {
    spec fn view(self) -> KeyRow {
        KeyRow {
            id: self.id,
            sequence: self.part.sequence,
            ref_table: self.ref_table@,
            column: self.part.column@,
            ref_column: self.part.ref_column@,
            action: self.action,
        }
    }
}

fn read_key(row: &Row) -> (r: Result<ReadKey, DactylError>)
    ensures
        match key_row(row@) {
            Ok(key) => r is Ok && r->Ok_0@ == key,
            Err(e) => r is Err && r->Err_0@ == e,
        },
{
    let id: i64 = match row_i64(row, 0) {
        Ok(id) => id,
        Err(e) => {
            return Err(e);
        },
    };
    let sequence: i64 = match row_i64(row, 1) {
        Ok(sequence) => sequence,
        Err(e) => {
            return Err(e);
        },
    };
    let ref_table: String = match row_string(row, 2) {
        Ok(ref_table) => ref_table,
        Err(e) => {
            return Err(e);
        },
    };
    let column: String = match row_string(row, 3) {
        Ok(column) => column,
        Err(e) => {
            return Err(e);
        },
    };
    let ref_column: String = match cell_text(row, 4) {
        Some(s) => s,
        None => String::new(),
    };
    let action: String = match row_string(row, 6) {
        Ok(action) => action,
        Err(e) => {
            return Err(e);
        },
    };
    Ok(
        ReadKey {
            id,
            ref_table,
            action: foreign_key_action(action.as_str()),
            part: Part { sequence, column, ref_column },
        },
    )
}

proof fn lemma_part_inserted_at(parts: Seq<KeyPart>, part: KeyPart, k: int)
    requires
        0 <= k <= parts.len(),
        k == 0 || parts[k - 1].sequence <= part.sequence,
        forall|j: int| k <= j < parts.len() ==> (#[trigger] parts[j]).sequence > part.sequence,
    ensures
        part_inserted(parts, part) == parts.insert(k, part),
    decreases parts.len(),
{
    if parts.len() == k {
        assert(parts.insert(k, part) =~= parts.push(part));
    } else {
        lemma_part_inserted_at(parts.drop_last(), part, k);
        assert(parts.drop_last().insert(k, part).push(parts.last()) =~= parts.insert(k, part));
    }
}

fn insert_part(parts: &mut Vec<Part>, part: Part)
    ensures
        part_views(final(parts)@) == part_inserted(part_views(old(parts)@), part@),
{
    let ghost before = part_views(parts@);
    let mut k: usize = parts.len();
    while k > 0 && parts[k - 1].sequence > part.sequence
        invariant
            k <= parts@.len(),
            before == part_views(parts@),
            forall|j: int|
                k <= j < before.len() ==> (#[trigger] before[j]).sequence > part.sequence,
        decreases k,
    {
        assert(before[k - 1] == parts@[k - 1]@);
        k = k - 1;
    }
    proof {
        if k > 0 {
            assert(before[k - 1] == parts@[k - 1]@);
        }
        lemma_part_inserted_at(before, part@, k as int);
        assert(part_views(parts@.insert(k as int, part)) =~= before.insert(k as int, part@));
    }
    parts.insert(k, part);
}

proof fn lemma_row_grouped_at(groups: Seq<KeyGroup>, row: KeyRow, k: int)
    requires
        0 <= k <= groups.len(),
        k == 0 || groups[k - 1].id <= row.id,
        forall|j: int| k <= j < groups.len() ==> (#[trigger] groups[j]).id > row.id,
    ensures
        k > 0 && groups[k - 1].id == row.id ==> row_grouped(groups, row) == groups.update(
            k - 1,
            KeyGroup {
                parts: part_inserted(groups[k - 1].parts, part_of(row)),
                ..groups[k - 1]
            },
        ),
        (k == 0 || groups[k - 1].id < row.id) ==> row_grouped(groups, row) == groups.insert(
            k,
            KeyGroup {
                id: row.id,
                ref_table: row.ref_table,
                on_delete: row.action,
                parts: seq![part_of(row)],
            },
        ),
    decreases groups.len(),
{
    let added = KeyGroup {
        id: row.id,
        ref_table: row.ref_table,
        on_delete: row.action,
        parts: seq![part_of(row)],
    };
    if groups.len() == k {
        if k > 0 && groups[k - 1].id == row.id {
            let grown = KeyGroup {
                parts: part_inserted(groups[k - 1].parts, part_of(row)),
                ..groups[k - 1]
            };
            assert(groups.drop_last().push(grown) =~= groups.update(k - 1, grown));
        } else {
            assert(groups.insert(k, added) =~= groups.push(added));
        }
    } else {
        let head = groups.drop_last();
        lemma_row_grouped_at(head, row, k);
        if k > 0 && groups[k - 1].id == row.id {
            let grown = KeyGroup {
                parts: part_inserted(groups[k - 1].parts, part_of(row)),
                ..groups[k - 1]
            };
            assert(head.update(k - 1, grown).push(groups.last()) =~= groups.update(k - 1, grown));
        } else {
            assert(head.insert(k, added).push(groups.last()) =~= groups.insert(k, added));
        }
    }
}

fn group_row(groups: &mut Vec<Group>, row: ReadKey)
    ensures
        group_views(final(groups)@) == row_grouped(group_views(old(groups)@), row@),
{
    let ghost before = group_views(groups@);
    let ghost key = row@;
    let mut k: usize = groups.len();
    while k > 0 && groups[k - 1].id > row.id
        invariant
            k <= groups@.len(),
            before == group_views(groups@),
            forall|j: int| k <= j < before.len() ==> (#[trigger] before[j]).id > row.id,
        decreases k,
    {
        assert(before[k - 1] == groups@[k - 1]@);
        k = k - 1;
    }
    proof {
        if k > 0 {
            assert(before[k - 1] == groups@[k - 1]@);
        }
        lemma_row_grouped_at(before, key, k as int);
    }
    if k > 0 && groups[k - 1].id == row.id {
        let mut group: Group = groups.remove(k - 1);
        insert_part(&mut group.parts, row.part);
        groups.insert(k - 1, group);
        assert(group_views(groups@) =~= before.update(k - 1, group@));
    } else {
        let mut parts: Vec<Part> = Vec::new();
        parts.push(row.part);
        let group = Group { id: row.id, ref_table: row.ref_table, on_delete: row.action, parts };
        assert(part_views(group.parts@) =~= seq![part_of(key)]);
        groups.insert(k, group);
        assert(group_views(groups@) =~= before.insert(k as int, group@));
    }
}

fn finish_key(group: Group) -> (r: ForeignKeySchema)
    ensures
        r@ == key_of(group@),
{
    let ghost parts = part_views(group.parts@);
    let mut columns: Vec<String> = Vec::new();
    let mut ref_columns: Vec<String> = Vec::new();
    let mut i: usize = 0;
    while i < group.parts.len()
        invariant
            i <= group.parts@.len(),
            parts == part_views(group.parts@),
            columns@.len() == i,
            ref_columns@.len() == i,
            forall|k: int| 0 <= k < i ==> (#[trigger] columns@[k])@ == parts[k].column,
            forall|k: int| 0 <= k < i ==> (#[trigger] ref_columns@[k])@ == parts[k].ref_column,
        decreases group.parts@.len() - i,
    {
        assert(parts[i as int] == group.parts@[i as int]@);
        columns.push(group.parts[i].column.clone());
        ref_columns.push(group.parts[i].ref_column.clone());
        i = i + 1;
    }
    proof {
        assert(rows::texts(columns@) =~= key_of(group@).columns);
        assert(rows::texts(ref_columns@) =~= key_of(group@).ref_columns);
    }
    ForeignKeySchema {
        columns,
        ref_table: group.ref_table,
        ref_columns,
        on_delete: group.on_delete,
    }
}

/// What a sequence of foreign keys says.
pub open spec fn foreign_key_views(keys: Seq<ForeignKeySchema>) -> Seq<ForeignKeyView> {
    keys.map_values(|k: ForeignKeySchema| k@)
}

proof fn lemma_grouped_fault(all: Seq<RowView>, i: int)
    requires
        0 <= i < all.len(),
        grouped(all.take(i + 1)) is Err,
    ensures
        grouped(all) == grouped(all.take(i + 1)),
    decreases all.len(),
{
    if i + 1 == all.len() {
        assert(all.take(i + 1) =~= all);
    } else {
        assert(all.drop_last().take(i + 1) =~= all.take(i + 1));
        lemma_grouped_fault(all.drop_last(), i);
    }
}

/// The foreign keys that rows of `PRAGMA foreign_key_list` describe.
pub fn foreign_keys_for_table(all: &[Row]) -> (r: Result<Vec<ForeignKeySchema>, DactylError>)
    ensures
        match foreign_keys_of(rows::row_views(all@)) {
            Ok(keys) => r is Ok && foreign_key_views(r->Ok_0@) == keys,
            Err(e) => r is Err && r->Err_0@ == e,
        },
{
    let ghost views = rows::row_views(all@);
    let mut groups: Vec<Group> = Vec::new();
    let mut i: usize = 0;
    proof {
        assert(views.take(0) =~= Seq::<RowView>::empty());
        assert(group_views(groups@) =~= Seq::<KeyGroup>::empty());
    }
    while i < all.len()
        invariant
            i <= all@.len(),
            views == rows::row_views(all@),
            grouped(views.take(i as int)) == Ok::<Seq<KeyGroup>, ErrorView>(group_views(groups@)),
        decreases all@.len() - i,
    {
        proof {
            assert(views.take(i + 1).drop_last() =~= views.take(i as int));
            assert(views.take(i + 1).last() == all@[i as int]@);
        }
        match read_key(&all[i]) {
            Ok(key) => {
                group_row(&mut groups, key);
            },
            Err(e) => {
                proof {
                    lemma_grouped_fault(views, i as int);
                }
                return Err(e);
            },
        }
        i = i + 1;
    }
    assert(views.take(i as int) =~= views);
    let ghost done = group_views(groups@);
    let mut out: Vec<ForeignKeySchema> = Vec::new();
    for group in it: groups
        invariant
            it.seq() == groups@,
            done == group_views(groups@),
            out@.len() == it.index(),
            forall|k: int| 0 <= k < it.index() ==> (#[trigger] out@[k])@ == key_of(done[k]),
    {
        assert(done[it.index() as int] == group@);
        out.push(finish_key(group));
    }
    assert(foreign_key_views(out@) =~= done.map_values(|g: KeyGroup| key_of(g)));
    Ok(out)
}

// ---------------------------------------------------------------------------
// The whole schema
// ---------------------------------------------------------------------------

/// The number of rows that a counting query gives; a negative count stands
/// for none.
pub open spec fn counted(all: Seq<RowView>) -> Result<u64, ErrorView> {
    if all.len() == 0 {
        Err(crate::error::plain(AdapterErrorKind::Value, "SQLite returned no table count"@))
    } else {
        match integer_at(all[0], 0) {
            Err(e) => Err(e),
            Ok(n) => Ok(
                if n < 0 {
                    0
                } else {
                    n as u64
                },
            ),
        }
    }
}

/// The number of rows that a counting query gives.
pub fn table_count(all: &[Row]) -> (r: Result<u64, DactylError>)
    ensures
        match counted(rows::row_views(all@)) {
            Ok(n) => r is Ok && r->Ok_0 == n,
            Err(e) => r is Err && r->Err_0@ == e,
        },
{
    if all.len() == 0 {
        return Err(
            DactylError::adapter(AdapterErrorKind::Value, "SQLite returned no table count"),
        );
    }
    assert(rows::row_views(all@)[0] == all@[0]@);
    match row_i64(&all[0], 0) {
        Ok(n) => if n < 0 {
            Ok(0)
        } else {
            Ok(n as u64)
        },
        Err(e) => Err(e),
    }
}

/// A table of the snapshot.
pub fn table_schema(
    name: String,
    indexes: &Vec<IndexSchema>,
    columns: Vec<ColumnSchema>,
    foreign_keys: Vec<ForeignKeySchema>,
    row_count: u64,
) -> (r: TableSchema)
    ensures
        r.name == name,
        r.columns == columns,
        text_lists(r.unique_constraints@) == unique_sets_of(index_views(indexes@)),
        r.foreign_keys == foreign_keys,
        r.row_count == row_count,
{
    TableSchema {
        name,
        columns,
        unique_constraints: unique_constraints(indexes),
        foreign_keys,
        row_count,
    }
}

/// The snapshot of a store: its tables in the order given and its indexes in
/// order of name.
pub fn inspect_schema(tables: Vec<TableSchema>, indexes: Vec<IndexSchema>) -> (r: StoreSchema)
    ensures
        r.format_version == SCHEMA_DESCRIPTION_VERSION,
        r.tables == tables,
        index_views(r.indexes@) == indexes_sorted(index_views(indexes@)),
{
    StoreSchema {
        format_version: SCHEMA_DESCRIPTION_VERSION,
        tables,
        indexes: sort_indexes(indexes),
    }
}

// ---------------------------------------------------------------------------
// What the description is for
// ---------------------------------------------------------------------------

/// The integer that a cell holds, where it holds one that SQLite can store.
pub open spec fn whole_number(v: ValueView) -> Option<int> {
    match v {
        ValueView::Number(crate::value::Number::PosInt(n)) => if n < 0x8000_0000_0000_0000 {
            Some(n as int)
        } else {
            None
        },
        ValueView::Number(crate::value::Number::NegInt(n)) => Some(n as int),
        _ => None,
    }
}

/// The integer in a place of a row.
pub open spec fn number_in(row: RowView, i: int) -> Option<int> {
    if i < row.values.len() {
        whole_number(row.values[i])
    } else {
        None
    }
}

/// The text in a place of a row.
pub open spec fn text_in(row: RowView, i: int) -> Option<Seq<char>> {
    if i < row.values.len() && row.values[i] is Text {
        Some(row.values[i]->Text_0)
    } else {
        None
    }
}

/// A catalog cell reads as the text or the integer that it holds, and as
/// nothing else.
pub proof fn lemma_catalog_cells(row: RowView, i: int)
    requires
        0 <= i,
    ensures
        text_at(row, i) is Ok <==> text_in(row, i) is Some,
        text_at(row, i) is Ok ==> Some(text_at(row, i)->Ok_0) == text_in(row, i),
        optional_text(row, i) == text_in(row, i),
        integer_at(row, i) is Ok <==> number_in(row, i) is Some,
        integer_at(row, i) is Ok ==> Some(integer_at(row, i)->Ok_0 as int) == number_in(row, i),
        text_at(row, i) is Err ==> text_at(row, i)->Err_0.kind() == Some(AdapterErrorKind::Value),
        integer_at(row, i) is Err ==> integer_at(row, i)->Err_0.kind() == Some(
            AdapterErrorKind::Value,
        ),
{
}

/// What a row of `PRAGMA table_info` says of a column. The second cell is its
/// name. It is part of the primary key exactly where the sixth is an integer
/// other than 0, whatever its place in the key, and may not be null exactly
/// where the fourth is. It is unique exactly where its name is listed, and has
/// a default exactly where the fifth cell is a text. Rows whose cells are of
/// other kinds are refused.
pub proof fn lemma_columns_are_read(row: RowView, unique: Seq<Seq<char>>)
    ensures
        column_of(row, unique) is Ok <==> (text_in(row, 1) is Some && number_in(row, 3) is Some
            && number_in(row, 5) is Some),
        column_of(row, unique) is Ok ==> {
            let column = column_of(row, unique)->Ok_0;
            &&& Some(column.name) == text_in(row, 1)
            &&& column.primary_key <==> number_in(row, 5) != Some(0int)
            &&& column.not_null <==> number_in(row, 3) != Some(0int)
            &&& column.unique <==> exists|k: int|
                0 <= k < unique.len() && #[trigger] unique[k] == column.name
            &&& column.default is Some <==> text_in(row, 4) is Some
            &&& column.default is Some ==> column.default == Some(
                default_view(
                    text_in(row, 4)->Some_0,
                    crate::json::json_parsed(text::trimmed(text_in(row, 4)->Some_0)),
                ),
            )
        },
{
    lemma_catalog_cells(row, 1);
    lemma_catalog_cells(row, 3);
    lemma_catalog_cells(row, 4);
    lemma_catalog_cells(row, 5);
}

/// The columns of a table are its rows of `PRAGMA table_info`, one for one and
/// in order; one that cannot be read fails the table.
pub proof fn lemma_columns_one_for_one(all: Seq<RowView>, unique: Seq<Seq<char>>)
    ensures
        columns_of(all, unique) is Ok <==> forall|i: int|
            0 <= i < all.len() ==> column_of(#[trigger] all[i], unique) is Ok,
        columns_of(all, unique) is Ok ==> columns_of(all, unique)->Ok_0.len() == all.len(),
        columns_of(all, unique) is Ok ==> forall|i: int|
            0 <= i < all.len() ==> column_of(#[trigger] all[i], unique) == Ok::<
                ColumnView,
                ErrorView,
            >(columns_of(all, unique)->Ok_0[i]),
    decreases all.len(),
{
    if all.len() > 0 {
        let rest = all.drop_first();
        lemma_columns_one_for_one(rest, unique);
        if columns_of(all, unique) is Ok {
            assert forall|i: int| 0 <= i < all.len() implies column_of(#[trigger] all[i], unique)
                == Ok::<ColumnView, ErrorView>(columns_of(all, unique)->Ok_0[i]) by {
                if i > 0 {
                    assert(rest[i - 1] == all[i]);
                }
            }
        } else if column_of(all[0], unique) is Ok {
            let i = choose|i: int|
                0 <= i < rest.len() && !(column_of(#[trigger] rest[i], unique) is Ok);
            assert(all[i + 1] == rest[i]);
        }
    }
}

/// A string literal as a default stands for its text, with its doubled quotes
/// single again; `null` in any ASCII case stands for null. Whitespace round
/// either says nothing.
pub proof fn lemma_default_clauses(
    before: Seq<char>,
    s: Seq<char>,
    behind: Seq<char>,
    parsed: Option<ValueView>,
)
    requires
        text::is_blank(before),
        text::is_blank(behind),
    ensures
        default_view(
            before + (seq!['\''] + crate::sqlite::statement::in_literal(s) + seq!['\'']) + behind,
            parsed,
        ) == ValueView::Text(s),
        text::spells(s, "null"@) ==> default_view(before + s + behind, parsed) == ValueView::Null,
        s.len() > 0 && !text::is_space(s[0]) && !text::is_space(s.last()) && !text::spells(
            s,
            "null"@,
        ) && !(s.len() >= 2 && s[0] == '\'' && s.last() == '\'') ==> default_view(
            before + s + behind,
            parsed,
        ) == if parsed is Some {
            parsed->Some_0
        } else {
            ValueView::Text(s)
        },
{
    reveal_strlit("null");
    let inner = crate::sqlite::statement::in_literal(s);
    let literal = seq!['\''] + inner + seq!['\''];
    text::lemma_whitespace('\'');
    text::lemma_trimmed(before, literal, behind);
    assert(text::lower(literal)[0] == '\'');
    assert(literal.subrange(1, literal.len() - 1) =~= inner);
    lemma_unquoted(s, Seq::empty());
    assert(Seq::<char>::empty() + inner =~= inner);
    text::lemma_lower_spells(s, "null"@);
    if text::spells(s, "null"@) {
        assert(text::lower(s)[0] == 'n' && text::lower(s)[3] == 'l');
        assert(s[0] == 'n' || s[0] as u32 + 32 == 'n' as u32);
        assert(s[3] == 'l' || s[3] as u32 + 32 == 'l' as u32);
        text::lemma_trimmed(before, s, behind);
    } else if s.len() > 0 && !text::is_space(s[0]) && !text::is_space(s.last()) {
        text::lemma_trimmed(before, s, behind);
    }
}

proof fn lemma_unquoted(s: Seq<char>, front: Seq<char>)
    ensures
        unquoted_from(front + crate::sqlite::statement::in_literal(s), front.len() as int) == s,
    decreases s.len(),
{
    let inner = crate::sqlite::statement::in_literal(s);
    let all = front + inner;
    if s.len() > 0 {
        let less = s.drop_first();
        let rest = crate::sqlite::statement::in_literal(less);
        let taken = if s[0] == '\'' {
            seq!['\'', '\'']
        } else {
            seq![s[0]]
        };
        assert(inner =~= taken + rest);
        lemma_unquoted(less, front + taken);
        assert(front + taken + rest =~= all);
        assert(all[front.len() as int] == s[0]);
        if s[0] == '\'' {
            assert(all[front.len() as int + 1] == '\'');
        }
        assert(seq![s[0]] + less =~= s);
    } else {
        assert(s =~= Seq::<char>::empty());
    }
}

/// What a row of `PRAGMA index_list` says: its second cell is the name of the
/// index, which is unique exactly where the third is an integer other than 0.
pub proof fn lemma_index_entries(row: RowView)
    ensures
        entry_of(row) is Ok <==> (text_in(row, 1) is Some && number_in(row, 2) is Some),
        entry_of(row) is Ok ==> Some(entry_of(row)->Ok_0.0) == text_in(row, 1) && (entry_of(
            row,
        )->Ok_0.1 <==> number_in(row, 2) != Some(0int)),
{
    lemma_catalog_cells(row, 1);
    lemma_catalog_cells(row, 2);
}

/// The columns of an index are the names in the third cells of its rows, in
/// order; a row without a name adds none.
pub proof fn lemma_indexed_columns(front: Seq<RowView>, row: RowView)
    ensures
        indexed_columns(Seq::empty()) == Seq::<Seq<char>>::empty(),
        text_in(row, 2) is Some ==> indexed_columns(front.push(row)) == indexed_columns(
            front,
        ).push(text_in(row, 2)->Some_0),
        text_in(row, 2) is None ==> indexed_columns(front.push(row)) == indexed_columns(front),
{
    lemma_catalog_cells(row, 2);
    assert(front.push(row).drop_last() =~= front);
}

/// A column is unique by itself exactly where some unique index has it as its
/// only column.
pub proof fn lemma_unique_columns(list: Seq<IndexView>, name: Seq<char>)
    ensures
        unique_columns_of(list).contains(name) <==> exists|i: int|
            0 <= i < list.len() && (#[trigger] list[i]).unique && list[i].columns == seq![name],
    decreases list.len(),
{
    if list.len() > 0 {
        let head = list.drop_last();
        let last = list.last();
        lemma_unique_columns(head, name);
        if unique_columns_of(head).contains(name) {
            let i = choose|i: int|
                0 <= i < head.len() && (#[trigger] head[i]).unique && head[i].columns == seq![name];
            assert(list[i] == head[i]);
        }
        if last.unique && last.columns.len() == 1 {
            let all = unique_columns_of(head).push(last.columns[0]);
            assert(last.columns =~= seq![last.columns[0]]);
            if all.contains(name) {
                let k = choose|k: int| 0 <= k < all.len() && all[k] == name;
                if k < unique_columns_of(head).len() {
                    assert(unique_columns_of(head)[k] == name);
                } else {
                    assert(list[list.len() - 1].columns == seq![name]);
                }
            }
            if unique_columns_of(head).contains(name) {
                let k = choose|k: int|
                    0 <= k < unique_columns_of(head).len() && unique_columns_of(head)[k] == name;
                assert(all[k] == name);
            }
            if last.columns == seq![name] {
                assert(all[all.len() - 1] == name);
            }
        }
        if exists|i: int|
            0 <= i < list.len() && (#[trigger] list[i]).unique && list[i].columns == seq![name] {
            let i = choose|i: int|
                0 <= i < list.len() && (#[trigger] list[i]).unique && list[i].columns == seq![name];
            if i < head.len() {
                assert(head[i] == list[i]);
            }
        }
    }
}

/// The unique constraints of a table are the column sets of its unique
/// indexes, in their order; no other index adds one.
pub proof fn lemma_unique_constraints(front: Seq<IndexView>, index: IndexView)
    ensures
        unique_sets_of(Seq::empty()) == Seq::<Seq<Seq<char>>>::empty(),
        index.unique ==> unique_sets_of(front.push(index)) == unique_sets_of(front).push(
            index.columns,
        ),
        !index.unique ==> unique_sets_of(front.push(index)) == unique_sets_of(front),
{
    assert(front.push(index).drop_last() =~= front);
}

/// What a foreign key does on a delete, name by name and in any ASCII case;
/// any other name stands for no action.
pub proof fn lemma_foreign_key_actions(name: Seq<char>)
    ensures
        action_of(name) is Cascade <==> text::spells(name, "cascade"@),
        action_of(name) is SetNull <==> text::spells(name, "set null"@),
        action_of(name) is SetDefault <==> text::spells(name, "set default"@),
        action_of(name) is Restrict <==> text::spells(name, "restrict"@),
{
    reveal_strlit("cascade");
    reveal_strlit("set null");
    reveal_strlit("set default");
    reveal_strlit("restrict");
    text::lemma_lower_spells(name, "cascade"@);
    text::lemma_lower_spells(name, "set null"@);
    text::lemma_lower_spells(name, "set default"@);
    text::lemma_lower_spells(name, "restrict"@);
    assert("cascade"@.len() == 7 && "set null"@.len() == 8 && "set default"@.len() == 11
        && "restrict"@.len() == 8);
    assert("set null"@[0] == 's' && "restrict"@[0] == 'r');
}

/// What a row of `PRAGMA foreign_key_list` says, cell by cell: the key, the
/// place in it, the table and the column that are referred to, the column that
/// refers, and what a delete does. Where no column is named the reference is
/// empty.
pub proof fn lemma_foreign_key_rows(row: RowView)
    ensures
        key_row(row) is Ok <==> (number_in(row, 0) is Some && number_in(row, 1) is Some && text_in(
            row,
            2,
        ) is Some && text_in(row, 3) is Some && text_in(row, 6) is Some),
        key_row(row) is Ok ==> {
            let k = key_row(row)->Ok_0;
            &&& Some(k.id as int) == number_in(row, 0)
            &&& Some(k.sequence as int) == number_in(row, 1)
            &&& Some(k.ref_table) == text_in(row, 2)
            &&& Some(k.column) == text_in(row, 3)
            &&& text_in(row, 4) is Some ==> k.ref_column == text_in(row, 4)->Some_0
            &&& text_in(row, 4) is None ==> k.ref_column.len() == 0
            &&& k.action == action_of(text_in(row, 6)->Some_0)
        },
{
    lemma_catalog_cells(row, 0);
    lemma_catalog_cells(row, 1);
    lemma_catalog_cells(row, 2);
    lemma_catalog_cells(row, 3);
    lemma_catalog_cells(row, 4);
    lemma_catalog_cells(row, 6);
}

/// The parts that groups hold for a key.
pub open spec fn parts_held(groups: Seq<KeyGroup>, id: i64) -> vstd::multiset::Multiset<KeyPart>
    decreases groups.len(),
{
    if groups.len() == 0 {
        vstd::multiset::Multiset::empty()
    } else if groups.last().id == id {
        parts_held(groups.drop_last(), id).add(groups.last().parts.to_multiset())
    } else {
        parts_held(groups.drop_last(), id)
    }
}

/// The parts that rows give for a key.
pub open spec fn parts_given(all: Seq<RowView>, id: i64) -> vstd::multiset::Multiset<KeyPart>
    decreases all.len(),
{
    if all.len() == 0 {
        vstd::multiset::Multiset::empty()
    } else {
        let row = key_row(all.last())->Ok_0;
        let head = parts_given(all.drop_last(), id);
        if row.id == id {
            head.insert(
                KeyPart {
                    sequence: row.sequence,
                    column: row.column,
                    ref_column: row.ref_column,
                },
            )
        } else {
            head
        }
    }
}

proof fn lemma_part_kept(parts: Seq<KeyPart>, part: KeyPart)
    ensures
        part_inserted(parts, part).to_multiset() =~= parts.to_multiset().insert(part),
    decreases parts.len(),
{
    broadcast use vstd::seq_lib::group_to_multiset_ensures;

    if !(parts.len() == 0 || parts.last().sequence <= part.sequence) {
        lemma_part_kept(parts.drop_last(), part);
        assert(parts =~= parts.drop_last().push(parts.last()));
    }
}

proof fn lemma_row_kept(groups: Seq<KeyGroup>, row: KeyRow, id: i64)
    ensures
        parts_held(row_grouped(groups, row), id) =~= if row.id == id {
            parts_held(groups, id).insert(part_of(row))
        } else {
            parts_held(groups, id)
        },
    decreases groups.len(),
{
    broadcast use vstd::seq_lib::group_to_multiset_ensures;

    let all = row_grouped(groups, row);
    if groups.len() == 0 || groups.last().id < row.id {
        assert(all.drop_last() =~= groups);
        let one = seq![part_of(row)];
        assert(one =~= Seq::<KeyPart>::empty().push(part_of(row)));
    } else if groups.last().id == row.id {
        assert(all.drop_last() =~= groups.drop_last());
        lemma_part_kept(groups.last().parts, part_of(row));
    } else {
        lemma_row_kept(groups.drop_last(), row, id);
        assert(all.drop_last() =~= row_grouped(groups.drop_last(), row));
    }
}

/// Which table a group refers to and what it does on a delete, by its key.
pub open spec fn heads(groups: Seq<KeyGroup>) -> Map<i64, (Seq<char>, ForeignKeyAction)>
    decreases groups.len(),
{
    if groups.len() == 0 {
        Map::empty()
    } else {
        heads(groups.drop_last()).insert(
            groups.last().id,
            (groups.last().ref_table, groups.last().on_delete),
        )
    }
}

/// What the first row of each key says of the table and of deletes.
pub open spec fn first_heads(all: Seq<RowView>) -> Map<i64, (Seq<char>, ForeignKeyAction)>
    decreases all.len(),
{
    if all.len() == 0 {
        Map::empty()
    } else {
        let row = key_row(all.last())->Ok_0;
        let head = first_heads(all.drop_last());
        if head.contains_key(row.id) {
            head
        } else {
            head.insert(row.id, (row.ref_table, row.action))
        }
    }
}

proof fn lemma_heads_named(groups: Seq<KeyGroup>, id: i64)
    ensures
        heads(groups).contains_key(id) <==> exists|i: int|
            0 <= i < groups.len() && (#[trigger] groups[i]).id == id,
    decreases groups.len(),
{
    if groups.len() > 0 {
        let less = groups.drop_last();
        lemma_heads_named(less, id);
        if heads(less).contains_key(id) {
            let i = choose|i: int| 0 <= i < less.len() && (#[trigger] less[i]).id == id;
            assert(groups[i].id == id);
        }
        if groups.last().id == id {
            assert(groups[groups.len() - 1].id == id);
        }
        if exists|i: int| 0 <= i < groups.len() && (#[trigger] groups[i]).id == id {
            let i = choose|i: int| 0 <= i < groups.len() && (#[trigger] groups[i]).id == id;
            if i < less.len() {
                assert(less[i].id == id);
            }
        }
    }
}

proof fn lemma_head_kept(groups: Seq<KeyGroup>, row: KeyRow)
    requires
        keys_in_order(groups),
    ensures
        heads(row_grouped(groups, row)) =~= if heads(groups).contains_key(row.id) {
            heads(groups)
        } else {
            heads(groups).insert(row.id, (row.ref_table, row.action))
        },
    decreases groups.len(),
{
    let all = row_grouped(groups, row);
    lemma_heads_named(groups, row.id);
    if groups.len() == 0 || groups.last().id < row.id {
        assert(all.drop_last() =~= groups);
        if heads(groups).contains_key(row.id) {
            let i = choose|i: int| 0 <= i < groups.len() && (#[trigger] groups[i]).id == row.id;
            assert(groups[i].id <= groups[groups.len() - 1].id);
        }
    } else if groups.last().id == row.id {
        assert(groups[groups.len() - 1].id == row.id);
        assert(all.drop_last() =~= groups.drop_last());
    } else {
        let less = groups.drop_last();
        assert(keys_in_order(less));
        lemma_head_kept(less, row);
        assert(all.drop_last() =~= row_grouped(less, row));
    }
}

/// Foreign keys hold every row once: the columns of each key are those that
/// its rows give, and its table and its action are those of its first row.
pub proof fn lemma_foreign_keys_hold_every_row(all: Seq<RowView>, id: i64)
    requires
        grouped(all) is Ok,
    ensures
        parts_held(grouped(all)->Ok_0, id) =~= parts_given(all, id),
        heads(grouped(all)->Ok_0) =~= first_heads(all),
    decreases all.len(),
{
    if all.len() > 0 {
        lemma_foreign_keys_hold_every_row(all.drop_last(), id);
        lemma_foreign_keys_in_order(all.drop_last());
        let groups = grouped(all.drop_last())->Ok_0;
        lemma_row_kept(groups, key_row(all.last())->Ok_0, id);
        lemma_head_kept(groups, key_row(all.last())->Ok_0);
    }
}

/// What is told of a foreign key is its group: the columns and what they refer
/// to stand in the same places.
pub proof fn lemma_foreign_keys_are_told(all: Seq<RowView>)
    ensures
        foreign_keys_of(all) is Ok <==> forall|i: int|
            0 <= i < all.len() ==> key_row(#[trigger] all[i]) is Ok,
        foreign_keys_of(all) is Ok ==> {
            let keys = foreign_keys_of(all)->Ok_0;
            let groups = grouped(all)->Ok_0;
            &&& grouped(all) is Ok
            &&& keys.len() == groups.len()
            &&& forall|i: int|
                0 <= i < keys.len() ==> {
                    let key = #[trigger] keys[i];
                    &&& key.ref_table == groups[i].ref_table
                    &&& key.on_delete == groups[i].on_delete
                    &&& key.columns.len() == groups[i].parts.len()
                    &&& key.ref_columns.len() == groups[i].parts.len()
                    &&& forall|k: int|
                        0 <= k < groups[i].parts.len() ==> key.columns[k] == (
                        #[trigger] groups[i].parts[k]).column && key.ref_columns[k]
                            == groups[i].parts[k].ref_column
                }
        },
    decreases all.len(),
{
    if all.len() > 0 {
        let head = all.drop_last();
        lemma_foreign_keys_are_told(head);
        if !(grouped(head) is Ok) {
            let i = choose|i: int| 0 <= i < head.len() && !(key_row(#[trigger] head[i]) is Ok);
            assert(all[i] == head[i]);
        } else if key_row(all.last()) is Ok {
            assert forall|i: int| 0 <= i < all.len() implies key_row(#[trigger] all[i]) is Ok by {
                if i < head.len() {
                    assert(head[i] == all[i]);
                }
            }
        } else {
            assert(!(key_row(all[all.len() - 1]) is Ok));
        }
    }
}

/// The number of rows of a table is the integer that counting gives, and none
/// where that lies below zero.
pub proof fn lemma_counts(all: Seq<RowView>)
    ensures
        counted(all) is Ok <==> all.len() > 0 && number_in(all[0], 0) is Some,
        counted(all) is Ok ==> {
            let n = number_in(all[0], 0)->Some_0;
            counted(all)->Ok_0 == if n < 0 {
                0
            } else {
                n
            }
        },
{
    if all.len() > 0 {
        lemma_catalog_cells(all[0], 0);
    }
}

} // verus!
