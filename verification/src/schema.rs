//! Backend-neutral local schema inspection.
//!
//! This is the portable catalog surface. Callers must not query
//! `sqlite_master` or `PRAGMA table_info`; those names are SQLite-specific.

use vstd::prelude::*;

use crate::text;
use crate::value::{Value, ValueView};

verus! {

/// Snapshot of the local store's caller-visible schema.
#[derive(Debug, Clone, PartialEq, Eq)]
pub struct StoreSchema {
    pub format_version: u32,
    pub tables: Vec<TableSchema>,
    pub indexes: Vec<IndexSchema>,
}

/// The sum of the row counts of the tables.
pub open spec fn total_rows(tables: Seq<TableSchema>) -> nat
    decreases tables.len(),
{
    if tables.len() == 0 {
        0
    } else {
        total_rows(tables.drop_last()) + tables.last().row_count as nat
    }
}

/// Whether a table's name is the name asked for, or that name in lower case.
pub open spec fn answers_to(table: TableSchema, name: Seq<char>) -> bool {
    table.name@ == text::lower(name) || table.name@ == name
}

impl StoreSchema {
    /// The first table with this name, or with this name in lower case.
    pub fn table(&self, name: &str) -> (r: Option<&TableSchema>)
        ensures
            match r {
                Some(table) => exists|i: int|
                    #![trigger self.tables@[i]]
                    0 <= i < self.tables@.len() && *table == self.tables@[i] && answers_to(
                        self.tables@[i],
                        name@,
                    ) && forall|j: int|
                        0 <= j < i ==> !answers_to(#[trigger] self.tables@[j], name@),
                None => forall|j: int|
                    0 <= j < self.tables@.len() ==> !answers_to(
                        #[trigger] self.tables@[j],
                        name@,
                    ),
            },
    {
        let needle: String = text::to_lower(name);
        let mut i: usize = 0;
        while i < self.tables.len()
            invariant
                i <= self.tables@.len(),
                needle@ == text::lower(name@),
                forall|j: int| 0 <= j < i ==> !answers_to(#[trigger] self.tables@[j], name@),
            decreases self.tables@.len() - i,
        {
            if text::str_eq(self.tables[i].name.as_str(), needle.as_str()) || text::str_eq(
                self.tables[i].name.as_str(),
                name,
            ) {
                return Some(&self.tables[i]);
            }
            i = i + 1;
        }
        None
    }

    /// The number of rows of all tables.
    pub fn row_count(&self) -> (r: u64)
        requires
            total_rows(self.tables@) <= u64::MAX,
        ensures
            r == total_rows(self.tables@),
    {
        let mut sum: u64 = 0;
        let mut i: usize = 0;
        assert(self.tables@.take(0) =~= Seq::<TableSchema>::empty());
        while i < self.tables.len()
            invariant
                i <= self.tables@.len(),
                total_rows(self.tables@) <= u64::MAX,
                sum == total_rows(self.tables@.take(i as int)),
            decreases self.tables@.len() - i,
        {
            proof {
                let next = self.tables@.take(i + 1);
                assert(next.drop_last() =~= self.tables@.take(i as int));
                assert(next.last() == self.tables@[i as int]);
                lemma_total_rows_grows(self.tables@, i + 1);
            }
            sum = sum + self.tables[i].row_count;
            i = i + 1;
        }
        assert(self.tables@.take(i as int) =~= self.tables@);
        sum
    }
}

proof fn lemma_total_rows_grows(tables: Seq<TableSchema>, n: int)
    requires
        0 <= n <= tables.len(),
    ensures
        total_rows(tables.take(n)) <= total_rows(tables),
    decreases tables.len() - n,
{
    if n < tables.len() {
        lemma_total_rows_grows(tables, n + 1);
        assert(tables.take(n + 1).drop_last() =~= tables.take(n));
    } else {
        assert(tables.take(n) =~= tables);
    }
}

/// One table in the local snapshot.
#[derive(Debug, Clone, PartialEq, Eq)]
pub struct TableSchema {
    pub name: String,
    pub columns: Vec<ColumnSchema>,
    pub unique_constraints: Vec<Vec<String>>,
    pub foreign_keys: Vec<ForeignKeySchema>,
    pub row_count: u64,
}

/// One column, including nullability and recorded default.
#[derive(Debug, Clone, PartialEq, Eq)]
pub struct ColumnSchema {
    pub name: String,
    pub primary_key: bool,
    pub unique: bool,
    pub not_null: bool,
    pub default: Option<Value>,
}

/// What a [`ColumnSchema`] says.
#[verifier::ext_equal]
pub ghost struct ColumnView {
    pub name: Seq<char>,
    pub primary_key: bool,
    pub unique: bool,
    pub not_null: bool,
    pub default: Option<ValueView>,
}

impl ColumnSchema {
    pub open spec fn view(self) -> ColumnView {
        ColumnView {
            name: self.name@,
            primary_key: self.primary_key,
            unique: self.unique,
            not_null: self.not_null,
            default: match self.default {
                Some(v) => Some(v@),
                None => None,
            },
        }
    }
}

/// A structural index. This is not a query planner entry.
#[derive(Debug, Clone, PartialEq, Eq)]
pub struct IndexSchema {
    pub name: String,
    pub table: String,
    pub columns: Vec<String>,
    pub unique: bool,
}

/// What an [`IndexSchema`] says.
#[verifier::ext_equal]
pub ghost struct IndexView {
    pub name: Seq<char>,
    pub table: Seq<char>,
    pub columns: Seq<Seq<char>>,
    pub unique: bool,
}

impl IndexSchema {
    pub open spec fn view(self) -> IndexView {
        IndexView {
            name: self.name@,
            table: self.table@,
            columns: crate::rows::texts(self.columns@),
            unique: self.unique,
        }
    }
}

/// A recorded foreign key.
#[derive(Debug, Clone, PartialEq, Eq)]
pub struct ForeignKeySchema {
    pub columns: Vec<String>,
    pub ref_table: String,
    pub ref_columns: Vec<String>,
    pub on_delete: ForeignKeyAction,
}

/// What a [`ForeignKeySchema`] says.
#[verifier::ext_equal]
pub ghost struct ForeignKeyView {
    pub columns: Seq<Seq<char>>,
    pub ref_table: Seq<char>,
    pub ref_columns: Seq<Seq<char>>,
    pub on_delete: ForeignKeyAction,
}

impl ForeignKeySchema {
    pub open spec fn view(self) -> ForeignKeyView {
        ForeignKeyView {
            columns: crate::rows::texts(self.columns@),
            ref_table: self.ref_table@,
            ref_columns: crate::rows::texts(self.ref_columns@),
            on_delete: self.on_delete,
        }
    }
}

/// Delete action stored in the snapshot.
#[derive(Debug, Clone, Copy, PartialEq, Eq, Structural)]
pub enum ForeignKeyAction {
    Restrict,
    Cascade,
    SetNull,
    SetDefault,
    NoAction,
}

/// A table answers to its own name, and, where that is in lower case, to every
/// way of writing it in ASCII letters; to no other name.
pub proof fn lemma_table_names(table: TableSchema, name: Seq<char>)
    ensures
        table.name@ == name ==> answers_to(table, name),
        text::spells(name, table.name@) ==> answers_to(table, name),
        answers_to(table, name) ==> table.name@ == name || text::spells(name, table.name@),
{
    if text::spells(name, table.name@) {
        assert forall|i: int| 0 <= i < table.name@.len() implies !('A' <= #[trigger] table.name@[i]
            <= 'Z') by {
            assert(name[i] == table.name@[i] || 'a' <= table.name@[i] <= 'z');
        }
        text::lemma_lower_spells(name, table.name@);
    }
    if table.name@ == text::lower(name) {
        assert forall|i: int| 0 <= i < table.name@.len() implies !('A' <= #[trigger] table.name@[i]
            <= 'Z') by {
            assert(text::lower(name)[i] == text::lower_char(name[i]));
            text::lemma_lower_case(name[i], name[i]);
        }
        text::lemma_lower_spells(name, table.name@);
    }
}

/// The rows of a store are the rows of its tables together.
pub proof fn lemma_total_rows(tables: Seq<TableSchema>, table: TableSchema)
    ensures
        total_rows(Seq::empty()) == 0,
        total_rows(tables.push(table)) == total_rows(tables) + table.row_count,
{
    assert(tables.push(table).drop_last() =~= tables);
}

} // verus!
