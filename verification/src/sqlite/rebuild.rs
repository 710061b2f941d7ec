//! Rebuilding a database from what can be read of it.
//!
//! The tables are created and filled first; indexes, views and triggers come
//! once the rows are in, so that no trigger fires on a copied row.

use vstd::prelude::*;

use crate::contract::IntegrityReport;
use crate::error::{AdapterErrorKind, DactylError, ErrorView};
use crate::parameter;
use crate::parameter::{Parameter, ParameterView};
use crate::rows;
use crate::rows::{Row, RowView, Rows};
use crate::sqlite::cells;
use crate::sqlite::cells::RawCell;
use crate::sqlite::inspect;
use crate::sqlite::maintenance;
use crate::sqlite::maintenance::ReportView;
use crate::sqlite::recovery::RebuildResult;
use crate::sqlite::statement;
use crate::sqlite::statement::SqliteFailure;
use crate::text;

verus! {

// ---------------------------------------------------------------------------
// Copying rows
// ---------------------------------------------------------------------------

/// The columns of a table, quoted.
pub open spec fn quoted_columns(columns: Seq<Seq<char>>) -> Seq<Seq<char>> {
    columns.map_values(|name: Seq<char>| statement::quoted_identifier(name))
}

/// One placeholder for each column.
pub open spec fn placeholders(count: nat) -> Seq<Seq<char>> {
    Seq::new(count, |i: int| "?"@)
}

/// The statement that reads the rows of a table, in the order of the table
/// itself.
pub open spec fn select_rows(table: Seq<char>, columns: Seq<Seq<char>>) -> Seq<char> {
    "SELECT "@ + text::joined(quoted_columns(columns), ", "@) + " FROM "@
        + statement::quoted_identifier(table) + " NOT INDEXED"@
}

/// The statement that inserts a row into a table.
pub open spec fn insert_row(table: Seq<char>, columns: Seq<Seq<char>>) -> Seq<char> {
    "INSERT INTO "@ + statement::quoted_identifier(table) + " ("@ + text::joined(
        quoted_columns(columns),
        ", "@,
    ) + ") VALUES ("@ + text::joined(placeholders(columns.len()), ", "@) + ")"@
}

/// The statements that copy a table: one that reads its rows, and one that
/// inserts a row.
#[derive(Debug, Clone, PartialEq, Eq)]
pub struct CopyPlan {
    pub select_sql: String,
    pub insert_sql: String,
}

fn quote_all(columns: &Vec<String>) -> (r: Vec<String>)
    ensures
        rows::texts(r@) == quoted_columns(rows::texts(columns@)),
{
    let mut out: Vec<String> = Vec::new();
    let mut i: usize = 0;
    while i < columns.len()
        invariant
            i <= columns@.len(),
            out@.len() == i,
            forall|k: int|
                0 <= k < i ==> (#[trigger] out@[k])@ == statement::quoted_identifier(
                    columns@[k]@,
                ),
        decreases columns@.len() - i,
    {
        out.push(statement::quote_identifier(columns[i].as_str()));
        i = i + 1;
    }
    assert(rows::texts(out@) =~= quoted_columns(rows::texts(columns@)));
    out
}

fn placeholder_list(count: usize) -> (r: Vec<String>)
    ensures
        rows::texts(r@) == placeholders(count as nat),
{
    let mut out: Vec<String> = Vec::new();
    let mut i: usize = 0;
    while i < count
        invariant
            i <= count,
            out@.len() == i,
            forall|k: int| 0 <= k < i ==> (#[trigger] out@[k])@ == "?"@,
        decreases count - i,
    {
        out.push("?".to_string());
        i = i + 1;
    }
    assert(rows::texts(out@) =~= placeholders(count as nat));
    out
}

/// The statements that copy a table, from the rows of its `table_info`; none
/// where it has no columns.
pub fn plan_copy(table: &str, info: &[Row]) -> (r: Result<Option<CopyPlan>, DactylError>)
    ensures
        match inspect::texts_at(rows::row_views(info@), 1) {
            Err(e) => r is Err && r->Err_0@ == e,
            Ok(columns) => {
                &&& r is Ok
                &&& r->Ok_0 is None <==> columns.len() == 0
                &&& r->Ok_0 matches Some(plan) ==> plan.select_sql@ == select_rows(table@, columns)
                    && plan.insert_sql@ == insert_row(table@, columns)
            },
        },
{
    let columns: Vec<String> = match inspect::row_strings(info, 1) {
        Ok(columns) => columns,
        Err(e) => {
            return Err(e);
        },
    };
    assert(rows::texts(columns@).len() == columns@.len());
    if columns.len() == 0 {
        return Ok(None);
    }
    let listed: String = text::join(&quote_all(&columns), ", ");
    let marks: String = text::join(&placeholder_list(columns.len()), ", ");
    let name: String = statement::quote_identifier(table);
    let select_sql: String = "SELECT ".to_string().concat(listed.as_str()).concat(
        " FROM ",
    ).concat(name.as_str()).concat(" NOT INDEXED");
    let insert_sql: String = "INSERT INTO ".to_string().concat(name.as_str()).concat(" (").concat(
        listed.as_str(),
    ).concat(") VALUES (").concat(marks.as_str()).concat(")");
    Ok(Some(CopyPlan { select_sql, insert_sql }))
}

/// The parameter that a column of a row is inserted as.
pub open spec fn copied(cell: RawCell) -> Result<ParameterView, ErrorView> {
    match cells::normalized(cell) {
        Err(e) => Err(e),
        Ok(v) => parameter::parameter_of_cell(v),
    }
}

/// The parameters that a row is inserted with, from left to right; the first
/// column that cannot pass is reported.
pub open spec fn copied_row(row: Seq<RawCell>) -> Result<Seq<ParameterView>, ErrorView>
    decreases row.len(),
{
    if row.len() == 0 {
        Ok(Seq::empty())
    } else {
        match copied_row(row.drop_last()) {
            Err(e) => Err(e),
            Ok(head) => if row.len() - 1 > i32::MAX {
                Err(cells::value_fault("too many SQLite table columns"@))
            } else {
                match copied(row.last()) {
                    Err(e) => Err(e),
                    Ok(p) => Ok(head.push(p)),
                }
            },
        }
    }
}

proof fn lemma_first_column_fault(row: Seq<RawCell>, i: int)
    requires
        0 <= i < row.len(),
        copied_row(row.take(i + 1)) is Err,
    ensures
        copied_row(row) == copied_row(row.take(i + 1)),
    decreases row.len(),
{
    if i + 1 == row.len() {
        assert(row.take(i + 1) =~= row);
    } else {
        assert(row.drop_last().take(i + 1) =~= row.take(i + 1));
        lemma_first_column_fault(row.drop_last(), i);
    }
}

fn copy_cell(cell: RawCell) -> (r: Result<Parameter, DactylError>)
    ensures
        match copied(cell) {
            Ok(p) => r is Ok && r->Ok_0@ == p,
            Err(e) => r is Err && r->Err_0@ == e,
        },
{
    match cells::normalize_cell(cell) {
        Ok(value) => parameter::parameter_from_value(value),
        Err(e) => Err(e),
    }
}

/// The parameters that a row is inserted with.
pub fn copy_row(row: Vec<RawCell>) -> (r: Result<Vec<Parameter>, DactylError>)
    ensures
        match copied_row(row@) {
            Ok(params) => r is Ok && parameter::parameter_views(r->Ok_0@) == params,
            Err(e) => r is Err && r->Err_0@ == e,
        },
{
    let mut out: Vec<Parameter> = Vec::new();
    assert(parameter::parameter_views(out@) =~= Seq::<ParameterView>::empty());
    assert(row@.take(0) =~= Seq::<RawCell>::empty());
    for cell in it: row
        invariant
            it.seq() == row@,
            out@.len() == it.index(),
            copied_row(row@.take(it.index() as int)) == Ok::<Seq<ParameterView>, ErrorView>(
                parameter::parameter_views(out@),
            ),
    {
        let ghost i = it.index() as int;
        let ghost before = parameter::parameter_views(out@);
        proof {
            assert(row@.take(i + 1).drop_last() =~= row@.take(i));
            assert(row@.take(i + 1).last() == cell);
        }
        if out.len() > i32::MAX as usize {
            proof {
                lemma_first_column_fault(row@, i);
            }
            return Err(
                DactylError::adapter(AdapterErrorKind::Value, "too many SQLite table columns"),
            );
        }
        match copy_cell(cell) {
            Ok(p) => {
                out.push(p);
                assert(parameter::parameter_views(out@) =~= before.push(p@));
            },
            Err(e) => {
                proof {
                    lemma_first_column_fault(row@, i);
                }
                return Err(e);
            },
        }
    }
    assert(row@.take(row@.len() as int) =~= row@);
    Ok(out)
}

/// A copied column reads back as the column it was copied from.
pub proof fn lemma_copied_cell_is_unchanged(cell: RawCell)
    requires
        cells::normalized(cell) is Ok,
    ensures
        copied(cell) is Ok,
        cells::stored(copied(cell)->Ok_0) == cells::normalized(cell)->Ok_0,
{
    if let RawCell::Blob(b) = cell {
        crate::value::lemma_blob_round_trip(b@);
    }
}

/// What is to be done next to copy a table.
#[derive(Debug, Clone, PartialEq)]
pub enum CopyStep {
    /// Ask the source this about the table.
    Describe(String),
    /// Take the next row that this statement gives on the source.
    Fetch(String),
    /// Run this statement on the rebuilt database with these parameters.
    Insert(String, Vec<Parameter>),
    /// Nothing: the table is copied.
    Finished,
    /// Nothing: the copy failed.
    Failed,
}

/// What a [`CopyStep`] says.
pub ghost enum CopyStepView {
    Describe(Seq<char>),
    Fetch(Seq<char>),
    Insert(Seq<char>, Seq<ParameterView>),
    Finished,
    Failed,
}

impl CopyStep {
    pub open spec fn view(self) -> CopyStepView {
        match self {
            CopyStep::Describe(sql) => CopyStepView::Describe(sql@),
            CopyStep::Fetch(sql) => CopyStepView::Fetch(sql@),
            CopyStep::Insert(sql, params) => CopyStepView::Insert(
                sql@,
                parameter::parameter_views(params@),
            ),
            CopyStep::Finished => CopyStepView::Finished,
            CopyStep::Failed => CopyStepView::Failed,
        }
    }
}

/// How a step of a copy went.
#[derive(Debug)]
pub enum CopyOutcome {
    /// The rows that describe the columns of the table.
    Described(Rows),
    /// The next row.
    Row(Vec<RawCell>),
    /// There is no further row.
    End,
    /// The row was inserted.
    Inserted,
    /// The step failed.
    Error(DactylError),
}

/// What a [`CopyOutcome`] says.
pub ghost enum CopyOutcomeView {
    Described(Seq<RowView>),
    Row(Seq<RawCell>),
    End,
    Inserted,
    Error(ErrorView),
}

impl CopyOutcome {
    pub open spec fn view(self) -> CopyOutcomeView {
        match self {
            CopyOutcome::Described(found) => CopyOutcomeView::Described(rows::row_views(found.0@)),
            CopyOutcome::Row(row) => CopyOutcomeView::Row(row@),
            CopyOutcome::End => CopyOutcomeView::End,
            CopyOutcome::Inserted => CopyOutcomeView::Inserted,
            CopyOutcome::Error(e) => CopyOutcomeView::Error(e@),
        }
    }
}

/// Whether a step of a copy can go this way.
pub open spec fn copy_fits(step: CopyStepView, outcome: CopyOutcomeView) -> bool {
    match step {
        CopyStepView::Describe(_) => outcome is Described || outcome is Error,
        CopyStepView::Fetch(_) => outcome is Row || outcome is End || outcome is Error,
        CopyStepView::Insert(..) => outcome is Inserted || outcome is Error,
        CopyStepView::Finished | CopyStepView::Failed => false,
    }
}

/// Where the copy of a table stands.
pub ghost struct CopyView {
    pub table: Seq<char>,
    pub columns: Seq<Seq<char>>,
    pub next: CopyStepView,
    pub error: Option<ErrorView>,
}

impl CopyView {
    pub open spec fn failed(self, e: ErrorView) -> CopyView {
        CopyView { next: CopyStepView::Failed, error: Some(e), ..self }
    }

    /// The copy about to take the next row.
    pub open spec fn fetching(self) -> CopyView {
        CopyView { next: CopyStepView::Fetch(select_rows(self.table, self.columns)), ..self }
    }

    /// The copy once its step went one way. A table without columns has
    /// nothing to copy.
    pub open spec fn after(self, outcome: CopyOutcomeView) -> CopyView {
        match outcome {
            CopyOutcomeView::Described(info) => match inspect::texts_at(info, 1) {
                Err(e) => self.failed(e),
                Ok(columns) => if columns.len() == 0 {
                    CopyView { next: CopyStepView::Finished, ..self }
                } else {
                    CopyView { columns, ..self }.fetching()
                },
            },
            CopyOutcomeView::Row(row) => match copied_row(row) {
                Err(e) => self.failed(e),
                Ok(params) => CopyView {
                    next: CopyStepView::Insert(insert_row(self.table, self.columns), params),
                    ..self
                },
            },
            CopyOutcomeView::End => CopyView { next: CopyStepView::Finished, ..self },
            CopyOutcomeView::Inserted => self.fetching(),
            CopyOutcomeView::Error(e) => self.failed(e),
        }
    }
}

/// The copy of a table about to start.
pub open spec fn copy_started(table: Seq<char>) -> CopyView {
    CopyView {
        table,
        columns: Seq::empty(),
        next: CopyStepView::Describe(inspect::pragma_on("table_info"@, table)),
        error: None,
    }
}

/// The copy of a table: each row is taken from the source and inserted into
/// the rebuilt database before the next one is taken.
pub struct TableCopy {
    table: String,
    columns: Ghost<Seq<Seq<char>>>,
    plan: Option<CopyPlan>,
    row: Option<Vec<Parameter>>,
    finished: bool,
    error: Option<DactylError>,
}

impl TableCopy {
    pub closed spec fn view(self) -> CopyView {
        CopyView {
            table: self.table@,
            columns: self.columns@,
            next: if self.error is Some {
                CopyStepView::Failed
            } else if self.finished {
                CopyStepView::Finished
            } else {
                match self.plan {
                    None => CopyStepView::Describe(
                        inspect::pragma_on("table_info"@, self.table@),
                    ),
                    Some(plan) => match self.row {
                        None => CopyStepView::Fetch(plan.select_sql@),
                        Some(params) => CopyStepView::Insert(
                            plan.insert_sql@,
                            parameter::parameter_views(params@),
                        ),
                    },
                }
            },
            error: match self.error {
                Some(e) => Some(e@),
                None => None,
            },
        }
    }

    #[verifier::type_invariant]
    closed spec fn well_formed(self) -> bool {
        self.plan matches Some(plan) ==> plan.select_sql@ == select_rows(
            self.table@,
            self.columns@,
        ) && plan.insert_sql@ == insert_row(self.table@, self.columns@)
    }

    /// The copy of a table about to start.
    pub fn new(table: &str) -> (r: Self)
        ensures
            r@ == copy_started(table@),
    {
        TableCopy {
            table: table.to_string(),
            columns: Ghost(Seq::empty()),
            plan: None,
            row: None,
            finished: false,
            error: None,
        }
    }

    /// What is to be done next.
    pub fn step(&self) -> (r: CopyStep)
        ensures
            r@ == self@.next,
    {
        if self.error.is_some() {
            return CopyStep::Failed;
        }
        if self.finished {
            return CopyStep::Finished;
        }
        match &self.plan {
            None => CopyStep::Describe(inspect::pragma_sql("table_info", self.table.as_str())),
            Some(plan) => match &self.row {
                None => CopyStep::Fetch(plan.select_sql.clone()),
                Some(params) => CopyStep::Insert(
                    plan.insert_sql.clone(),
                    parameter::duplicate_all(params.as_slice()),
                ),
            },
        }
    }

    fn fail(self, e: DactylError) -> (r: Self)
        ensures
            r@ == self@.failed(e@),
    {
        proof {
            use_type_invariant(&self);
        }
        TableCopy { error: Some(e), ..self }
    }

    /// Take note of how the step went.
    pub fn advance(self, outcome: CopyOutcome) -> (r: Self)
        requires
            copy_fits(self@.next, outcome@),
        ensures
            r@ == self@.after(outcome@),
    {
        proof {
            use_type_invariant(&self);
        }
        match outcome {
            CopyOutcome::Described(found) => match plan_copy(
                self.table.as_str(),
                found.as_slice(),
            ) {
                Err(e) => self.fail(e),
                Ok(None) => TableCopy { finished: true, ..self },
                Ok(Some(plan)) => TableCopy {
                    columns: Ghost(inspect::texts_at(rows::row_views(found.0@), 1)->Ok_0),
                    plan: Some(plan),
                    row: None,
                    ..self
                },
            },
            CopyOutcome::Row(row) => match copy_row(row) {
                Err(e) => self.fail(e),
                Ok(params) => TableCopy { row: Some(params), ..self },
            },
            CopyOutcome::End => TableCopy { finished: true, ..self },
            CopyOutcome::Inserted => TableCopy { row: None, ..self },
            CopyOutcome::Error(e) => self.fail(e),
        }
    }

    /// Why the copy failed, if it did.
    pub fn into_failure(self) -> (r: Option<DactylError>)
        requires
            self@.next is Finished || self@.next is Failed,
        ensures
            match self@.error {
                Some(e) => r is Some && r->Some_0@ == e,
                None => r is None,
            },
    {
        self.error
    }
}

/// Where the copy of a table stands once its steps went these ways, up to its
/// end.
pub open spec fn copy_after(table: Seq<char>, outcomes: Seq<CopyOutcomeView>) -> CopyView
    decreases outcomes.len(),
{
    if outcomes.len() == 0 {
        copy_started(table)
    } else {
        let v = copy_after(table, outcomes.drop_last());
        if v.next is Finished || v.next is Failed {
            v
        } else {
            v.after(outcomes.last())
        }
    }
}

/// Whether each step of a copy can go the way it went.
pub open spec fn copies_fit(table: Seq<char>, outcomes: Seq<CopyOutcomeView>) -> bool
    decreases outcomes.len(),
{
    outcomes.len() > 0 ==> {
        let front = outcomes.drop_last();
        copies_fit(table, front) && copy_fits(copy_after(table, front).next, outcomes.last())
    }
}

/// The rows that a copy took from the source.
pub open spec fn taken_rows(outcomes: Seq<CopyOutcomeView>) -> Seq<Seq<RawCell>>
    decreases outcomes.len(),
{
    if outcomes.len() == 0 {
        Seq::empty()
    } else {
        match outcomes.last() {
            CopyOutcomeView::Row(row) => taken_rows(outcomes.drop_last()).push(row),
            _ => taken_rows(outcomes.drop_last()),
        }
    }
}

/// The parameters of the rows that a copy handed out for insertion.
pub open spec fn inserted_rows(table: Seq<char>, outcomes: Seq<CopyOutcomeView>) -> Seq<
    Seq<ParameterView>,
>
    decreases outcomes.len(),
{
    if outcomes.len() == 0 {
        Seq::empty()
    } else {
        let front = outcomes.drop_last();
        match copy_after(table, front).next {
            CopyStepView::Insert(_, params) => inserted_rows(table, front).push(params),
            _ => inserted_rows(table, front),
        }
    }
}

/// Whether rows were handed out for insertion as they were taken.
pub open spec fn inserted_as_taken(
    taken: Seq<Seq<RawCell>>,
    inserted: Seq<Seq<ParameterView>>,
) -> bool {
    &&& taken.len() == inserted.len()
    &&& forall|i: int|
        0 <= i < taken.len() ==> copied_row(taken[i]) == Ok::<Seq<ParameterView>, ErrorView>(
            #[trigger] inserted[i],
        )
}

proof fn lemma_copy_run(table: Seq<char>, outcomes: Seq<CopyOutcomeView>)
    requires
        copies_fit(table, outcomes),
    ensures
        ({
            let v = copy_after(table, outcomes);
            let taken = taken_rows(outcomes);
            let inserted = inserted_rows(table, outcomes);
            &&& v.table == table
            &&& v.next matches CopyStepView::Insert(_, params) ==> taken.len() > 0 && copied_row(
                taken.last(),
            ) == Ok::<Seq<ParameterView>, ErrorView>(params) && inserted_as_taken(
                taken.drop_last(),
                inserted,
            )
            &&& v.next is Describe || v.next is Fetch || v.next is Finished ==> inserted_as_taken(
                taken,
                inserted,
            )
        }),
    decreases outcomes.len(),
{
    if outcomes.len() > 0 {
        let front = outcomes.drop_last();
        lemma_copy_run(table, front);
        let v = copy_after(table, front);
        let taken = taken_rows(front);
        let inserted = inserted_rows(table, front);
        match outcomes.last() {
            CopyOutcomeView::Row(row) => {
                assert(taken.push(row).drop_last() =~= taken);
            },
            CopyOutcomeView::Inserted => {
                let params = v.next->Insert_1;
                assert forall|i: int| 0 <= i < taken.len() implies copied_row(taken[i]) == Ok::<
                    Seq<ParameterView>,
                    ErrorView,
                >(#[trigger] inserted.push(params)[i]) by {
                    if i < taken.len() - 1 {
                        assert(taken.drop_last()[i] == taken[i]);
                        assert(inserted.push(params)[i] == inserted[i]);
                    }
                }
            },
            _ => {},
        }
    }
}

/// A copy that succeeds has handed out every row that it took for insertion,
/// each once and in order, with its columns as they were read.
pub proof fn lemma_each_row_is_inserted_once(table: Seq<char>, outcomes: Seq<CopyOutcomeView>)
    requires
        copies_fit(table, outcomes),
        copy_after(table, outcomes).next is Finished,
    ensures
        inserted_as_taken(taken_rows(outcomes), inserted_rows(table, outcomes)),
{
    lemma_copy_run(table, outcomes);
}

// ---------------------------------------------------------------------------
// The objects of a database
// ---------------------------------------------------------------------------

/// An object of a database's schema.
#[derive(Debug, Clone, PartialEq, Eq)]
pub struct RecoveryObject {
    pub kind: String,
    pub name: String,
    pub sql: String,
}

/// What a [`RecoveryObject`] says.
#[verifier::ext_equal]
pub ghost struct RecoveryObjectView {
    pub kind: Seq<char>,
    pub name: Seq<char>,
    pub sql: Seq<char>,
}

impl RecoveryObject {
    pub open spec fn view(self) -> RecoveryObjectView {
        RecoveryObjectView { kind: self.kind@, name: self.name@, sql: self.sql@ }
    }
}

/// What a list of objects says.
pub open spec fn object_views(objects: Seq<RecoveryObject>) -> Seq<RecoveryObjectView> {
    objects.map_values(|o: RecoveryObject| o@)
}

/// The statement that lists the objects of a database: tables first, then
/// indexes, views and triggers.
pub open spec fn objects_query() -> Seq<char> {
    "SELECT type, name, sql FROM sqlite_schema WHERE sql IS NOT NULL AND substr(name, 1, 7) <> 'sqlite_' ORDER BY CASE type WHEN 'table' THEN 0 WHEN 'index' THEN 1 WHEN 'view' THEN 2 WHEN 'trigger' THEN 3 ELSE 4 END, name"@
}

/// The statement that looks for the table of autoincrement counters.
pub open spec fn sequence_query() -> Seq<char> {
    "SELECT name FROM sqlite_schema WHERE type = 'table' AND name = 'sqlite_sequence'"@
}

/// The statement that lists the objects of a database.
pub fn objects_sql() -> (r: &'static str)
    ensures
        r@ == objects_query(),
{
    "SELECT type, name, sql FROM sqlite_schema WHERE sql IS NOT NULL AND substr(name, 1, 7) <> 'sqlite_' ORDER BY CASE type WHEN 'table' THEN 0 WHEN 'index' THEN 1 WHEN 'view' THEN 2 WHEN 'trigger' THEN 3 ELSE 4 END, name"
}

/// The statement that looks for the table of autoincrement counters.
pub fn sequence_sql() -> (r: &'static str)
    ensures
        r@ == sequence_query(),
{
    "SELECT name FROM sqlite_schema WHERE type = 'table' AND name = 'sqlite_sequence'"
}

/// The object that a row lists.
pub open spec fn object_of(row: RowView) -> Result<RecoveryObjectView, ErrorView> {
    match inspect::text_at(row, 0) {
        Err(e) => Err(e),
        Ok(kind) => match inspect::text_at(row, 1) {
            Err(e) => Err(e),
            Ok(name) => match inspect::text_at(row, 2) {
                Err(e) => Err(e),
                Ok(sql) => Ok(RecoveryObjectView { kind, name, sql }),
            },
        },
    }
}

/// The objects that rows list, in their order; the first row that lists none
/// is reported.
pub open spec fn objects_of(all: Seq<RowView>) -> Result<Seq<RecoveryObjectView>, ErrorView>
    decreases all.len(),
{
    if all.len() == 0 {
        Ok(Seq::empty())
    } else {
        match objects_of(all.drop_last()) {
            Err(e) => Err(e),
            Ok(head) => match object_of(all.last()) {
                Err(e) => Err(e),
                Ok(object) => Ok(head.push(object)),
            },
        }
    }
}

proof fn lemma_first_object_fault(all: Seq<RowView>, i: int)
    requires
        0 <= i < all.len(),
        objects_of(all.take(i + 1)) is Err,
    ensures
        objects_of(all) == objects_of(all.take(i + 1)),
    decreases all.len(),
{
    if i + 1 == all.len() {
        assert(all.take(i + 1) =~= all);
    } else {
        assert(all.drop_last().take(i + 1) =~= all.take(i + 1));
        lemma_first_object_fault(all.drop_last(), i);
    }
}

fn row_object(row: &Row) -> (r: Result<RecoveryObject, DactylError>)
    ensures
        match object_of(row@) {
            Ok(object) => r is Ok && r->Ok_0@ == object,
            Err(e) => r is Err && r->Err_0@ == e,
        },
{
    let kind: String = match inspect::row_string(row, 0) {
        Ok(kind) => kind,
        Err(e) => {
            return Err(e);
        },
    };
    let name: String = match inspect::row_string(row, 1) {
        Ok(name) => name,
        Err(e) => {
            return Err(e);
        },
    };
    let sql: String = match inspect::row_string(row, 2) {
        Ok(sql) => sql,
        Err(e) => {
            return Err(e);
        },
    };
    Ok(RecoveryObject { kind, name, sql })
}

/// The objects that rows list.
pub fn schema_objects(all: &[Row]) -> (r: Result<Vec<RecoveryObject>, DactylError>)
    ensures
        match objects_of(rows::row_views(all@)) {
            Ok(objects) => r is Ok && object_views(r->Ok_0@) == objects,
            Err(e) => r is Err && r->Err_0@ == e,
        },
{
    let ghost views = rows::row_views(all@);
    let mut out: Vec<RecoveryObject> = Vec::new();
    let mut i: usize = 0;
    assert(object_views(out@) =~= Seq::<RecoveryObjectView>::empty());
    assert(views.take(0) =~= Seq::<RowView>::empty());
    while i < all.len()
        invariant
            i <= all@.len(),
            views == rows::row_views(all@),
            objects_of(views.take(i as int)) == Ok::<Seq<RecoveryObjectView>, ErrorView>(
                object_views(out@),
            ),
        decreases all@.len() - i,
    {
        let ghost before = object_views(out@);
        proof {
            assert(views.take(i + 1).drop_last() =~= views.take(i as int));
            assert(views.take(i + 1).last() == all@[i as int]@);
        }
        match row_object(&all[i]) {
            Ok(object) => {
                out.push(object);
                assert(object_views(out@) =~= before.push(object@));
            },
            Err(e) => {
                proof {
                    lemma_first_object_fault(views, i as int);
                }
                return Err(e);
            },
        }
        i = i + 1;
    }
    assert(views.take(i as int) =~= views);
    Ok(out)
}

// ---------------------------------------------------------------------------
// The order of the work
// ---------------------------------------------------------------------------

/// A piece of the work on the rebuilt database.
#[derive(Debug, Clone, PartialEq, Eq)]
pub enum RebuildAction {
    /// Give up: this virtual table cannot be rebuilt.
    RefuseVirtual(String),
    /// Create a table by this statement.
    CreateTable(String),
    /// Copy the rows of this table.
    CopyRows(String),
    /// Empty the table of autoincrement counters by this statement.
    ClearCounters(String),
    /// Create an index, a view or a trigger by this statement.
    CreateObject(String),
    /// Set `user_version` by this statement.
    SetVersion(String),
    /// Set `application_id` by this statement.
    SetApplication(String),
    /// Set the journal mode by this statement.
    SetJournal(String),
}

/// What a [`RebuildAction`] says.
pub ghost enum ActionView {
    RefuseVirtual(Seq<char>),
    CreateTable(Seq<char>),
    CopyRows(Seq<char>),
    ClearCounters(Seq<char>),
    CreateObject(Seq<char>),
    SetVersion(Seq<char>),
    SetApplication(Seq<char>),
    SetJournal(Seq<char>),
}

impl RebuildAction {
    pub open spec fn view(self) -> ActionView {
        match self {
            RebuildAction::RefuseVirtual(s) => ActionView::RefuseVirtual(s@),
            RebuildAction::CreateTable(s) => ActionView::CreateTable(s@),
            RebuildAction::CopyRows(s) => ActionView::CopyRows(s@),
            RebuildAction::ClearCounters(s) => ActionView::ClearCounters(s@),
            RebuildAction::CreateObject(s) => ActionView::CreateObject(s@),
            RebuildAction::SetVersion(s) => ActionView::SetVersion(s@),
            RebuildAction::SetApplication(s) => ActionView::SetApplication(s@),
            RebuildAction::SetJournal(s) => ActionView::SetJournal(s@),
        }
    }

    fn duplicate(&self) -> (r: Self)
        ensures
            r@ == self@,
    {
        match self {
            RebuildAction::RefuseVirtual(s) => RebuildAction::RefuseVirtual(s.clone()),
            RebuildAction::CreateTable(s) => RebuildAction::CreateTable(s.clone()),
            RebuildAction::CopyRows(s) => RebuildAction::CopyRows(s.clone()),
            RebuildAction::ClearCounters(s) => RebuildAction::ClearCounters(s.clone()),
            RebuildAction::CreateObject(s) => RebuildAction::CreateObject(s.clone()),
            RebuildAction::SetVersion(s) => RebuildAction::SetVersion(s.clone()),
            RebuildAction::SetApplication(s) => RebuildAction::SetApplication(s.clone()),
            RebuildAction::SetJournal(s) => RebuildAction::SetJournal(s.clone()),
        }
    }
}

/// What a list of actions says.
pub open spec fn action_views(actions: Seq<RebuildAction>) -> Seq<ActionView> {
    actions.map_values(|a: RebuildAction| a@)
}

/// Whether a statement creates a virtual table.
pub open spec fn is_virtual(sql: Seq<char>) -> bool {
    text::holds(text::lower(sql), "virtual table"@)
}

/// What creating a table takes.
pub open spec fn table_creation(object: RecoveryObjectView) -> ActionView {
    if is_virtual(object.sql) {
        ActionView::RefuseVirtual(object.name)
    } else {
        ActionView::CreateTable(object.sql)
    }
}

/// The tables among objects.
pub open spec fn tables_of(objects: Seq<RecoveryObjectView>) -> Seq<RecoveryObjectView> {
    objects.filter(|o: RecoveryObjectView| o.kind == "table"@)
}

/// The indexes, views and triggers among objects.
pub open spec fn others_of(objects: Seq<RecoveryObjectView>) -> Seq<RecoveryObjectView> {
    objects.filter(
        |o: RecoveryObjectView| o.kind == "index"@ || o.kind == "view"@ || o.kind == "trigger"@,
    )
}

/// The first part of the work: create every table, then copy every table.
pub open spec fn table_work(objects: Seq<RecoveryObjectView>) -> Seq<ActionView> {
    tables_of(objects).map_values(|o: RecoveryObjectView| table_creation(o))
        + tables_of(objects).map_values(|o: RecoveryObjectView| ActionView::CopyRows(o.name))
}

/// The autoincrement counters: those that the rebuilt database made of its own
/// while rows were copied give way to those of the source.
pub open spec fn counter_work(has_sequence: bool, has_own: bool) -> Seq<ActionView> {
    if !has_sequence {
        Seq::empty()
    } else if has_own {
        seq![
            ActionView::ClearCounters("DELETE FROM sqlite_sequence"@),
            ActionView::CopyRows("sqlite_sequence"@),
        ]
    } else {
        seq![ActionView::CopyRows("sqlite_sequence"@)]
    }
}

/// The second part of the work: copy the autoincrement counters, create what
/// is left of the schema, and set what the header holds.
pub open spec fn closing_work(
    objects: Seq<RecoveryObjectView>,
    has_sequence: bool,
    has_own: bool,
    user_version: i64,
    application_id: i64,
) -> Seq<ActionView> {
    counter_work(has_sequence, has_own) + others_of(objects).map_values(|o: RecoveryObjectView| ActionView::CreateObject(o.sql))
        + seq![
        ActionView::SetVersion("PRAGMA user_version = "@ + text::signed_decimal(user_version as int)),
        ActionView::SetApplication(
            "PRAGMA application_id = "@ + text::signed_decimal(application_id as int),
        ),
        ActionView::SetJournal("PRAGMA journal_mode = DELETE"@),
    ]
}

fn is_table(object: &RecoveryObject) -> (r: bool)
    ensures
        r == (object@.kind == "table"@),
{
    text::str_eq(object.kind.as_str(), "table")
}

fn is_other(object: &RecoveryObject) -> (r: bool)
    ensures
        r == (object@.kind == "index"@ || object@.kind == "view"@ || object@.kind == "trigger"@),
{
    text::str_eq(object.kind.as_str(), "index") || text::str_eq(object.kind.as_str(), "view")
        || text::str_eq(object.kind.as_str(), "trigger")
}

fn plan_creation(object: &RecoveryObject) -> (r: RebuildAction)
    ensures
        r@ == table_creation(object@),
{
    if text::contains(text::to_lower(object.sql.as_str()).as_str(), "virtual table") {
        RebuildAction::RefuseVirtual(object.name.clone())
    } else {
        RebuildAction::CreateTable(object.sql.clone())
    }
}

proof fn lemma_filter_take<T>(s: Seq<T>, keep: spec_fn(T) -> bool, i: int)
    requires
        0 <= i < s.len(),
    ensures
        s.take(i + 1).filter(keep) == if keep(s[i]) {
            s.take(i).filter(keep).push(s[i])
        } else {
            s.take(i).filter(keep)
        },
{
    reveal(Seq::filter);
    assert(s.take(i + 1).drop_last() =~= s.take(i));
    assert(s.take(i + 1).last() == s[i]);
}

/// The first part of the work.
pub fn plan_tables(objects: &Vec<RecoveryObject>) -> (r: Vec<RebuildAction>)
    ensures
        action_views(r@) == table_work(object_views(objects@)),
{
    let ghost all = object_views(objects@);
    let ghost keep = |o: RecoveryObjectView| o.kind == "table"@;
    let ghost creation = |o: RecoveryObjectView| table_creation(o);
    let ghost copying = |o: RecoveryObjectView| ActionView::CopyRows(o.name);
    let mut out: Vec<RebuildAction> = Vec::new();
    let mut copies: Vec<RebuildAction> = Vec::new();
    let mut i: usize = 0;
    proof {
        reveal(Seq::filter);
        assert(all.take(0) =~= Seq::<RecoveryObjectView>::empty());
        assert(action_views(out@) =~= all.take(0).filter(keep).map_values(creation));
        assert(action_views(copies@) =~= all.take(0).filter(keep).map_values(copying));
    }
    while i < objects.len()
        invariant
            i <= objects@.len(),
            all == object_views(objects@),
            keep == (|o: RecoveryObjectView| o.kind == "table"@),
            creation == (|o: RecoveryObjectView| table_creation(o)),
            copying == (|o: RecoveryObjectView| ActionView::CopyRows(o.name)),
            action_views(out@) == all.take(i as int).filter(keep).map_values(creation),
            action_views(copies@) == all.take(i as int).filter(keep).map_values(copying),
        decreases objects@.len() - i,
    {
        let ghost made = action_views(out@);
        let ghost copied = action_views(copies@);
        proof {
            lemma_filter_take(all, keep, i as int);
            assert(all[i as int] == objects@[i as int]@);
        }
        if is_table(&objects[i]) {
            let ghost kept = all.take(i as int).filter(keep);
            let creating: RebuildAction = plan_creation(&objects[i]);
            out.push(creating);
            copies.push(RebuildAction::CopyRows(objects[i].name.clone()));
            proof {
                assert(action_views(out@) =~= made.push(creating@));
                assert(kept.push(all[i as int]).map_values(creation) =~= kept.map_values(
                    creation,
                ).push(table_creation(all[i as int])));
                assert(action_views(copies@) =~= copied.push(
                    ActionView::CopyRows(all[i as int].name),
                ));
                assert(kept.push(all[i as int]).map_values(copying) =~= kept.map_values(
                    copying,
                ).push(ActionView::CopyRows(all[i as int].name)));
            }
        }
        i = i + 1;
    }
    let ghost made = action_views(out@);
    let ghost copied = action_views(copies@);
    out.append(&mut copies);
    proof {
        assert(all.take(i as int) =~= all);
        assert(action_views(out@) =~= made + copied);
    }
    out
}

/// The second part of the work.
pub fn plan_closing(
    objects: &Vec<RecoveryObject>,
    has_sequence: bool,
    has_own: bool,
    user_version: i64,
    application_id: i64,
) -> (r: Vec<RebuildAction>)
    ensures
        action_views(r@) == closing_work(
            object_views(objects@),
            has_sequence,
            has_own,
            user_version,
            application_id,
        ),
{
    let ghost all = object_views(objects@);
    let ghost keep = |o: RecoveryObjectView|
        o.kind == "index"@ || o.kind == "view"@ || o.kind == "trigger"@;
    let ghost creation = |o: RecoveryObjectView| ActionView::CreateObject(o.sql);
    let mut out: Vec<RebuildAction> = Vec::new();
    if has_sequence {
        if has_own {
            out.push(RebuildAction::ClearCounters("DELETE FROM sqlite_sequence".to_string()));
        }
        out.push(RebuildAction::CopyRows("sqlite_sequence".to_string()));
    }
    let ghost head = action_views(out@);
    let mut i: usize = 0;
    proof {
        reveal(Seq::filter);
        assert(head =~= counter_work(has_sequence, has_own));
        assert(all.take(0) =~= Seq::<RecoveryObjectView>::empty());
        assert(head =~= head + all.take(0).filter(keep).map_values(creation));
    }
    while i < objects.len()
        invariant
            i <= objects@.len(),
            all == object_views(objects@),
            keep == (|o: RecoveryObjectView|
                o.kind == "index"@ || o.kind == "view"@ || o.kind == "trigger"@),
            creation == (|o: RecoveryObjectView| ActionView::CreateObject(o.sql)),
            action_views(out@) == head + all.take(i as int).filter(keep).map_values(creation),
        decreases objects@.len() - i,
    {
        let ghost made = action_views(out@);
        proof {
            lemma_filter_take(all, keep, i as int);
            assert(all[i as int] == objects@[i as int]@);
        }
        if is_other(&objects[i]) {
            let ghost kept = all.take(i as int).filter(keep);
            out.push(RebuildAction::CreateObject(objects[i].sql.clone()));
            proof {
                assert(action_views(out@) =~= made.push(
                    ActionView::CreateObject(all[i as int].sql),
                ));
                assert(head + kept.push(all[i as int]).map_values(creation) =~= (head
                    + kept.map_values(creation)).push(ActionView::CreateObject(all[i as int].sql)));
            }
        }
        i = i + 1;
    }
    let ghost made = action_views(out@);
    proof {
        assert(all.take(i as int) =~= all);
    }
    out.push(
        RebuildAction::SetVersion(
            "PRAGMA user_version = ".to_string().concat(
                text::signed_decimal_text(user_version).as_str(),
            ),
        ),
    );
    out.push(
        RebuildAction::SetApplication(
            "PRAGMA application_id = ".to_string().concat(
                text::signed_decimal_text(application_id).as_str(),
            ),
        ),
    );
    out.push(RebuildAction::SetJournal("PRAGMA journal_mode = DELETE".to_string()));
    proof {
        assert(made == head + others_of(all).map_values(creation));
        assert(action_views(out@) =~= closing_work(
            all,
            has_sequence,
            has_own,
            user_version,
            application_id,
        ));
    }
    out
}

// ---------------------------------------------------------------------------
// The rebuild, step by step
// ---------------------------------------------------------------------------

/// The error for a virtual table.
pub open spec fn virtual_refused(name: Seq<char>) -> ErrorView {
    crate::error::coded(
        AdapterErrorKind::Capability,
        "unsupported_recovery_object"@,
        "logical recovery does not support virtual table "@ + name,
    )
}

/// What an action is called where SQLite refuses it.
pub open spec fn action_label(action: ActionView) -> Seq<char> {
    match action {
        ActionView::CreateTable(_) => "create recovered SQLite table"@,
        ActionView::ClearCounters(_) => "clear recovered SQLite counters"@,
        ActionView::CreateObject(_) => "create recovered SQLite schema object"@,
        ActionView::SetVersion(_) => "restore SQLite user_version"@,
        ActionView::SetApplication(_) => "restore SQLite application_id"@,
        _ => "set recovered SQLite journal mode"@,
    }
}

fn label_of(action: &RebuildAction) -> (r: &'static str)
    ensures
        r@ == action_label(action@),
{
    match action {
        RebuildAction::CreateTable(_) => "create recovered SQLite table",
        RebuildAction::ClearCounters(_) => "clear recovered SQLite counters",
        RebuildAction::CreateObject(_) => "create recovered SQLite schema object",
        RebuildAction::SetVersion(_) => "restore SQLite user_version",
        RebuildAction::SetApplication(_) => "restore SQLite application_id",
        _ => "set recovered SQLite journal mode",
    }
}

/// The journal mode that a recovered database must have.
pub open spec fn journal_fault(mode: Seq<char>) -> Option<ErrorView> {
    if text::lower(mode) == "delete"@ {
        None
    } else {
        Some(
            crate::error::coded(
                AdapterErrorKind::Storage,
                "recovery_journal_mode_mismatch"@,
                "recovered SQLite journal mode is "@ + mode,
            ),
        )
    }
}

fn check_journal(mode: &str) -> (r: Option<DactylError>)
    ensures
        error_view(r) == journal_fault(mode@),
{
    if text::str_eq(text::to_lower(mode).as_str(), "delete") {
        None
    } else {
        Some(
            DactylError::adapter_with_code(
                AdapterErrorKind::Storage,
                "recovery_journal_mode_mismatch",
                "recovered SQLite journal mode is ".to_string().concat(mode).as_str(),
            ),
        )
    }
}

/// What a failure says, if there is one.
pub open spec fn error_view(e: Option<DactylError>) -> Option<ErrorView> {
    match e {
        Some(e) => Some(e@),
        None => None,
    }
}

/// What is to be done next.
#[derive(Debug, Clone, PartialEq, Eq)]
pub enum RebuildStep {
    /// Run this statement on the rebuilt database.
    Execute(String),
    /// Ask the source this.
    QuerySource(String),
    /// Ask the rebuilt database this.
    QueryRebuilt(String),
    /// Do this piece of the work on the rebuilt database.
    Act(RebuildAction),
    /// Verify the rebuilt database.
    Verify,
    /// Nothing: the database is rebuilt.
    Finished,
    /// Nothing: the rebuild failed.
    Failed,
}

/// What a [`RebuildStep`] says.
pub ghost enum StepView {
    Execute(Seq<char>),
    QuerySource(Seq<char>),
    QueryRebuilt(Seq<char>),
    Act(ActionView),
    Verify,
    Finished,
    Failed,
}

impl RebuildStep {
    pub open spec fn view(self) -> StepView {
        match self {
            RebuildStep::Execute(s) => StepView::Execute(s@),
            RebuildStep::QuerySource(s) => StepView::QuerySource(s@),
            RebuildStep::QueryRebuilt(s) => StepView::QueryRebuilt(s@),
            RebuildStep::Act(a) => StepView::Act(a@),
            RebuildStep::Verify => StepView::Verify,
            RebuildStep::Finished => StepView::Finished,
            RebuildStep::Failed => StepView::Failed,
        }
    }
}

/// How a step went.
#[derive(Debug)]
pub enum RebuildOutcome {
    /// A statement was run, or rows were copied.
    Done,
    /// SQLite refused a statement.
    Sqlite(SqliteFailure),
    /// A query gave these rows.
    Answer(Rows),
    /// The rebuilt database was verified.
    Report(IntegrityReport),
    /// A query, copying rows or the verification failed.
    Error(DactylError),
}

/// What a [`RebuildOutcome`] says.
pub ghost enum OutcomeView {
    Done,
    Sqlite(SqliteFailure),
    Answer(Seq<RowView>),
    Report(ReportView),
    Error(ErrorView),
}

impl RebuildOutcome {
    pub open spec fn view(self) -> OutcomeView {
        match self {
            RebuildOutcome::Done => OutcomeView::Done,
            RebuildOutcome::Sqlite(f) => OutcomeView::Sqlite(f),
            RebuildOutcome::Answer(found) => OutcomeView::Answer(rows::row_views(found.0@)),
            RebuildOutcome::Report(report) => OutcomeView::Report(
                maintenance::report_view(report),
            ),
            RebuildOutcome::Error(e) => OutcomeView::Error(e@),
        }
    }
}

/// Whether a step can go this way.
pub open spec fn fits(step: StepView, outcome: OutcomeView) -> bool {
    match step {
        StepView::Execute(_) => outcome is Done || outcome is Sqlite,
        StepView::QuerySource(_) | StepView::QueryRebuilt(_) => outcome is Answer
            || outcome is Error,
        StepView::Act(action) => outcome is Done || (if action is CopyRows {
            outcome is Error
        } else {
            outcome is Sqlite
        }),
        StepView::Verify => outcome is Report || outcome is Error,
        StepView::Finished | StepView::Failed => false,
    }
}

/// How far a rebuild is.
#[derive(Debug, Clone, Copy, PartialEq, Eq, Structural)]
pub enum RebuildStage {
    /// Foreign keys are to be switched off.
    Unguard,
    /// `user_version` is to be read.
    ReadVersion,
    /// `application_id` is to be read.
    ReadApplication,
    /// The objects of the source are to be listed.
    ReadObjects,
    /// The tables are created and filled.
    Fill,
    /// Autoincrement counters are to be looked for in the source.
    FindCounters,
    /// Autoincrement counters are to be looked for in the rebuilt database.
    FindRebuiltCounters,
    /// The rest of the work is done.
    Close,
    /// The rebuilt database is to be verified.
    Verify,
    Finished,
    Failed,
}

/// Where a rebuild stands.
#[verifier::ext_equal]
pub ghost struct RebuildView {
    pub stage: RebuildStage,
    pub user_version: i64,
    pub application_id: i64,
    pub objects: Seq<RecoveryObjectView>,
    /// Whether the source has autoincrement counters.
    pub has_sequence: bool,
    /// Whether the rebuilt database has made some of its own.
    pub has_own: bool,
    /// The part of the work that is being done.
    pub work: Seq<ActionView>,
    /// How many pieces of it are done.
    pub at: int,
    pub error: Option<ErrorView>,
}

impl RebuildView {
    /// What is to be done next.
    pub open spec fn next(self) -> StepView {
        match self.stage {
            RebuildStage::Unguard => StepView::Execute("PRAGMA foreign_keys = OFF"@),
            RebuildStage::ReadVersion => StepView::QuerySource("PRAGMA "@ + "user_version"@),
            RebuildStage::ReadApplication => StepView::QuerySource("PRAGMA "@ + "application_id"@),
            RebuildStage::ReadObjects => StepView::QuerySource(objects_query()),
            RebuildStage::FindCounters => StepView::QuerySource(sequence_query()),
            RebuildStage::FindRebuiltCounters => StepView::QueryRebuilt(sequence_query()),
            RebuildStage::Fill | RebuildStage::Close => StepView::Act(self.work[self.at]),
            RebuildStage::Verify => StepView::Verify,
            RebuildStage::Finished => StepView::Finished,
            RebuildStage::Failed => StepView::Failed,
        }
    }

    /// The rebuild at another stage.
    pub open spec fn moved(self, stage: RebuildStage) -> RebuildView {
        RebuildView { stage, ..self }
    }

    /// The rebuild once it failed.
    pub open spec fn failed(self, e: ErrorView) -> RebuildView {
        RebuildView { stage: RebuildStage::Failed, error: Some(e), ..self }
    }

    /// The rebuild about to do the next piece of work: where none is left, the
    /// next stage; where a virtual table comes next, a failure.
    pub open spec fn settled(self) -> RebuildView {
        if self.at < self.work.len() {
            match self.work[self.at] {
                ActionView::RefuseVirtual(name) => self.failed(virtual_refused(name)),
                _ => self,
            }
        } else if self.stage is Fill {
            self.moved(RebuildStage::FindCounters)
        } else {
            self.moved(RebuildStage::Verify)
        }
    }

    /// The rebuild with the rest of the work about to be done.
    pub open spec fn closing(self) -> RebuildView {
        RebuildView {
            stage: RebuildStage::Close,
            work: closing_work(
                self.objects,
                self.has_sequence,
                self.has_own,
                self.user_version,
                self.application_id,
            ),
            at: 0,
            ..self
        }.settled()
    }

    /// The rebuild once a query was answered.
    pub open spec fn after_answer(self, found: Seq<RowView>) -> RebuildView {
        match self.stage {
            RebuildStage::ReadVersion => match maintenance::pragma_integer_of(
                "user_version"@,
                found,
            ) {
                Ok(n) => RebuildView {
                    stage: RebuildStage::ReadApplication,
                    user_version: n,
                    ..self
                },
                Err(e) => self.failed(e),
            },
            RebuildStage::ReadApplication => match maintenance::pragma_integer_of(
                "application_id"@,
                found,
            ) {
                Ok(n) => RebuildView {
                    stage: RebuildStage::ReadObjects,
                    application_id: n,
                    ..self
                },
                Err(e) => self.failed(e),
            },
            RebuildStage::ReadObjects => match objects_of(found) {
                Ok(objects) => RebuildView {
                    stage: RebuildStage::Fill,
                    objects,
                    work: table_work(objects),
                    at: 0,
                    ..self
                }.settled(),
                Err(e) => self.failed(e),
            },
            RebuildStage::FindCounters => if found.len() > 0 {
                RebuildView {
                    stage: RebuildStage::FindRebuiltCounters,
                    has_sequence: true,
                    ..self
                }
            } else {
                self.closing()
            },
            _ => RebuildView { has_own: found.len() > 0, ..self }.closing(),
        }
    }

    /// The rebuild once its step went one way.
    pub open spec fn after(self, outcome: OutcomeView) -> RebuildView {
        match outcome {
            OutcomeView::Done => if self.stage is Unguard {
                self.moved(RebuildStage::ReadVersion)
            } else {
                RebuildView { at: self.at + 1, ..self }.settled()
            },
            OutcomeView::Sqlite(f) => self.failed(
                statement::failure_error(
                    if self.stage is Unguard {
                        "disable recovery foreign keys"@
                    } else {
                        action_label(self.work[self.at])
                    },
                    f,
                ),
            ),
            OutcomeView::Answer(found) => self.after_answer(found),
            OutcomeView::Report(report) => match journal_fault(report.journal_mode) {
                Some(e) => self.failed(e),
                None => self.moved(RebuildStage::Finished),
            },
            OutcomeView::Error(e) => self.failed(e),
        }
    }

    /// Where a rebuild may stand.
    pub open spec fn wf(self) -> bool {
        &&& self.stage is Failed <==> self.error is Some
        &&& self.stage is Fill || self.stage is Close ==> 0 <= self.at < self.work.len() && !(
        self.work[self.at] is RefuseVirtual)
        &&& !(self.stage is Close || self.stage is Verify || self.stage is Finished || self.stage is Failed)
            ==> !self.has_own
        &&& self.stage is FindCounters || self.stage is Fill || self.stage is ReadObjects
            || self.stage is ReadApplication || self.stage is ReadVersion || self.stage is Unguard
            ==> !self.has_sequence
        &&& self.stage is FindRebuiltCounters ==> self.has_sequence
    }
}

/// A rebuild about to start.
pub open spec fn rebuild_started() -> RebuildView {
    RebuildView {
        stage: RebuildStage::Unguard,
        user_version: 0,
        application_id: 0,
        objects: Seq::empty(),
        has_sequence: false,
        has_own: false,
        work: Seq::empty(),
        at: 0,
        error: None,
    }
}

/// What a rebuild came to.
pub open spec fn rebuild_view(r: Result<RebuildResult, DactylError>) -> Result<
    RebuildResult,
    ErrorView,
> {
    match r {
        Ok(result) => Ok(result),
        Err(e) => Err(e@),
    }
}

/// A rebuild in progress. The source is only read; foreign keys are switched
/// off, the tables are created and filled, the rest is created, and the result
/// is verified. The first step that fails ends the rebuild with its error.
pub struct Rebuild {
    stage: RebuildStage,
    user_version: i64,
    application_id: i64,
    objects: Vec<RecoveryObject>,
    has_sequence: bool,
    has_own: bool,
    work: Vec<RebuildAction>,
    at: usize,
    error: Option<DactylError>,
}

impl Rebuild {
    pub closed spec fn view(self) -> RebuildView {
        RebuildView {
            stage: self.stage,
            user_version: self.user_version,
            application_id: self.application_id,
            objects: object_views(self.objects@),
            has_sequence: self.has_sequence,
            has_own: self.has_own,
            work: action_views(self.work@),
            at: self.at as int,
            error: error_view(self.error),
        }
    }

    #[verifier::type_invariant]
    closed spec fn well_formed(self) -> bool {
        self@.wf()
    }

    /// A rebuild about to start.
    pub fn new() -> (r: Self)
        ensures
            r@ == rebuild_started(),
    {
        let objects: Vec<RecoveryObject> = Vec::new();
        let work: Vec<RebuildAction> = Vec::new();
        assert(object_views(objects@) =~= Seq::<RecoveryObjectView>::empty());
        assert(action_views(work@) =~= Seq::<ActionView>::empty());
        Rebuild {
            stage: RebuildStage::Unguard,
            user_version: 0,
            application_id: 0,
            objects,
            has_sequence: false,
            has_own: false,
            work,
            at: 0,
            error: None,
        }
    }

    /// What is to be done next. A virtual table is never handed out: it ends
    /// the rebuild.
    pub fn step(&self) -> (r: RebuildStep)
        ensures
            r@ == self@.next(),
            self@.wf(),
            !(r@ matches StepView::Act(a) && a is RefuseVirtual),
    {
        proof {
            use_type_invariant(self);
        }
        match self.stage {
            RebuildStage::Unguard => RebuildStep::Execute("PRAGMA foreign_keys = OFF".to_string()),
            RebuildStage::ReadVersion => RebuildStep::QuerySource(
                maintenance::pragma_statement("user_version"),
            ),
            RebuildStage::ReadApplication => RebuildStep::QuerySource(
                maintenance::pragma_statement("application_id"),
            ),
            RebuildStage::ReadObjects => RebuildStep::QuerySource(objects_sql().to_string()),
            RebuildStage::FindCounters => RebuildStep::QuerySource(sequence_sql().to_string()),
            RebuildStage::FindRebuiltCounters => RebuildStep::QueryRebuilt(
                sequence_sql().to_string(),
            ),
            RebuildStage::Fill | RebuildStage::Close => {
                assert(self@.work[self@.at] == self.work@[self.at as int]@);
                RebuildStep::Act(self.work[self.at].duplicate())
            },
            RebuildStage::Verify => RebuildStep::Verify,
            RebuildStage::Finished => RebuildStep::Finished,
            RebuildStage::Failed => RebuildStep::Failed,
        }
    }

    fn fail(self, e: DactylError) -> (r: Self)
        ensures
            r@ == self@.failed(e@),
    {
        Rebuild { stage: RebuildStage::Failed, error: Some(e), ..self }
    }

    fn settle(
        self,
        stage: RebuildStage,
        objects: Vec<RecoveryObject>,
        work: Vec<RebuildAction>,
        at: usize,
    ) -> (r: Self)
        requires
            stage is Fill || stage is Close,
            stage is Fill ==> !self@.has_own && !self@.has_sequence,
            self@.error is None,
            at <= work@.len(),
        ensures
            r@ == (RebuildView {
                stage,
                objects: object_views(objects@),
                work: action_views(work@),
                at: at as int,
                ..self@
            }).settled(),
    {
        if at < work.len() {
            assert(action_views(work@)[at as int] == work@[at as int]@);
            if let RebuildAction::RefuseVirtual(name) = &work[at] {
                let e: DactylError = DactylError::adapter_with_code(
                    AdapterErrorKind::Capability,
                    "unsupported_recovery_object",
                    "logical recovery does not support virtual table ".to_string().concat(
                        name.as_str(),
                    ).as_str(),
                );
                return Rebuild {
                    stage: RebuildStage::Failed,
                    objects,
                    work,
                    at,
                    error: Some(e),
                    ..self
                };
            }
            Rebuild { stage, objects, work, at, ..self }
        } else if stage == RebuildStage::Fill {
            Rebuild { stage: RebuildStage::FindCounters, objects, work, at, ..self }
        } else {
            Rebuild { stage: RebuildStage::Verify, objects, work, at, ..self }
        }
    }

    fn close(self, has_sequence: bool, has_own: bool) -> (r: Self)
        requires
            self@.error is None,
        ensures
            r@ == (RebuildView { has_sequence, has_own, ..self@ }).closing(),
    {
        let work: Vec<RebuildAction> = plan_closing(
            &self.objects,
            has_sequence,
            has_own,
            self.user_version,
            self.application_id,
        );
        let blank: Vec<RecoveryObject> = Vec::new();
        let done: Vec<RebuildAction> = Vec::new();
        let parked = Rebuild {
            stage: RebuildStage::Verify,
            user_version: self.user_version,
            application_id: self.application_id,
            objects: blank,
            has_sequence,
            has_own,
            work: done,
            at: 0,
            error: self.error,
        };
        parked.settle(RebuildStage::Close, self.objects, work, 0)
    }

    fn answered(self, found: Rows) -> (r: Self)
        requires
            self@.next() is QuerySource || self@.next() is QueryRebuilt,
        ensures
            r@ == self@.after_answer(rows::row_views(found.0@)),
    {
        proof {
            use_type_invariant(&self);
            assert(rows::row_views(found.0@).len() == found.0@.len());
        }
        match self.stage {
            RebuildStage::ReadVersion => match maintenance::pragma_integer(
                "user_version",
                found.as_slice(),
            ) {
                Ok(n) => Rebuild {
                    stage: RebuildStage::ReadApplication,
                    user_version: n,
                    ..self
                },
                Err(e) => self.fail(e),
            },
            RebuildStage::ReadApplication => match maintenance::pragma_integer(
                "application_id",
                found.as_slice(),
            ) {
                Ok(n) => Rebuild {
                    stage: RebuildStage::ReadObjects,
                    application_id: n,
                    ..self
                },
                Err(e) => self.fail(e),
            },
            RebuildStage::ReadObjects => match schema_objects(found.as_slice()) {
                Ok(objects) => {
                    let work: Vec<RebuildAction> = plan_tables(&objects);
                    self.settle(RebuildStage::Fill, objects, work, 0)
                },
                Err(e) => self.fail(e),
            },
            RebuildStage::FindCounters => if !found.is_empty() {
                Rebuild {
                    stage: RebuildStage::FindRebuiltCounters,
                    has_sequence: true,
                    ..self
                }
            } else {
                let has_sequence: bool = self.has_sequence;
                let has_own: bool = self.has_own;
                self.close(has_sequence, has_own)
            },
            _ => {
                let has_sequence: bool = self.has_sequence;
                self.close(has_sequence, !found.is_empty())
            },
        }
    }

    /// Take note of how the step went.
    pub fn advance(self, outcome: RebuildOutcome) -> (r: Self)
        requires
            fits(self@.next(), outcome@),
        ensures
            r@ == self@.after(outcome@),
    {
        proof {
            use_type_invariant(&self);
        }
        match outcome {
            RebuildOutcome::Done => if self.stage == RebuildStage::Unguard {
                Rebuild { stage: RebuildStage::ReadVersion, ..self }
            } else {
                let stage: RebuildStage = self.stage;
                let blank: Vec<RecoveryObject> = Vec::new();
                let done: Vec<RebuildAction> = Vec::new();
                assert(self.at < self.work.len());
                let at: usize = self.at + 1;
                let parked = Rebuild {
                    stage: if stage == RebuildStage::Fill {
                        RebuildStage::FindCounters
                    } else {
                        RebuildStage::Verify
                    },
                    user_version: self.user_version,
                    application_id: self.application_id,
                    objects: blank,
                    has_sequence: self.has_sequence,
                    has_own: self.has_own,
                    work: done,
                    at: 0,
                    error: self.error,
                };
                parked.settle(stage, self.objects, self.work, at)
            },
            RebuildOutcome::Sqlite(failure) => {
                let e: DactylError = if self.stage == RebuildStage::Unguard {
                    statement::map_sqlite_failure("disable recovery foreign keys", &failure)
                } else {
                    assert(self@.work[self@.at] == self.work@[self.at as int]@);
                    statement::map_sqlite_failure(label_of(&self.work[self.at]), &failure)
                };
                self.fail(e)
            },
            RebuildOutcome::Answer(found) => self.answered(found),
            RebuildOutcome::Report(report) => match check_journal(report.journal_mode.as_str()) {
                Some(e) => self.fail(e),
                None => Rebuild { stage: RebuildStage::Finished, ..self },
            },
            RebuildOutcome::Error(e) => self.fail(e),
        }
    }

    /// What the rebuild came to.
    pub fn into_outcome(self) -> (r: Result<RebuildResult, DactylError>)
        requires
            self@.next() is Finished || self@.next() is Failed,
        ensures
            rebuild_view(r) == rebuilt(self@),
    {
        match self.error {
            Some(e) => Err(e),
            None => Ok(
                RebuildResult {
                    user_version: self.user_version,
                    application_id: self.application_id,
                },
            ),
        }
    }
}

// ---------------------------------------------------------------------------
// What a run of a rebuild hands out
// ---------------------------------------------------------------------------

/// Whether a rebuild has ended.
pub open spec fn ended(v: RebuildView) -> bool {
    v.stage is Finished || v.stage is Failed
}

/// Where a rebuild stands once its steps went these ways, up to its end.
pub open spec fn rebuild_after(outcomes: Seq<OutcomeView>) -> RebuildView
    decreases outcomes.len(),
{
    if outcomes.len() == 0 {
        rebuild_started()
    } else {
        let v = rebuild_after(outcomes.drop_last());
        if ended(v) {
            v
        } else {
            v.after(outcomes.last())
        }
    }
}

/// The steps that a rebuild hands out while its steps go these ways, up to its
/// end.
pub open spec fn steps_handed_out(outcomes: Seq<OutcomeView>) -> Seq<StepView>
    decreases outcomes.len(),
{
    if outcomes.len() == 0 {
        Seq::empty()
    } else {
        let front = outcomes.drop_last();
        let v = rebuild_after(front);
        if ended(v) {
            steps_handed_out(front)
        } else {
            steps_handed_out(front).push(v.next())
        }
    }
}

/// Whether each step can go the way it went.
pub open spec fn all_fit(outcomes: Seq<OutcomeView>) -> bool
    decreases outcomes.len(),
{
    outcomes.len() > 0 ==> {
        let front = outcomes.drop_last();
        all_fit(front) && (ended(rebuild_after(front)) || fits(
            rebuild_after(front).next(),
            outcomes.last(),
        ))
    }
}

/// Pieces of work as steps.
pub open spec fn acts(work: Seq<ActionView>) -> Seq<StepView> {
    work.map_values(|a: ActionView| StepView::Act(a))
}

/// The steps before the tables are created.
pub open spec fn opening_steps() -> Seq<StepView> {
    seq![
        StepView::Execute("PRAGMA foreign_keys = OFF"@),
        StepView::QuerySource("PRAGMA "@ + "user_version"@),
        StepView::QuerySource("PRAGMA "@ + "application_id"@),
        StepView::QuerySource(objects_query()),
    ]
}

/// The steps between filling the tables and the rest of the work.
pub open spec fn counter_steps(has_sequence: bool) -> Seq<StepView> {
    if has_sequence {
        seq![StepView::QuerySource(sequence_query()), StepView::QueryRebuilt(sequence_query())]
    } else {
        seq![StepView::QuerySource(sequence_query())]
    }
}

/// The steps up to the rest of the work.
pub open spec fn steps_before_closing(v: RebuildView) -> Seq<StepView> {
    opening_steps() + acts(table_work(v.objects)) + counter_steps(v.has_sequence)
}

/// The rest of the work of a rebuild.
pub open spec fn closing_of(v: RebuildView) -> Seq<ActionView> {
    closing_work(v.objects, v.has_sequence, v.has_own, v.user_version, v.application_id)
}

/// All steps of a rebuild that succeeds.
pub open spec fn all_steps(v: RebuildView) -> Seq<StepView> {
    (steps_before_closing(v) + acts(closing_of(v))).push(StepView::Verify)
}

/// The steps that a rebuild has handed out before it stands here.
pub open spec fn steps_so_far(v: RebuildView) -> Seq<StepView> {
    match v.stage {
        RebuildStage::Unguard => Seq::empty(),
        RebuildStage::ReadVersion => opening_steps().take(1),
        RebuildStage::ReadApplication => opening_steps().take(2),
        RebuildStage::ReadObjects => opening_steps().take(3),
        RebuildStage::Fill => opening_steps() + acts(table_work(v.objects).take(v.at)),
        RebuildStage::FindCounters => opening_steps() + acts(table_work(v.objects)),
        RebuildStage::FindRebuiltCounters => opening_steps() + acts(table_work(v.objects))
            + counter_steps(false),
        RebuildStage::Close => steps_before_closing(v) + acts(closing_of(v).take(v.at)),
        RebuildStage::Verify => steps_before_closing(v) + acts(closing_of(v)),
        _ => all_steps(v),
    }
}

/// Whether the work in progress is the one that the stage is for.
pub open spec fn on_plan(v: RebuildView) -> bool {
    &&& v.wf()
    &&& v.stage is Fill ==> v.work == table_work(v.objects)
    &&& v.stage is Close ==> v.work == closing_of(v)
}

proof fn lemma_acts_take(work: Seq<ActionView>, n: int)
    requires
        0 <= n < work.len(),
    ensures
        acts(work.take(n + 1)) == acts(work.take(n)).push(StepView::Act(work[n])),
{
    assert(acts(work.take(n + 1)) =~= acts(work.take(n)).push(StepView::Act(work[n])));
}

proof fn lemma_settled(v: RebuildView)
    requires
        v.stage is Fill || v.stage is Close,
        v.error is None,
        0 <= v.at <= v.work.len(),
        v.stage is Fill ==> v.work == table_work(v.objects) && !v.has_own && !v.has_sequence,
        v.stage is Close ==> v.work == closing_of(v),
    ensures
        on_plan(v.settled()),
        v.settled().stage is Failed || steps_so_far(v.settled()) == steps_so_far(v),
{
    if v.at == v.work.len() {
        assert(v.work.take(v.at) =~= v.work);
    }
}

proof fn lemma_step_is_handed_out(v: RebuildView, outcome: OutcomeView)
    requires
        on_plan(v),
        !ended(v),
        fits(v.next(), outcome),
    ensures
        on_plan(v.after(outcome)),
        v.after(outcome).stage is Failed || steps_so_far(v.after(outcome)) == steps_so_far(v).push(
            v.next(),
        ),
{
    let w = v.after(outcome);
    let opening = opening_steps();
    assert(opening.take(1) =~= Seq::<StepView>::empty().push(opening[0]));
    assert(opening.take(2) =~= opening.take(1).push(opening[1]));
    assert(opening.take(3) =~= opening.take(2).push(opening[2]));
    assert(opening =~= opening.take(3).push(opening[3]));
    match v.stage {
        RebuildStage::Fill | RebuildStage::Close => {
            if outcome is Done {
                lemma_acts_take(v.work, v.at);
                let u = RebuildView { at: v.at + 1, ..v };
                lemma_settled(u);
                assert(steps_so_far(u) =~= steps_so_far(v).push(v.next()));
            }
        },
        RebuildStage::ReadObjects => {
            if let OutcomeView::Answer(found) = outcome {
                if let Ok(objects) = objects_of(found) {
                    let u = RebuildView {
                        stage: RebuildStage::Fill,
                        objects,
                        work: table_work(objects),
                        at: 0,
                        ..v
                    };
                    lemma_settled(u);
                    assert(acts(table_work(objects).take(0)) =~= Seq::<StepView>::empty());
                    assert(steps_so_far(u) =~= steps_so_far(v).push(v.next()));
                }
            }
        },
        RebuildStage::FindCounters | RebuildStage::FindRebuiltCounters => {
            if let OutcomeView::Answer(found) = outcome {
                if v.stage is FindCounters && found.len() > 0 {
                    assert(steps_so_far(w) =~= steps_so_far(v).push(v.next()));
                } else {
                    let has_own = if v.stage is FindCounters {
                        v.has_own
                    } else {
                        found.len() > 0
                    };
                    let u0 = RebuildView { has_own, ..v };
                    let u = RebuildView {
                        stage: RebuildStage::Close,
                        work: closing_of(u0),
                        at: 0,
                        ..u0
                    };
                    lemma_settled(u);
                    assert(acts(closing_of(u).take(0)) =~= Seq::<StepView>::empty());
                    assert(v.stage is FindRebuiltCounters ==> v.has_sequence);
                    assert(steps_so_far(u) =~= steps_so_far(v).push(v.next()));
                }
            }
        },
        RebuildStage::Verify => {
            assert(steps_so_far(v).push(StepView::Verify) =~= all_steps(v));
        },
        _ => {},
    }
}

proof fn lemma_run(outcomes: Seq<OutcomeView>)
    requires
        all_fit(outcomes),
    ensures
        on_plan(rebuild_after(outcomes)),
        rebuild_after(outcomes).stage is Failed || steps_handed_out(outcomes) == steps_so_far(
            rebuild_after(outcomes),
        ),
    decreases outcomes.len(),
{
    if outcomes.len() > 0 {
        let front = outcomes.drop_last();
        lemma_run(front);
        let v = rebuild_after(front);
        if !ended(v) {
            lemma_step_is_handed_out(v, outcomes.last());
        }
    }
}

/// A rebuild that succeeds has handed out each step once and in order: every
/// table is created, then every table is copied, then the counters and the
/// rest of the schema follow, and the verification comes last.
pub proof fn lemma_rebuild_hands_out_every_step_once(outcomes: Seq<OutcomeView>)
    requires
        all_fit(outcomes),
        rebuild_after(outcomes).stage is Finished,
    ensures
        steps_handed_out(outcomes) == all_steps(rebuild_after(outcomes)),
{
    lemma_run(outcomes);
}

/// Whether one action may come before another: rows come behind the tables and
/// before indexes, views and triggers.
pub open spec fn in_order(early: ActionView, late: ActionView) -> bool {
    &&& late is CopyRows || late is ClearCounters ==> !(early is CreateObject)
    &&& late is CreateTable ==> !(early is CopyRows)
}

/// Rows come before whatever could act on them, and the verification behind
/// everything: in a rebuild that succeeds, no index, view or trigger is handed
/// out for creation before the last rows are handed out for copying, none of
/// these before the last table is created, and nothing behind the
/// verification.
pub proof fn lemma_rows_come_before_triggers(outcomes: Seq<OutcomeView>, i: int, j: int)
    requires
        all_fit(outcomes),
        rebuild_after(outcomes).stage is Finished,
        0 <= i < j < steps_handed_out(outcomes).len(),
    ensures
        ({
            let steps = steps_handed_out(outcomes);
            &&& steps[j] is Act && steps[i] is Act ==> in_order(steps[i]->Act_0, steps[j]->Act_0)
            &&& !(steps[i] is Verify)
            &&& steps.last() is Verify
        }),
{
    lemma_rebuild_hands_out_every_step_once(outcomes);
    let v = rebuild_after(outcomes);
    let tables = tables_of(v.objects);
    let first = table_work(v.objects);
    let second = closing_of(v);
    let steps = steps_handed_out(outcomes);
    let head = opening_steps().len() as int;
    let middle = counter_steps(v.has_sequence).len() as int;
    let n = first.len() as int;
    assert forall|k: int| 0 <= k < n implies !(#[trigger] first[k] is CreateObject) && !(
    first[k] is ClearCounters) && (k < tables.len() <==> !(first[k] is CopyRows)) by {
        if k < tables.len() {
            assert(first[k] == table_creation(tables[k]));
        } else {
            assert(first[k] == ActionView::CopyRows(tables[k - tables.len()].name));
        }
    }
    let counters = counter_work(v.has_sequence, v.has_own);
    assert forall|k: int| 0 <= k < second.len() implies !(#[trigger] second[k] is CreateTable) && (
    k < counters.len() <==> (second[k] is CopyRows || second[k] is ClearCounters)) by {
        if k < counters.len() {
            assert(second[k] == counters[k]);
        }
    }
    assert forall|k: int| 0 <= k < steps.len() implies #[trigger] steps[k] == (if k < head {
        opening_steps()[k]
    } else if k < head + n {
        StepView::Act(first[k - head])
    } else if k < head + n + middle {
        counter_steps(v.has_sequence)[k - head - n]
    } else if k < head + n + middle + second.len() {
        StepView::Act(second[k - head - n - middle])
    } else {
        StepView::Verify
    }) by {}
    if steps[j] is Act && steps[i] is Act {
        let late = steps[j]->Act_0;
        let early = steps[i]->Act_0;
        if j < head + n {
            assert(late == first[j - head] && early == first[i - head]);
        } else {
            assert(late == second[j - head - n - middle]);
            if i < head + n {
                assert(early == first[i - head]);
            } else {
                assert(early == second[i - head - n - middle]);
            }
        }
        assert(in_order(early, late));
    }
}

/// The rows of each table of the source are handed out for copying exactly
/// once in a rebuild that succeeds: at one place in the steps, and where the
/// names of the tables differ, at no other.
pub proof fn lemma_each_table_is_copied_once(outcomes: Seq<OutcomeView>, t: int)
    requires
        all_fit(outcomes),
        rebuild_after(outcomes).stage is Finished,
        0 <= t < tables_of(rebuild_after(outcomes).objects).len(),
        forall|a: int, b: int|
            0 <= a < b < tables_of(rebuild_after(outcomes).objects).len() ==> (
            #[trigger] tables_of(rebuild_after(outcomes).objects)[a]).name != (#[trigger] tables_of(
                rebuild_after(outcomes).objects,
            )[b]).name,
        tables_of(rebuild_after(outcomes).objects)[t].name != "sqlite_sequence"@,
    ensures
        ({
            let steps = steps_handed_out(outcomes);
            let tables = tables_of(rebuild_after(outcomes).objects);
            let place = opening_steps().len() + tables.len() + t;
            let copying = StepView::Act(ActionView::CopyRows(tables[t].name));
            &&& place < steps.len()
            &&& forall|k: int| 0 <= k < steps.len() ==> (#[trigger] steps[k] == copying <==> k == place)
        }),
{
    lemma_rebuild_hands_out_every_step_once(outcomes);
    let v = rebuild_after(outcomes);
    let tables = tables_of(v.objects);
    let first = table_work(v.objects);
    let second = closing_of(v);
    let steps = steps_handed_out(outcomes);
    let head = opening_steps().len() as int;
    let middle = counter_steps(v.has_sequence).len() as int;
    let n = first.len() as int;
    let copying = StepView::Act(ActionView::CopyRows(tables[t].name));
    let place = head + tables.len() + t;
    assert(first[tables.len() + t] == ActionView::CopyRows(tables[t].name));
    assert forall|k: int| 0 <= k < steps.len() implies (#[trigger] steps[k] == copying <==> k
        == place) by {
        if k < head {
            assert(steps[k] == opening_steps()[k]);
        } else if k < head + n {
            assert(steps[k] == StepView::Act(first[k - head]));
            if k < head + tables.len() {
                assert(first[k - head] == table_creation(tables[k - head]));
            } else {
                let u = k - head - tables.len();
                assert(first[k - head] == ActionView::CopyRows(tables[u].name));
                if u < t {
                    assert(tables[u].name != tables[t].name);
                }
                if t < u {
                    assert(tables[t].name != tables[u].name);
                }
            }
        } else if k < head + n + middle {
            assert(steps[k] == counter_steps(v.has_sequence)[k - head - n]);
        } else if k < head + n + middle + second.len() {
            assert(steps[k] == StepView::Act(second[k - head - n - middle]));
        } else {
            assert(steps[k] == StepView::Verify);
        }
    }
}

/// What a rebuild came to once the rebuilt database was closed: a failure to
/// close it counts where nothing failed before.
pub fn close_rebuilt(
    result: Result<RebuildResult, DactylError>,
    closing: Option<DactylError>,
) -> (r: Result<RebuildResult, DactylError>)
    ensures
        rebuild_view(r) == closed(rebuild_view(result), error_view(closing)),
{
    match (result, closing) {
        (Ok(_), Some(e)) => Err(e),
        (first, _) => first,
    }
}

// ---------------------------------------------------------------------------
// What the statements and the work say
// ---------------------------------------------------------------------------

/// Names in a list: quoted, with a comma and a blank between neighbours.
pub open spec fn listed(columns: Seq<Seq<char>>) -> Seq<char>
    decreases columns.len(),
{
    if columns.len() <= 1 {
        if columns.len() == 0 {
            ""@
        } else {
            statement::quoted_identifier(columns[0])
        }
    } else {
        listed(columns.drop_last()) + ", "@ + statement::quoted_identifier(columns.last())
    }
}

/// Question marks in a list, with a comma and a blank between neighbours.
pub open spec fn marks(count: nat) -> Seq<char>
    decreases count,
{
    if count <= 1 {
        if count == 0 {
            ""@
        } else {
            "?"@
        }
    } else {
        marks((count - 1) as nat) + ", ?"@
    }
}

proof fn lemma_listed(columns: Seq<Seq<char>>)
    ensures
        text::joined(quoted_columns(columns), ", "@) == listed(columns),
    decreases columns.len(),
{
    reveal_strlit("");
    if columns.len() == 0 {
        assert(quoted_columns(columns) =~= Seq::<Seq<char>>::empty());
        assert(""@ =~= Seq::<char>::empty());
    } else if columns.len() > 1 {
        assert(quoted_columns(columns).drop_last() =~= quoted_columns(columns.drop_last()));
        lemma_listed(columns.drop_last());
    }
}

proof fn lemma_marks(count: nat)
    ensures
        text::joined(placeholders(count), ", "@) == marks(count),
    decreases count,
{
    reveal_strlit("");
    reveal_strlit(", ");
    reveal_strlit("?");
    reveal_strlit(", ?");
    if count == 0 {
        assert(placeholders(count) =~= Seq::<Seq<char>>::empty());
        assert(""@ =~= Seq::<char>::empty());
    } else if count > 1 {
        let fewer = (count - 1) as nat;
        assert(placeholders(count).drop_last() =~= placeholders(fewer));
        lemma_marks(fewer);
        assert(marks(fewer) + ", "@ + "?"@ =~= marks(fewer) + ", ?"@);
    }
}

/// The statements that copy a table name its columns in one order: what is
/// read from a place is inserted at that place, one question mark for each
/// column.
pub proof fn lemma_copies_name_every_column(table: Seq<char>, columns: Seq<Seq<char>>)
    ensures
        select_rows(table, columns) == "SELECT "@ + listed(columns) + " FROM "@
            + statement::quoted_identifier(table) + " NOT INDEXED"@,
        insert_row(table, columns) == "INSERT INTO "@ + statement::quoted_identifier(table)
            + " ("@ + listed(columns) + ") VALUES ("@ + marks(columns.len()) + ")"@,
{
    lemma_listed(columns);
    lemma_marks(columns.len());
}

/// A column is inserted as what it was read as: nothing, the same integer, the
/// same real, the same text or the same bytes. A column that holds none of
/// these is not inserted.
pub proof fn lemma_copied_columns(cell: RawCell, s: Seq<char>)
    ensures
        cell is Null ==> copied(cell) == Ok::<ParameterView, ErrorView>(ParameterView::Null),
        cell is Integer ==> copied(cell) == Ok::<ParameterView, ErrorView>(
            ParameterView::Integer(cell->Integer_0),
        ),
        cell is Float && cell->Float_0 % 0x8000_0000_0000_0000 < 0x7ff0_0000_0000_0000 ==> copied(
            cell,
        ) == Ok::<ParameterView, ErrorView>(ParameterView::Real(cell->Float_0)),
        cell is Float && cell->Float_0 % 0x8000_0000_0000_0000 >= 0x7ff0_0000_0000_0000 ==> copied(
            cell,
        ) is Err,
        cell is Text && cell->Text_0@ == vstd::utf8::encode_utf8(s) ==> copied(cell) == Ok::<
            ParameterView,
            ErrorView,
        >(ParameterView::Text(s)),
        cell is Text && !vstd::utf8::valid_utf8(cell->Text_0@) ==> copied(cell) is Err,
        cell is Blob ==> copied(cell) == Ok::<ParameterView, ErrorView>(
            ParameterView::Blob(cell->Blob_0@),
        ),
        cell is MissingText || cell is MissingBlob || cell is Unknown ==> copied(cell) is Err,
        copied(cell) is Err ==> copied(cell)->Err_0.kind() == Some(AdapterErrorKind::Value),
{
    cells::lemma_columns_by_kind(cell, s);
    if let RawCell::Blob(b) = cell {
        crate::value::lemma_blob_round_trip(b@);
    }
    if cell is Float {
        crate::value::lemma_finite_bits(cell->Float_0);
    }
}

/// A row is inserted with its columns, one for one and in order; one that
/// cannot pass fails the row.
pub proof fn lemma_copied_rows(row: Seq<RawCell>)
    requires
        row.len() <= i32::MAX,
    ensures
        copied_row(row) is Ok <==> forall|i: int|
            0 <= i < row.len() ==> copied(#[trigger] row[i]) is Ok,
        copied_row(row) is Ok ==> copied_row(row)->Ok_0.len() == row.len(),
        copied_row(row) is Ok ==> forall|i: int|
            0 <= i < row.len() ==> copied(#[trigger] row[i]) == Ok::<ParameterView, ErrorView>(
                copied_row(row)->Ok_0[i],
            ),
    decreases row.len(),
{
    if row.len() > 0 {
        let head = row.drop_last();
        lemma_copied_rows(head);
        assert forall|i: int| 0 <= i < head.len() implies #[trigger] head[i] == row[i] by {}
        if copied_row(row) is Ok {
            assert forall|i: int| 0 <= i < row.len() implies copied(#[trigger] row[i]) == Ok::<
                ParameterView,
                ErrorView,
            >(copied_row(row)->Ok_0[i]) by {
                if i < head.len() {
                    assert(copied(head[i]) == copied(row[i]));
                }
            }
        } else if copied_row(head) is Err {
            let i = choose|i: int| 0 <= i < head.len() && !(copied(#[trigger] head[i]) is Ok);
            assert(!(copied(row[i]) is Ok));
        } else {
            assert(!(copied(row[row.len() - 1]) is Ok));
        }
    }
}

/// The copy of a table, step by step: its columns are asked for by their
/// names, then each row is taken and inserted. A table without columns has
/// nothing to copy, the last row ends the copy, and an error fails it.
pub proof fn lemma_table_copies(v: CopyView, table: Seq<char>, outcome: CopyOutcomeView)
    ensures
        copy_started(table).next == CopyStepView::Describe(
            "PRAGMA "@ + "table_info"@ + "("@ + statement::quoted_identifier(table) + ")"@,
        ),
        outcome is End ==> v.after(outcome).next is Finished,
        outcome is Inserted ==> v.after(outcome).next == CopyStepView::Fetch(
            select_rows(v.table, v.columns),
        ),
        outcome is Error ==> v.after(outcome).next is Failed && v.after(outcome).error == Some(
            outcome->Error_0,
        ),
        outcome is Row && copied_row(outcome->Row_0) is Ok ==> v.after(outcome).next
            == CopyStepView::Insert(
            insert_row(v.table, v.columns),
            copied_row(outcome->Row_0)->Ok_0,
        ),
        outcome is Row && copied_row(outcome->Row_0) is Err ==> v.after(outcome).next is Failed,
        outcome is Described && outcome->Described_0.len() == 0 ==> v.after(outcome).next
            is Finished,
        v.after(outcome).table == v.table,
        !(outcome is Described) ==> v.after(outcome).columns == v.columns,
{
}

/// The columns of a table that is copied are the names in the rows that
/// describe it, one for one and in order.
pub proof fn lemma_copied_columns_are_the_described(v: CopyView, info: Seq<RowView>)
    requires
        info.len() > 0,
    ensures
        v.after(CopyOutcomeView::Described(info)).next is Failed <==> exists|k: int|
            0 <= k < info.len() && inspect::text_in(#[trigger] info[k], 1) is None,
        !(v.after(CopyOutcomeView::Described(info)).next is Failed) ==> {
            let w = v.after(CopyOutcomeView::Described(info));
            &&& w.columns.len() == info.len()
            &&& forall|k: int|
                0 <= k < info.len() ==> inspect::text_in(#[trigger] info[k], 1) == Some(
                    w.columns[k],
                )
            &&& w.next == CopyStepView::Fetch(select_rows(v.table, w.columns))
        },
{
    lemma_described(info);
}

proof fn lemma_described(info: Seq<RowView>)
    ensures
        inspect::texts_at(info, 1) is Err <==> exists|k: int|
            0 <= k < info.len() && inspect::text_in(#[trigger] info[k], 1) is None,
        inspect::texts_at(info, 1) is Ok ==> {
            let columns = inspect::texts_at(info, 1)->Ok_0;
            &&& columns.len() == info.len()
            &&& forall|k: int|
                0 <= k < info.len() ==> inspect::text_in(#[trigger] info[k], 1) == Some(columns[k])
        },
    decreases info.len(),
{
    if info.len() > 0 {
        let rest = info.drop_first();
        lemma_described(rest);
        inspect::lemma_catalog_cells(info[0], 1);
        assert forall|k: int| 0 <= k < rest.len() implies #[trigger] rest[k] == info[k + 1] by {}
        if inspect::text_at(info[0], 1) is Ok {
            if inspect::texts_at(rest, 1) is Err {
                let k = choose|k: int|
                    0 <= k < rest.len() && inspect::text_in(#[trigger] rest[k], 1) is None;
                assert(inspect::text_in(info[k + 1], 1) is None);
            } else {
                assert forall|k: int| 0 <= k < info.len() implies inspect::text_in(
                    #[trigger] info[k],
                    1,
                ) == Some(inspect::texts_at(info, 1)->Ok_0[k]) by {
                    if k > 0 {
                        assert(rest[k - 1] == info[k]);
                    }
                }
            }
        }
    }
}

/// The objects of a database are its rows, one for one and in order: the first
/// cell is the kind, the second the name and the third the statement. A row
/// with another cell in one of these places is refused.
pub proof fn lemma_recovered_objects(all: Seq<RowView>)
    ensures
        objects_of(all) is Ok <==> forall|k: int|
            0 <= k < all.len() ==> inspect::text_in(#[trigger] all[k], 0) is Some
                && inspect::text_in(all[k], 1) is Some && inspect::text_in(all[k], 2) is Some,
        objects_of(all) is Ok ==> objects_of(all)->Ok_0.len() == all.len(),
        objects_of(all) is Ok ==> forall|k: int|
            0 <= k < all.len() ==> {
                let object = #[trigger] objects_of(all)->Ok_0[k];
                &&& Some(object.kind) == inspect::text_in(all[k], 0)
                &&& Some(object.name) == inspect::text_in(all[k], 1)
                &&& Some(object.sql) == inspect::text_in(all[k], 2)
            },
    decreases all.len(),
{
    if all.len() > 0 {
        let head = all.drop_last();
        lemma_recovered_objects(head);
        let last = all.last();
        inspect::lemma_catalog_cells(last, 0);
        inspect::lemma_catalog_cells(last, 1);
        inspect::lemma_catalog_cells(last, 2);
        assert forall|k: int| 0 <= k < head.len() implies #[trigger] head[k] == all[k] by {}
        if objects_of(head) is Err {
            let k = choose|k: int|
                0 <= k < head.len() && !(inspect::text_in(#[trigger] head[k], 0) is Some
                    && inspect::text_in(head[k], 1) is Some && inspect::text_in(head[k], 2)
                    is Some);
            assert(all[k] == head[k]);
        } else if objects_of(all) is Err {
            assert(all[all.len() - 1] == last);
        } else {
            assert forall|k: int| 0 <= k < all.len() implies ({
                let object = #[trigger] objects_of(all)->Ok_0[k];
                &&& Some(object.kind) == inspect::text_in(all[k], 0)
                &&& Some(object.name) == inspect::text_in(all[k], 1)
                &&& Some(object.sql) == inspect::text_in(all[k], 2)
            }) by {
                if k < head.len() {
                    assert(objects_of(head)->Ok_0[k] == objects_of(all)->Ok_0[k]);
                }
            }
            assert forall|k: int| 0 <= k < all.len() implies inspect::text_in(#[trigger] all[k], 0)
                is Some && inspect::text_in(all[k], 1) is Some && inspect::text_in(all[k], 2)
                is Some by {
                let object = objects_of(all)->Ok_0[k];
            }
        }
    }
}

/// The tables of a database are created in the order in which they are listed,
/// and their rows are copied behind that in the same order. An object of
/// another kind adds nothing to this part of the work.
pub proof fn lemma_tables_add_their_work(
    objects: Seq<RecoveryObjectView>,
    object: RecoveryObjectView,
)
    ensures
        table_work(Seq::empty()) == Seq::<ActionView>::empty(),
        object.kind != "table"@ ==> table_work(objects.push(object)) == table_work(objects),
        object.kind == "table"@ ==> {
            let work = table_work(objects);
            let n = work.len() as int / 2;
            &&& work.len() == 2 * n
            &&& table_work(objects.push(object)) == work.take(n) + seq![
                if text::holds(text::lower(object.sql), "virtual table"@) {
                    ActionView::RefuseVirtual(object.name)
                } else {
                    ActionView::CreateTable(object.sql)
                },
            ] + work.skip(n) + seq![ActionView::CopyRows(object.name)]
        },
{
    let keep = |o: RecoveryObjectView| o.kind == "table"@;
    let more = objects.push(object);
    let last = objects.len() as int;
    lemma_filter_take(more, keep, last);
    assert(more.take(last + 1) =~= more);
    assert(more.take(last) =~= objects);
    let none = Seq::<RecoveryObjectView>::empty();
    assert(none.filter(keep) =~= none) by {
        reveal(Seq::filter);
    }
    assert(table_work(none) =~= Seq::<ActionView>::empty());
    if object.kind == "table"@ {
        let tables = tables_of(objects);
        assert(tables_of(more) == tables.push(object));
        let work = table_work(objects);
        let n = work.len() as int / 2;
        assert(n == tables.len());
        assert(table_work(more) =~= work.take(n) + seq![table_creation(object)] + work.skip(n)
            + seq![ActionView::CopyRows(object.name)]);
    }
}

/// The rest of the work on a database without objects: the counters, where the
/// source has some, in place of those that the rebuilt database has made, and
/// the versions and the journal mode, which come last.
pub proof fn lemma_closing_work_without_objects(
    has_sequence: bool,
    has_own: bool,
    user_version: i64,
    application_id: i64,
)
    ensures
        ({
            let work = closing_work(
                Seq::empty(),
                has_sequence,
                has_own,
                user_version,
                application_id,
            );
            let n = work.len() as int;
            &&& n == 3 + (if has_sequence {
                1int
            } else {
                0
            }) + (if has_sequence && has_own {
                1int
            } else {
                0
            })
            &&& has_sequence && has_own ==> work[0] == ActionView::ClearCounters(
                "DELETE FROM sqlite_sequence"@,
            )
            &&& has_sequence ==> work[n - 4] == ActionView::CopyRows("sqlite_sequence"@)
            &&& work[n - 3] == ActionView::SetVersion(
                "PRAGMA user_version = "@ + text::signed_decimal(user_version as int),
            )
            &&& work[n - 2] == ActionView::SetApplication(
                "PRAGMA application_id = "@ + text::signed_decimal(application_id as int),
            )
            &&& work[n - 1] == ActionView::SetJournal("PRAGMA journal_mode = DELETE"@)
        }),
{
    let none = Seq::<RecoveryObjectView>::empty();
    reveal(Seq::filter);
    assert(others_of(none) =~= none);
}

/// Each index, view and trigger is created by its own statement, in the order
/// in which they are listed, behind the counters and before the versions. An
/// object of another kind adds nothing to this part of the work.
pub proof fn lemma_objects_add_their_work(
    objects: Seq<RecoveryObjectView>,
    object: RecoveryObjectView,
    has_sequence: bool,
    has_own: bool,
    user_version: i64,
    application_id: i64,
)
    ensures
        ({
            let work = closing_work(objects, has_sequence, has_own, user_version, application_id);
            let more = closing_work(
                objects.push(object),
                has_sequence,
                has_own,
                user_version,
                application_id,
            );
            let n = work.len() - 3;
            &&& n >= 0
            &&& if object.kind == "index"@ || object.kind == "view"@ || object.kind == "trigger"@ {
                more == work.take(n) + seq![ActionView::CreateObject(object.sql)] + work.skip(n)
            } else {
                more == work
            }
        }),
{
    let keep = |o: RecoveryObjectView|
        o.kind == "index"@ || o.kind == "view"@ || o.kind == "trigger"@;
    let listed = objects.push(object);
    let last = objects.len() as int;
    lemma_filter_take(listed, keep, last);
    assert(listed.take(last + 1) =~= listed);
    assert(listed.take(last) =~= objects);
    let work = closing_work(objects, has_sequence, has_own, user_version, application_id);
    let more = closing_work(listed, has_sequence, has_own, user_version, application_id);
    let n = work.len() - 3;
    if keep(object) {
        assert(others_of(listed) == others_of(objects).push(object));
        assert(more =~= work.take(n) + seq![ActionView::CreateObject(object.sql)] + work.skip(n));
    }
}

/// A rebuild reads the versions and the objects of the source before anything
/// else, with foreign keys switched off, and asks for the counters of both
/// databases by one statement.
pub proof fn lemma_rebuild_queries(v: RebuildView)
    ensures
        v.stage is Unguard ==> v.next() == StepView::Execute("PRAGMA foreign_keys = OFF"@),
        v.stage is ReadVersion ==> v.next() == StepView::QuerySource("PRAGMA "@ + "user_version"@),
        v.stage is ReadApplication ==> v.next() == StepView::QuerySource(
            "PRAGMA "@ + "application_id"@,
        ),
        v.stage is ReadObjects ==> v.next() == StepView::QuerySource(
            "SELECT type, name, sql FROM sqlite_schema WHERE sql IS NOT NULL AND substr(name, 1, 7) <> 'sqlite_' ORDER BY CASE type WHEN 'table' THEN 0 WHEN 'index' THEN 1 WHEN 'view' THEN 2 WHEN 'trigger' THEN 3 ELSE 4 END, name"@,
        ),
        v.stage is FindCounters ==> v.next() == StepView::QuerySource(
            "SELECT name FROM sqlite_schema WHERE type = 'table' AND name = 'sqlite_sequence'"@,
        ),
        v.stage is FindRebuiltCounters ==> v.next() == StepView::QueryRebuilt(
            "SELECT name FROM sqlite_schema WHERE type = 'table' AND name = 'sqlite_sequence'"@,
        ),
{
}

/// What a rebuild keeps of the answers: the two versions are the integers that
/// were read, the objects are those that were listed, and there are counters
/// exactly where the answer has a row.
pub proof fn lemma_rebuild_answers(v: RebuildView, found: Seq<RowView>)
    requires
        v.next() is QuerySource || v.next() is QueryRebuilt,
        v.wf(),
    ensures
        ({
            let w = v.after(OutcomeView::Answer(found));
            let number = if found.len() > 0 {
                inspect::number_in(found[0], 0)
            } else {
                None
            };
            &&& v.stage is ReadVersion ==> if number is Some {
                w.stage is ReadApplication && Some(w.user_version as int) == number
                    && w.application_id == v.application_id
            } else {
                w.stage is Failed
            }
            &&& v.stage is ReadApplication ==> if number is Some {
                w.stage is ReadObjects && Some(w.application_id as int) == number && w.user_version
                    == v.user_version
            } else {
                w.stage is Failed
            }
            &&& v.stage is ReadObjects ==> if objects_of(found) is Ok {
                w.objects == objects_of(found)->Ok_0
            } else {
                w.stage is Failed
            }
            &&& v.stage is FindCounters ==> (w.stage is FindRebuiltCounters <==> found.len() > 0)
            &&& v.stage is FindCounters ==> (w.has_sequence <==> found.len() > 0)
            &&& v.stage is FindRebuiltCounters ==> w.has_sequence && (w.has_own <==> found.len()
                > 0)
            &&& !(v.stage is ReadVersion) ==> w.user_version == v.user_version
            &&& !(v.stage is ReadApplication) ==> w.application_id == v.application_id
            &&& !(v.stage is ReadObjects) ==> w.objects == v.objects
        }),
{
    if found.len() > 0 {
        inspect::lemma_catalog_cells(found[0], 0);
    }
}

/// A virtual table ends the rebuild before anything of it is created, and the
/// error names it.
pub proof fn lemma_virtual_tables_are_refused(v: RebuildView, name: Seq<char>)
    requires
        v.stage is Fill || v.stage is Close,
        0 <= v.at,
        v.at + 1 < v.work.len(),
        v.work[v.at + 1] == ActionView::RefuseVirtual(name),
    ensures
        ({
            let w = v.after(OutcomeView::Done);
            &&& w.stage is Failed
            &&& w.error == Some(
                ErrorView::Adapter {
                    kind: AdapterErrorKind::Capability,
                    code: Some("unsupported_recovery_object"@),
                    message: "logical recovery does not support virtual table "@ + name,
                },
            )
        }),
{
}

/// Where SQLite refuses a statement the rebuild fails, and the error says what
/// was being done. An error of another step is told as it is.
pub proof fn lemma_refused_work(v: RebuildView, f: SqliteFailure, e: ErrorView)
    ensures
        ({
            let w = v.after(OutcomeView::Sqlite(f));
            let told = |label: Seq<char>| w.error == Some(statement::failure_error(label, f));
            &&& w.stage is Failed
            &&& v.stage is Unguard ==> told("disable recovery foreign keys"@)
            &&& v.stage is Fill || v.stage is Close ==> {
                let action = v.work[v.at];
                &&& action is CreateTable ==> told("create recovered SQLite table"@)
                &&& action is ClearCounters ==> told("clear recovered SQLite counters"@)
                &&& action is CreateObject ==> told("create recovered SQLite schema object"@)
                &&& action is SetVersion ==> told("restore SQLite user_version"@)
                &&& action is SetApplication ==> told("restore SQLite application_id"@)
                &&& action is SetJournal ==> told("set recovered SQLite journal mode"@)
            }
        }),
        v.after(OutcomeView::Error(e)).stage is Failed,
        v.after(OutcomeView::Error(e)).error == Some(e),
{
}

/// A rebuilt database passes exactly where its journal mode is `delete` in
/// whatever case; another mode is named in the error.
pub proof fn lemma_journal_modes(v: RebuildView, report: ReportView)
    requires
        v.error is None,
    ensures
        ({
            let w = v.after(OutcomeView::Report(report));
            &&& w.stage is Finished <==> text::lower(report.journal_mode) == "delete"@
            &&& w.stage is Finished ==> w.error is None
            &&& !(w.stage is Finished) ==> w.stage is Failed && w.error == Some(
                ErrorView::Adapter {
                    kind: AdapterErrorKind::Storage,
                    code: Some("recovery_journal_mode_mismatch"@),
                    message: "recovered SQLite journal mode is "@ + report.journal_mode,
                },
            )
        }),
{
}

/// What a rebuild that is over came to.
pub open spec fn rebuilt(v: RebuildView) -> Result<RebuildResult, ErrorView> {
    match v.error {
        Some(e) => Err(e),
        None => Ok(
            RebuildResult { user_version: v.user_version, application_id: v.application_id },
        ),
    }
}

/// What a rebuild came to once the rebuilt database was closed.
pub open spec fn closed(
    result: Result<RebuildResult, ErrorView>,
    closing: Option<ErrorView>,
) -> Result<RebuildResult, ErrorView> {
    match (result, closing) {
        (Ok(_), Some(e)) => Err(e),
        (first, _) => first,
    }
}

/// A rebuild that is over and whose database was closed succeeds exactly where
/// nothing failed, with the two versions that were read of the source; and the
/// first failure is the one that is told.
pub proof fn lemma_rebuilds_end(v: RebuildView, closing: Option<ErrorView>)
    ensures
        closed(rebuilt(v), closing) is Ok <==> v.error is None && closing is None,
        closed(rebuilt(v), closing) is Ok ==> closed(rebuilt(v), closing)->Ok_0.user_version
            == v.user_version && closed(rebuilt(v), closing)->Ok_0.application_id
            == v.application_id,
        v.error matches Some(e) ==> closed(rebuilt(v), closing) == Err::<
            RebuildResult,
            ErrorView,
        >(e),
        v.error is None && closing is Some ==> closed(rebuilt(v), closing) == Err::<
            RebuildResult,
            ErrorView,
        >(closing->Some_0),
{
}

} // verus!
