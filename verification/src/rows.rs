//! Row projection returned by a read.
//!
//! Each [`Row`] owns its column names and cell values as JSON. Named lookup is
//! stable across SQLite and Neon because both adapters normalize cells into
//! this shape before returning.
//!
//! | Concern | Semantics |
//! |---|---|
//! | Integer | JSON number that fits `i64` (`get_int`) |
//! | Real | JSON number (`get_real`; integers are accepted as reals) |
//! | Boolean | JSON `true`/`false`, or integer `0`/`1` via `get_bool` (SQLite stores bools as integers) |
//! | Text | JSON string (`get_str` / `get_str_ref`) |
//! | Blob | JSON array of bytes (`get_blob`) |
//! | JSON / text | Low-level cell via `get_json` / `get_json_ref`; text payloads stay strings until the caller parses them |
//! | SQL NULL | JSON `null`. Typed getters return [`DactylError::Conversion`]. `is_null` / `get_json` surface null without converting. |
//! | Missing column | [`DactylError::ColumnNotFound`] |
//! | Duplicate aliases | Left-to-right first match. Positional indexes still reach later duplicates. |
//! | Conversion failure | [`DactylError::Conversion`] with the column key and a reason string |
//! | Ownership | Getters return owned values independent of the row, except `get_str_ref` / `get_json_ref`, which borrow from it. |

use vstd::prelude::*;

use crate::error::{DactylError, ErrorView};
use crate::text;
use crate::value::{Number, Value, ValueView};

verus! {

/// A collection of result rows.
#[derive(Debug, Clone, PartialEq, Eq)]
pub struct Rows(pub Vec<Row>);

impl Rows {
    /// Borrow the rows as a slice.
    pub fn as_slice(&self) -> (r: &[Row])
        ensures
            r@ == self.0@,
    {
        self.0.as_slice()
    }

    /// Iterate over rows.
    pub fn iter(&self) -> (r: std::slice::Iter<'_, Row>)
        ensures
            vstd::std_specs::iter::IteratorSpec::remaining(&r) == self.0@.as_ref(),
    {
        self.0.as_slice().iter()
    }

    /// Number of rows.
    pub fn len(&self) -> (r: usize)
        ensures
            r == self.0@.len(),
    {
        self.0.len()
    }

    /// Whether the result is empty.
    pub fn is_empty(&self) -> (r: bool)
        ensures
            r == (self.0@.len() == 0),
    {
        self.0.len() == 0
    }
}

impl Default for Rows {
    fn default() -> (r: Self)
        ensures
            r.0@.len() == 0,
    {
        Rows(Vec::new())
    }
}

impl IntoIterator for Rows {
    type Item = Row;

    type IntoIter = std::vec::IntoIter<Row>;

    fn into_iter(self) -> (r: std::vec::IntoIter<Row>)
        ensures
            vstd::std_specs::iter::IteratorSpec::remaining(&r) == self.0@,
    {
        self.0.into_iter()
    }
}

/// One result row. Carries the column names plus the per-cell JSON values.
///
/// The row owns both vectors; callers may keep it after the connection is
/// gone.
#[derive(Debug, Clone, PartialEq, Eq)]
pub struct Row {
    /// Column names, in the order the adapter emitted them.
    ///
    /// Duplicate names are allowed (SQL aliases). Named getters resolve the
    /// first occurrence left to right; use a positional [`usize`] index to
    /// reach a later duplicate.
    pub columns: Vec<String>,
    /// Per-cell values, parallel to `columns`.
    pub values: Vec<Value>,
}

/// What a [`Row`] says.
#[verifier::ext_equal]
pub ghost struct RowView {
    pub columns: Seq<Seq<char>>,
    pub values: Seq<ValueView>,
}

/// The texts of a sequence of strings.
pub open spec fn texts(strings: Seq<String>) -> Seq<Seq<char>> {
    strings.map_values(|s: String| s@)
}

/// What a sequence of rows says.
pub open spec fn row_views(rows: Seq<Row>) -> Seq<RowView> {
    rows.map_values(|r: Row| r@)
}

/// The first position of a name in a list of names.
pub open spec fn first_position(names: Seq<Seq<char>>, name: Seq<char>) -> Option<int>
    decreases names.len(),
{
    if names.len() == 0 {
        None
    } else if names[0] == name {
        Some(0)
    } else {
        match first_position(names.drop_first(), name) {
            Some(i) => Some(i + 1),
            None => None,
        }
    }
}

/// A found position holds the name and no earlier one does; where none is
/// found, none holds it.
pub proof fn lemma_first_position(names: Seq<Seq<char>>, name: Seq<char>)
    ensures
        match first_position(names, name) {
            Some(i) => {
                &&& 0 <= i < names.len()
                &&& names[i] == name
                &&& forall|j: int| 0 <= j < i ==> #[trigger] names[j] != name
            },
            None => !names.contains(name),
        },
    decreases names.len(),
{
    if names.len() > 0 && names[0] != name {
        let rest = names.drop_first();
        lemma_first_position(rest, name);
        match first_position(rest, name) {
            Some(i) => {
                assert forall|j: int| 0 <= j < i + 1 implies #[trigger] names[j] != name by {
                    if j > 0 {
                        assert(rest[j - 1] == names[j]);
                    }
                }
            },
            None => {
                if names.contains(name) {
                    let j = choose|j: int| 0 <= j < names.len() && names[j] == name;
                    assert(rest[j - 1] == name);
                }
            },
        }
    }
}

/// The position of a name in a list of names.
pub fn position_of(names: &Vec<String>, name: &str) -> (r: Option<usize>)
    ensures
        match r {
            Some(i) => first_position(texts(names@), name@) == Some(i as int) && i < names@.len(),
            None => first_position(texts(names@), name@) is None,
        },
{
    let ghost all = texts(names@);
    let mut i: usize = 0;
    assert(all.skip(0) =~= all);
    while i < names.len()
        invariant
            i <= names@.len(),
            all == texts(names@),
            first_position(all, name@) == match first_position(all.skip(i as int), name@) {
                Some(k) => Some(k + i),
                None => None,
            },
        decreases names@.len() - i,
    {
        assert(all.skip(i as int)[0] == names@[i as int]@);
        assert(all.skip(i as int).drop_first() =~= all.skip(i + 1));
        if text::str_eq(names[i].as_str(), name) {
            return Some(i);
        }
        i = i + 1;
    }
    None
}

/// Row indexing by position or column name.
///
/// Named indexes (`&str`, `String`) resolve left to right, first match, when
/// a result set contains duplicate column aliases.
pub trait RowIndex: Sized {
    /// The position that the index means among these columns.
    spec fn position(&self, columns: Seq<Seq<char>>) -> Option<int>;

    /// The index as messages show it.
    spec fn shown(&self) -> Seq<char>;

    /// Return the resolved index in `row`, or `None` if the name is absent.
    fn idx(&self, row: &Row) -> (r: Option<usize>)
        ensures
            match r {
                Some(i) => self.position(row@.columns) == Some(i as int),
                None => self.position(row@.columns) is None,
            },
    ;

    /// The index as messages show it.
    fn label(&self) -> (r: String)
        ensures
            r@ == self.shown(),
    ;
}

impl RowIndex for usize {
    open spec fn position(&self, columns: Seq<Seq<char>>) -> Option<int> {
        Some(*self as int)
    }

    open spec fn shown(&self) -> Seq<char> {
        text::decimal(*self as nat)
    }

    fn idx(&self, row: &Row) -> (r: Option<usize>) {
        Some(*self)
    }

    fn label(&self) -> (r: String) {
        text::decimal_text(*self as u64)
    }
}

impl RowIndex for &str {
    open spec fn position(&self, columns: Seq<Seq<char>>) -> Option<int> {
        first_position(columns, (*self)@)
    }

    open spec fn shown(&self) -> Seq<char> {
        text::debug_form((*self)@)
    }

    fn idx(&self, row: &Row) -> (r: Option<usize>) {
        position_of(&row.columns, self)
    }

    fn label(&self) -> (r: String) {
        text::debug_text(self)
    }
}

impl RowIndex for String {
    open spec fn position(&self, columns: Seq<Seq<char>>) -> Option<int> {
        first_position(columns, self@)
    }

    open spec fn shown(&self) -> Seq<char> {
        text::debug_form(self@)
    }

    fn idx(&self, row: &Row) -> (r: Option<usize>) {
        position_of(&row.columns, self.as_str())
    }

    fn label(&self) -> (r: String) {
        text::debug_text(self.as_str())
    }
}

/// The error for NULL in a column that a typed getter reads.
pub open spec fn null_error(index: Seq<char>) -> ErrorView {
    ErrorView::Conversion(
        "column "@ + index + " is NULL; use Option<T> with get for nullable columns"@,
    )
}

/// The error for a cell of another type than the getter's.
pub open spec fn type_error(cell: ValueView, wanted: Seq<char>, index: Seq<char>) -> ErrorView {
    ErrorView::Conversion(
        "cannot read "@ + cell.shown() + " as "@ + wanted + " at column "@ + index,
    )
}

impl RowView {
    /// The position of the cell that an index means, or why there is none.
    pub open spec fn located<I: RowIndex>(self, index: I) -> Result<int, ErrorView> {
        match index.position(self.columns) {
            None => Err(ErrorView::ColumnNotFound(index.shown())),
            Some(i) => if i < self.values.len() {
                Ok(i)
            } else {
                Err(
                    ErrorView::ColumnNotFound(
                        "index "@ + text::decimal(i as nat) + " out of bounds"@,
                    ),
                )
            },
        }
    }

    /// The cell that an index means.
    pub open spec fn cell<I: RowIndex>(self, index: I) -> Result<ValueView, ErrorView> {
        match self.located(index) {
            Ok(i) => Ok(self.values[i]),
            Err(e) => Err(e),
        }
    }

    /// The lenient boolean of a cell.
    pub open spec fn bool_at<I: RowIndex>(self, index: I) -> Result<bool, ErrorView> {
        match self.cell(index) {
            Err(e) => Err(e),
            Ok(cell) => match cell {
                ValueView::Null => Err(null_error(index.shown())),
                ValueView::Bool(b) => Ok(b),
                ValueView::Number(n) => if n.integer() == Some(0i64) {
                    Ok(false)
                } else if n.integer() == Some(1i64) {
                    Ok(true)
                } else {
                    Err(type_error(cell, "bool"@, index.shown()))
                },
                _ => Err(type_error(cell, "bool"@, index.shown())),
            },
        }
    }

    /// The integer of a cell.
    pub open spec fn int_at<I: RowIndex>(self, index: I) -> Result<i64, ErrorView> {
        match self.cell(index) {
            Err(e) => Err(e),
            Ok(cell) => match cell {
                ValueView::Null => Err(null_error(index.shown())),
                ValueView::Number(n) => match n.integer() {
                    Some(v) => Ok(v),
                    None => Err(
                        ErrorView::Conversion("value is not i64 at column "@ + index.shown()),
                    ),
                },
                _ => Err(type_error(cell, "i64"@, index.shown())),
            },
        }
    }

    /// The number of a cell.
    pub open spec fn real_at<I: RowIndex>(self, index: I) -> Result<Number, ErrorView> {
        match self.cell(index) {
            Err(e) => Err(e),
            Ok(cell) => match cell {
                ValueView::Null => Err(null_error(index.shown())),
                ValueView::Number(n) => Ok(n),
                _ => Err(type_error(cell, "f64"@, index.shown())),
            },
        }
    }

    /// The text of a cell.
    pub open spec fn str_at<I: RowIndex>(self, index: I) -> Result<Seq<char>, ErrorView> {
        match self.cell(index) {
            Err(e) => Err(e),
            Ok(cell) => match cell {
                ValueView::Null => Err(null_error(index.shown())),
                ValueView::Text(s) => Ok(s),
                _ => Err(type_error(cell, "str"@, index.shown())),
            },
        }
    }

    /// The bytes of a cell.
    pub open spec fn blob_at<I: RowIndex>(self, index: I) -> Result<Seq<u8>, ErrorView> {
        match self.cell(index) {
            Err(e) => Err(e),
            Ok(cell) => if cell is Null {
                Err(null_error(index.shown()))
            } else if crate::value::is_blob(cell) {
                Ok(crate::value::blob_bytes(cell))
            } else {
                Err(type_error(cell, "blob"@, index.shown()))
            },
        }
    }
}

impl Row {
    pub open spec fn view(self) -> RowView {
        RowView {
            columns: texts(self.columns@),
            values: crate::value::value_views(self.values@),
        }
    }

    fn null_err<I: RowIndex>(index: &I) -> (r: DactylError)
        ensures
            r@ == null_error(index.shown()),
    {
        DactylError::Conversion(
            "column ".to_string().concat(index.label().as_str()).concat(
                " is NULL; use Option<T> with get for nullable columns",
            ),
        )
    }

    fn type_err<I: RowIndex>(cell: &Value, wanted: &str, index: &I) -> (r: DactylError)
        ensures
            r@ == type_error(cell@, wanted@, index.shown()),
    {
        DactylError::Conversion(
            "cannot read ".to_string().concat(cell.debug_text().as_str()).concat(" as ").concat(
                wanted,
            ).concat(" at column ").concat(index.label().as_str()),
        )
    }

    fn idx<I: RowIndex>(&self, index: &I) -> (r: Result<usize, DactylError>)
        ensures
            match self@.located(*index) {
                Ok(i) => r is Ok && r->Ok_0 == i && r->Ok_0 < self.values@.len(),
                Err(e) => r is Err && r->Err_0@ == e,
            },
    {
        match index.idx(self) {
            None => Err(DactylError::ColumnNotFound(index.label())),
            Some(i) => if i < self.values.len() {
                Ok(i)
            } else {
                Err(
                    DactylError::ColumnNotFound(
                        "index ".to_string().concat(text::decimal_text(i as u64).as_str()).concat(
                            " out of bounds",
                        ),
                    ),
                )
            },
        }
    }

    /// Strict typed extraction by the caller's conversion into an owned `T`.
    ///
    /// - Missing column: [`DactylError::ColumnNotFound`]; nothing is converted.
    /// - The conversion refuses SQL NULL: [`DactylError::Conversion`] that
    ///   says so.
    /// - The conversion refuses another cell: [`DactylError::Conversion`] with
    ///   its reason.
    /// - Duplicate aliases: first matching column (left to right).
    pub fn get<I: RowIndex, T, F: FnOnce(&Value) -> Result<T, String>>(
        &self,
        index: I,
        convert: F,
    ) -> (r: Result<T, DactylError>)
        requires
            self@.located(index) matches Ok(i) ==> call_requires(convert, (&self.values@[i],)),
        ensures
            match self@.located(index) {
                Err(e) => r is Err && r->Err_0@ == e,
                Ok(i) => exists|out: Result<T, String>| #[trigger]
                    call_ensures(convert, (&self.values@[i],), out) && match out {
                        Ok(v) => r is Ok && r->Ok_0 == v,
                        Err(reason) => r is Err && r->Err_0@ == if self@.values[i] is Null {
                            null_error(index.shown())
                        } else {
                            ErrorView::Conversion(
                                "failed to convert column "@ + index.shown()
                                    + " to target type: "@ + reason@,
                            )
                        },
                    },
            },
    {
        let i: usize = match self.idx(&index) {
            Ok(i) => i,
            Err(e) => {
                return Err(e);
            },
        };
        let cell = &self.values[i];
        match convert(cell) {
            Ok(v) => Ok(v),
            Err(reason) => if cell.is_null() {
                Err(Self::null_err(&index))
            } else {
                Err(
                    DactylError::Conversion(
                        "failed to convert column ".to_string().concat(
                            index.label().as_str(),
                        ).concat(" to target type: ").concat(reason.as_str()),
                    ),
                )
            },
        }
    }

    /// Alias for [`Self::get`]. Named for callers who prefer a `try_*` style.
    pub fn try_get<I: RowIndex, T, F: FnOnce(&Value) -> Result<T, String>>(
        &self,
        index: I,
        convert: F,
    ) -> (r: Result<T, DactylError>)
        requires
            self@.located(index) matches Ok(i) ==> call_requires(convert, (&self.values@[i],)),
        ensures
            match self@.located(index) {
                Err(e) => r is Err && r->Err_0@ == e,
                Ok(i) => exists|out: Result<T, String>| #[trigger]
                    call_ensures(convert, (&self.values@[i],), out) && match out {
                        Ok(v) => r is Ok && r->Ok_0 == v,
                        Err(reason) => r is Err && r->Err_0@ == if self@.values[i] is Null {
                            null_error(index.shown())
                        } else {
                            ErrorView::Conversion(
                                "failed to convert column "@ + index.shown()
                                    + " to target type: "@ + reason@,
                            )
                        },
                    },
            },
    {
        self.get(index, convert)
    }

    /// Whether the cell is SQL NULL.
    ///
    /// Missing column: [`DactylError::ColumnNotFound`].
    pub fn is_null<I: RowIndex>(&self, index: I) -> (r: Result<bool, DactylError>)
        ensures
            match self@.cell(index) {
                Ok(cell) => r is Ok && r->Ok_0 == (cell is Null),
                Err(e) => r is Err && r->Err_0@ == e,
            },
    {
        match self.idx(&index) {
            Ok(i) => Ok(self.values[i].is_null()),
            Err(e) => Err(e),
        }
    }

    /// Lenient owned `bool`: accepts JSON `true`/`false` or integer `0`/`1`.
    ///
    /// NULL: [`DactylError::Conversion`].
    pub fn get_bool<I: RowIndex>(&self, index: I) -> (r: Result<bool, DactylError>)
        ensures
            match self@.bool_at(index) {
                Ok(v) => r is Ok && r->Ok_0 == v,
                Err(e) => r is Err && r->Err_0@ == e,
            },
    {
        let i: usize = match self.idx(&index) {
            Ok(i) => i,
            Err(e) => {
                return Err(e);
            },
        };
        let cell = &self.values[i];
        match cell {
            Value::Null => Err(Self::null_err(&index)),
            Value::Bool(b) => Ok(*b),
            Value::Number(n) => match n.as_i64() {
                Some(0) => Ok(false),
                Some(1) => Ok(true),
                _ => Err(Self::type_err(cell, "bool", &index)),
            },
            _ => Err(Self::type_err(cell, "bool", &index)),
        }
    }

    /// Lenient owned `i64`: accepts JSON integers (not fractional reals).
    ///
    /// NULL: [`DactylError::Conversion`].
    pub fn get_int<I: RowIndex>(&self, index: I) -> (r: Result<i64, DactylError>)
        ensures
            match self@.int_at(index) {
                Ok(v) => r is Ok && r->Ok_0 == v,
                Err(e) => r is Err && r->Err_0@ == e,
            },
    {
        let i: usize = match self.idx(&index) {
            Ok(i) => i,
            Err(e) => {
                return Err(e);
            },
        };
        let cell = &self.values[i];
        match cell {
            Value::Null => Err(Self::null_err(&index)),
            Value::Number(n) => match n.as_i64() {
                Some(v) => Ok(v),
                None => Err(
                    DactylError::Conversion(
                        "value is not i64 at column ".to_string().concat(index.label().as_str()),
                    ),
                ),
            },
            _ => Err(Self::type_err(cell, "i64", &index)),
        }
    }

    /// Lenient owned number: accepts any JSON number (integers and reals).
    ///
    /// NULL: [`DactylError::Conversion`].
    pub fn get_real<I: RowIndex>(&self, index: I) -> (r: Result<Number, DactylError>)
        ensures
            match self@.real_at(index) {
                Ok(v) => r is Ok && r->Ok_0 == v,
                Err(e) => r is Err && r->Err_0@ == e,
            },
    {
        let i: usize = match self.idx(&index) {
            Ok(i) => i,
            Err(e) => {
                return Err(e);
            },
        };
        let cell = &self.values[i];
        match cell {
            Value::Null => Err(Self::null_err(&index)),
            Value::Number(n) => Ok(*n),
            _ => Err(Self::type_err(cell, "f64", &index)),
        }
    }

    /// Lenient owned `String`: accepts JSON string (clones the cell).
    ///
    /// NULL: [`DactylError::Conversion`]. Prefer [`Self::get_str_ref`] to
    /// borrow.
    pub fn get_str<I: RowIndex>(&self, index: I) -> (r: Result<String, DactylError>)
        ensures
            match self@.str_at(index) {
                Ok(v) => r is Ok && r->Ok_0@ == v,
                Err(e) => r is Err && r->Err_0@ == e,
            },
    {
        match self.get_str_ref(index) {
            Ok(s) => Ok(s.to_string()),
            Err(e) => Err(e),
        }
    }

    /// Borrowed `&str` tied to the row lifetime. Accepts JSON string only.
    ///
    /// NULL: [`DactylError::Conversion`]. The reference is valid while `self`
    /// lives.
    pub fn get_str_ref<I: RowIndex>(&self, index: I) -> (r: Result<&str, DactylError>)
        ensures
            match self@.str_at(index) {
                Ok(v) => r is Ok && r->Ok_0@ == v,
                Err(e) => r is Err && r->Err_0@ == e,
            },
    {
        let i: usize = match self.idx(&index) {
            Ok(i) => i,
            Err(e) => {
                return Err(e);
            },
        };
        let cell = &self.values[i];
        match cell {
            Value::Null => Err(Self::null_err(&index)),
            Value::Text(s) => Ok(s.as_str()),
            _ => Err(Self::type_err(cell, "str", &index)),
        }
    }

    /// Owned bytes: accepts a JSON array of integers from 0 to 255, the form
    /// in which blobs are normalized.
    ///
    /// NULL: [`DactylError::Conversion`].
    pub fn get_blob<I: RowIndex>(&self, index: I) -> (r: Result<Vec<u8>, DactylError>)
        ensures
            match self@.blob_at(index) {
                Ok(v) => r is Ok && r->Ok_0@ == v,
                Err(e) => r is Err && r->Err_0@ == e,
            },
    {
        let i: usize = match self.idx(&index) {
            Ok(i) => i,
            Err(e) => {
                return Err(e);
            },
        };
        let cell = &self.values[i];
        if cell.is_null() {
            return Err(Self::null_err(&index));
        }
        match cell.as_blob() {
            Some(bytes) => Ok(bytes),
            None => Err(Self::type_err(cell, "blob", &index)),
        }
    }

    /// Owned clone of the raw JSON cell (including `Null`).
    pub fn get_json<I: RowIndex>(&self, index: I) -> (r: Result<Value, DactylError>)
        ensures
            match self@.cell(index) {
                Ok(v) => r is Ok && r->Ok_0@ == v,
                Err(e) => r is Err && r->Err_0@ == e,
            },
    {
        match self.get_json_ref(index) {
            Ok(cell) => Ok(cell.duplicate()),
            Err(e) => Err(e),
        }
    }

    /// Borrowed raw JSON cell tied to the row lifetime (including `Null`).
    pub fn get_json_ref<I: RowIndex>(&self, index: I) -> (r: Result<&Value, DactylError>)
        ensures
            match self@.cell(index) {
                Ok(v) => r is Ok && r->Ok_0@ == v,
                Err(e) => r is Err && r->Err_0@ == e,
            },
    {
        match self.idx(&index) {
            Ok(i) => Ok(&self.values[i]),
            Err(e) => Err(e),
        }
    }
}

// ---------------------------------------------------------------------------
// Laws
// ---------------------------------------------------------------------------

/// A named lookup resolves to the first column of that name, and an index by
/// that position reaches the same cell.
pub proof fn lemma_named_lookup_is_first_match(row: RowView, name: &str, i: int)
    requires
        0 <= i < row.columns.len(),
        row.columns[i] == name@,
        forall|j: int| 0 <= j < i ==> #[trigger] row.columns[j] != name@,
        row.columns.len() == row.values.len() <= usize::MAX,
    ensures
        row.cell(name) == Ok::<ValueView, ErrorView>(row.values[i]),
        row.cell(i as usize) == row.cell(name),
{
    lemma_first_position(row.columns, name@);
    assert(row.columns.contains(name@));
}

/// A positional lookup reaches every column, whatever the names are.
pub proof fn lemma_positional_lookup_reaches_every_cell(row: RowView, i: usize)
    requires
        i < row.values.len(),
    ensures
        row.cell(i) == Ok::<ValueView, ErrorView>(row.values[i as int]),
{
}

/// A name that no column has is reported as a missing column by every getter.
pub proof fn lemma_missing_column_is_not_found(row: RowView, name: &str)
    requires
        !row.columns.contains(name@),
    ensures
        ({
            let e = ErrorView::ColumnNotFound(text::debug_form(name@));
            &&& row.cell(name) == Err::<ValueView, ErrorView>(e)
            &&& row.bool_at(name) == Err::<bool, ErrorView>(e)
            &&& row.int_at(name) == Err::<i64, ErrorView>(e)
            &&& row.real_at(name) == Err::<Number, ErrorView>(e)
            &&& row.str_at(name) == Err::<Seq<char>, ErrorView>(e)
            &&& row.blob_at(name) == Err::<Seq<u8>, ErrorView>(e)
        }),
{
    lemma_first_position(row.columns, name@);
}

/// Every typed getter refuses NULL with the same conversion error.
pub proof fn lemma_null_is_a_conversion_error<I: RowIndex>(row: RowView, index: I)
    requires
        row.cell(index) == Ok::<ValueView, ErrorView>(ValueView::Null),
    ensures
        row.bool_at(index) == Err::<bool, ErrorView>(null_error(index.shown())),
        row.int_at(index) == Err::<i64, ErrorView>(null_error(index.shown())),
        row.real_at(index) == Err::<Number, ErrorView>(null_error(index.shown())),
        row.str_at(index) == Err::<Seq<char>, ErrorView>(null_error(index.shown())),
        row.blob_at(index) == Err::<Seq<u8>, ErrorView>(null_error(index.shown())),
{
}


/// What each getter gives of each kind of cell. A boolean is read from a
/// boolean and from the integers 0 and 1; an integer from a number in the
/// signed range; a real from any number; a text from a text; a blob from an
/// array of bytes. Whatever else is there is a conversion error, never another
/// value.
pub proof fn lemma_getters_by_kind<I: RowIndex>(row: RowView, index: I, v: ValueView)
    requires
        row.cell(index) == Ok::<ValueView, ErrorView>(v),
    ensures
        row.bool_at(index) == Ok::<bool, ErrorView>(true) <==> (v == ValueView::Bool(true) || v
            == ValueView::Number(Number::PosInt(1)) || v == ValueView::Number(Number::NegInt(1))),
        row.bool_at(index) == Ok::<bool, ErrorView>(false) <==> (v == ValueView::Bool(false) || v
            == ValueView::Number(Number::PosInt(0)) || v == ValueView::Number(Number::NegInt(0))),
        row.int_at(index) is Ok <==> (v is Number && match v->Number_0 {
            Number::PosInt(n) => n < 0x8000_0000_0000_0000,
            Number::NegInt(_) => true,
            Number::Float(_) => false,
        }),
        row.int_at(index) is Ok ==> match v->Number_0 {
            Number::PosInt(n) => row.int_at(index)->Ok_0 == n,
            Number::NegInt(n) => row.int_at(index)->Ok_0 == n,
            Number::Float(_) => false,
        },
        row.real_at(index) is Ok <==> v is Number,
        row.real_at(index) is Ok ==> ValueView::Number(row.real_at(index)->Ok_0) == v,
        row.str_at(index) is Ok <==> v is Text,
        row.str_at(index) is Ok ==> ValueView::Text(row.str_at(index)->Ok_0) == v,
        row.blob_at(index) is Ok <==> exists|b: Seq<u8>| v == #[trigger] crate::value::blob_view(b),
        row.blob_at(index) is Ok ==> crate::value::blob_view(row.blob_at(index)->Ok_0) == v,
        row.bool_at(index) is Err ==> row.bool_at(index)->Err_0 is Conversion,
        row.int_at(index) is Err ==> row.int_at(index)->Err_0 is Conversion,
        row.real_at(index) is Err ==> row.real_at(index)->Err_0 is Conversion,
        row.str_at(index) is Err ==> row.str_at(index)->Err_0 is Conversion,
        row.blob_at(index) is Err ==> row.blob_at(index)->Err_0 is Conversion,
{
    crate::value::lemma_blobs(v);
    if crate::value::is_blob(v) {
        let b = choose|b: Seq<u8>| v == #[trigger] crate::value::blob_view(b);
        assert(crate::value::blob_bytes(v) == b);
    }
}

/// A position behind the last cell is a missing column to every getter.
pub proof fn lemma_position_out_of_bounds(row: RowView, i: usize)
    requires
        i >= row.values.len(),
    ensures
        row.cell(i) is Err && row.cell(i)->Err_0 is ColumnNotFound,
        row.bool_at(i) == Err::<bool, ErrorView>(row.cell(i)->Err_0),
        row.int_at(i) == Err::<i64, ErrorView>(row.cell(i)->Err_0),
        row.real_at(i) == Err::<Number, ErrorView>(row.cell(i)->Err_0),
        row.str_at(i) == Err::<Seq<char>, ErrorView>(row.cell(i)->Err_0),
        row.blob_at(i) == Err::<Seq<u8>, ErrorView>(row.cell(i)->Err_0),
{
}

/// What the typed getters say of a cell that they refuse: that it is null, or
/// what it holds and what was wanted, and at which column either way.
pub proof fn lemma_refused_cells<I: RowIndex>(row: RowView, index: I, v: ValueView)
    requires
        row.cell(index) == Ok::<ValueView, ErrorView>(v),
    ensures
        ({
            let null = ErrorView::Conversion(
                "column "@ + index.shown()
                    + " is NULL; use Option<T> with get for nullable columns"@,
            );
            let other = |wanted: Seq<char>|
                ErrorView::Conversion(
                    "cannot read "@ + v.shown() + " as "@ + wanted + " at column "@
                        + index.shown(),
                );
            &&& v is Null ==> row.bool_at(index) == Err::<bool, ErrorView>(null)
            &&& v is Null ==> row.int_at(index) == Err::<i64, ErrorView>(null)
            &&& v is Null ==> row.real_at(index) == Err::<Number, ErrorView>(null)
            &&& v is Null ==> row.str_at(index) == Err::<Seq<char>, ErrorView>(null)
            &&& v is Null ==> row.blob_at(index) == Err::<Seq<u8>, ErrorView>(null)
            &&& !(v is Null) && row.bool_at(index) is Err ==> row.bool_at(index)->Err_0 == other(
                "bool"@,
            )
            &&& !(v is Null) && !(v is Number) ==> row.int_at(index) == Err::<i64, ErrorView>(
                other("i64"@),
            )
            &&& v is Number && row.int_at(index) is Err ==> row.int_at(index)->Err_0
                == ErrorView::Conversion("value is not i64 at column "@ + index.shown())
            &&& !(v is Null) && row.real_at(index) is Err ==> row.real_at(index)->Err_0 == other(
                "f64"@,
            )
            &&& !(v is Null) && row.str_at(index) is Err ==> row.str_at(index)->Err_0 == other(
                "str"@,
            )
            &&& !(v is Null) && row.blob_at(index) is Err ==> row.blob_at(index)->Err_0 == other(
                "blob"@,
            )
        }),
{
}

/// What is said of a column that is not there: its name, or its position.
pub proof fn lemma_missing_columns(row: RowView, name: &str, i: usize)
    ensures
        (forall|k: int| 0 <= k < row.columns.len() ==> #[trigger] row.columns[k] != name@)
            ==> row.cell(name) == Err::<ValueView, ErrorView>(
            ErrorView::ColumnNotFound(text::debug_form(name@)),
        ),
        i >= row.values.len() ==> row.cell(i) == Err::<ValueView, ErrorView>(
            ErrorView::ColumnNotFound("index "@ + text::decimal(i as nat) + " out of bounds"@),
        ),
{
    lemma_first_position(row.columns, name@);
}

} // verus!
