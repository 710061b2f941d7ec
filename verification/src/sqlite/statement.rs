//! What SQL text says before SQLite reads it, and what SQLite's failures mean.

use vstd::prelude::*;

use crate::contract::{
    GeneratedKey, KeyView, Operation, OperationKind, OperationView, WriteResult, WriteView,
};
use crate::error::{AdapterErrorKind, DactylError, ErrorView};
use crate::text;

verus! {

pub const SQLITE_OK: i32 = 0;

pub const SQLITE_ERROR: i32 = 1;

pub const SQLITE_BUSY: i32 = 5;

pub const SQLITE_LOCKED: i32 = 6;

pub const SQLITE_READONLY: i32 = 8;

pub const SQLITE_IOERR: i32 = 10;

pub const SQLITE_CORRUPT: i32 = 11;

pub const SQLITE_CANTOPEN: i32 = 14;

pub const SQLITE_CONSTRAINT: i32 = 19;

pub const SQLITE_RANGE: i32 = 25;

pub const SQLITE_NOTADB: i32 = 26;

pub const SQLITE_ROW: i32 = 100;

pub const SQLITE_DONE: i32 = 101;

// ---------------------------------------------------------------------------
// Failures
// ---------------------------------------------------------------------------

/// The native error information that the stable mapping needs.
#[derive(Debug, Clone, PartialEq, Eq)]
pub struct SqliteFailure {
    pub code: i32,
    pub extended_code: i32,
    pub message: String,
}

/// The stable code of a constraint violation, told from SQLite's message.
pub open spec fn constraint_code(message: Seq<char>) -> Seq<char> {
    let m = text::lower(message);
    if text::holds(m, "foreign key"@) {
        "foreign_key_violation"@
    } else if text::holds(m, "not null"@) {
        "not_null_violation"@
    } else if text::holds(m, "unique"@) {
        "unique_violation"@
    } else {
        "constraint_failed"@
    }
}

/// The stable category and code of a SQLite failure.
pub open spec fn failure_kind(code: i32, message: Seq<char>) -> (AdapterErrorKind, Seq<char>) {
    if code == SQLITE_BUSY {
        (AdapterErrorKind::Busy, "busy"@)
    } else if code == SQLITE_LOCKED {
        (AdapterErrorKind::Locked, "locked"@)
    } else if code == SQLITE_READONLY {
        (AdapterErrorKind::ReadOnly, "read_only"@)
    } else if code == SQLITE_CONSTRAINT {
        (AdapterErrorKind::Constraint, constraint_code(message))
    } else if code == SQLITE_NOTADB || code == SQLITE_CORRUPT {
        (AdapterErrorKind::Corrupt, "corrupt_database"@)
    } else if code == SQLITE_CANTOPEN {
        (AdapterErrorKind::Unavailable, "cannot_open"@)
    } else if code == SQLITE_IOERR {
        (AdapterErrorKind::Storage, "storage_failure"@)
    } else if code == SQLITE_RANGE {
        (AdapterErrorKind::InvalidOperation, "invalid_parameters"@)
    } else {
        (AdapterErrorKind::Query, "sqlite_error"@)
    }
}

/// The error that a SQLite failure is reported as.
pub open spec fn failure_error(operation: Seq<char>, failure: SqliteFailure) -> ErrorView {
    let (kind, code) = failure_kind(failure.code, failure.message@);
    crate::error::coded(
        kind,
        code,
        operation + ": "@ + failure.message@ + " (extended code "@ + text::signed_decimal(
            failure.extended_code as int,
        ) + ")"@,
    )
}

/// The error that a SQLite failure is reported as.
pub fn map_sqlite_failure(operation: &str, failure: &SqliteFailure) -> (r: DactylError)
    ensures
        r@ == failure_error(operation@, *failure),
{
    let message: String = operation.to_string().concat(": ").concat(
        failure.message.as_str(),
    ).concat(" (extended code ").concat(
        text::signed_decimal_text(failure.extended_code as i64).as_str(),
    ).concat(")");
    let (kind, code): (AdapterErrorKind, &str) = if failure.code == SQLITE_BUSY {
        (AdapterErrorKind::Busy, "busy")
    } else if failure.code == SQLITE_LOCKED {
        (AdapterErrorKind::Locked, "locked")
    } else if failure.code == SQLITE_READONLY {
        (AdapterErrorKind::ReadOnly, "read_only")
    } else if failure.code == SQLITE_CONSTRAINT {
        let lower: String = text::to_lower(failure.message.as_str());
        if text::contains(lower.as_str(), "foreign key") {
            (AdapterErrorKind::Constraint, "foreign_key_violation")
        } else if text::contains(lower.as_str(), "not null") {
            (AdapterErrorKind::Constraint, "not_null_violation")
        } else if text::contains(lower.as_str(), "unique") {
            (AdapterErrorKind::Constraint, "unique_violation")
        } else {
            (AdapterErrorKind::Constraint, "constraint_failed")
        }
    } else if failure.code == SQLITE_NOTADB || failure.code == SQLITE_CORRUPT {
        (AdapterErrorKind::Corrupt, "corrupt_database")
    } else if failure.code == SQLITE_CANTOPEN {
        (AdapterErrorKind::Unavailable, "cannot_open")
    } else if failure.code == SQLITE_IOERR {
        (AdapterErrorKind::Storage, "storage_failure")
    } else if failure.code == SQLITE_RANGE {
        (AdapterErrorKind::InvalidOperation, "invalid_parameters")
    } else {
        (AdapterErrorKind::Query, "sqlite_error")
    };
    DactylError::adapter_with_code(kind, code, message.as_str())
}

/// The category of a SQLite failure says whether retrying can help: it can
/// exactly where the database was busy, locked or could not be opened.
pub proof fn lemma_retryable_failures(operation: Seq<char>, failure: SqliteFailure)
    ensures
        failure_error(operation, failure).retryable() <==> (failure.code == SQLITE_BUSY
            || failure.code == SQLITE_LOCKED || failure.code == SQLITE_CANTOPEN),
{
}

// ---------------------------------------------------------------------------
// The first word
// ---------------------------------------------------------------------------

/// The first run of characters that are not whitespace.
pub open spec fn first_token(sql: Seq<char>) -> Option<Seq<char>> {
    let start = text::trim_start(sql);
    let rest = sql.skip(start);
    if rest.len() == 0 {
        None
    } else {
        Some(rest.take(token_end(rest)))
    }
}

/// The end of the run of characters that are not whitespace.
pub open spec fn token_end(s: Seq<char>) -> int
    decreases s.len(),
{
    if s.len() == 0 || text::is_space(s[0]) {
        0
    } else {
        1 + token_end(s.drop_first())
    }
}

/// A text without the semicolons at its start.
pub open spec fn semicolons_start(s: Seq<char>) -> int
    decreases s.len(),
{
    if s.len() == 0 || s[0] != ';' {
        0
    } else {
        1 + semicolons_start(s.drop_first())
    }
}

/// The end of a text before the semicolons at its end.
pub open spec fn semicolons_end(s: Seq<char>) -> int
    decreases s.len(),
{
    if s.len() == 0 || s.last() != ';' {
        s.len() as int
    } else {
        semicolons_end(s.drop_last())
    }
}

/// A text without the semicolons at its start and its end.
pub open spec fn without_semicolons(s: Seq<char>) -> Seq<char> {
    let rest = s.skip(semicolons_start(s));
    rest.take(semicolons_end(rest))
}

/// The first word of a statement, in lower case.
pub open spec fn leading_word(sql: Seq<char>) -> Option<Seq<char>> {
    match first_token(sql) {
        Some(token) => Some(text::lower(without_semicolons(token))),
        None => None,
    }
}

fn strip_semicolons(s: &str) -> (r: &str)
    ensures
        r@ == without_semicolons(s@),
{
    let chars: Vec<char> = text::chars_of(s);
    let mut from: usize = 0;
    assert(s@.skip(0) =~= s@);
    while from < chars.len() && chars[from] == ';'
        invariant
            from <= chars@.len(),
            chars@ == s@,
            semicolons_start(s@) == from + semicolons_start(s@.skip(from as int)),
        decreases chars@.len() - from,
    {
        assert(s@.skip(from as int).drop_first() =~= s@.skip(from + 1));
        from = from + 1;
    }
    let ghost rest = s@.skip(from as int);
    let mut to: usize = chars.len();
    assert(rest.take(rest.len() as int) =~= rest);
    while to > from && chars[to - 1] == ';'
        invariant
            from <= to <= chars@.len(),
            chars@ == s@,
            rest == s@.skip(from as int),
            semicolons_end(rest) == semicolons_end(rest.take(to - from)),
        decreases to,
    {
        assert(rest.take(to - from).drop_last() =~= rest.take(to - from - 1));
        to = to - 1;
    }
    assert(s@.subrange(from as int, to as int) =~= rest.take(to - from));
    s.substring_char(from, to)
}

/// The first word of a statement, in lower case and without semicolons.
pub fn first_word(sql: &str) -> (r: Option<String>)
    ensures
        match leading_word(sql@) {
            Some(word) => r is Some && r->Some_0@ == word,
            None => r is None,
        },
{
    let chars: Vec<char> = text::chars_of(sql);
    let mut from: usize = 0;
    assert(sql@.skip(0) =~= sql@);
    while from < chars.len() && text::space(chars[from])
        invariant
            from <= chars@.len(),
            chars@ == sql@,
            text::trim_start(sql@) == from + text::trim_start(sql@.skip(from as int)),
        decreases chars@.len() - from,
    {
        assert(sql@.skip(from as int).drop_first() =~= sql@.skip(from + 1));
        from = from + 1;
    }
    let ghost rest = sql@.skip(from as int);
    if from == chars.len() {
        return None;
    }
    let mut to: usize = from;
    assert(rest.skip(0) =~= rest);
    while to < chars.len() && !text::space(chars[to])
        invariant
            from <= to <= chars@.len(),
            chars@ == sql@,
            rest == sql@.skip(from as int),
            token_end(rest) == (to - from) + token_end(rest.skip(to - from)),
        decreases chars@.len() - to,
    {
        assert(rest.skip(to - from).drop_first() =~= rest.skip(to - from + 1));
        to = to + 1;
    }
    assert(sql@.subrange(from as int, to as int) =~= rest.take(to - from));
    let token: &str = sql.substring_char(from, to);
    Some(text::to_lower(strip_semicolons(token)))
}

/// Whether a first word starts a query.
pub open spec fn starts_query(first: Option<Seq<char>>) -> bool {
    first matches Some(w) && (w == "select"@ || w == "with"@ || w == "pragma"@ || w == "explain"@
        || w == "values"@)
}

/// Whether a first word starts a query.
pub fn is_query(first: Option<&str>) -> (r: bool)
    ensures
        r == starts_query(crate::route::str_option(first)),
{
    match first {
        Some(w) => text::str_eq(w, "select") || text::str_eq(w, "with") || text::str_eq(
            w,
            "pragma",
        ) || text::str_eq(w, "explain") || text::str_eq(w, "values"),
        None => false,
    }
}

/// Whether text other than whitespace stands behind a semicolon outside
/// string literals, from position `i` on. `quoted` says whether `i` lies in a
/// literal.
pub open spec fn continues_from(sql: Seq<char>, i: int, quoted: bool) -> bool
    decreases sql.len() - i,
{
    if i < 0 || i >= sql.len() {
        false
    } else if sql[i] == '\'' {
        if quoted && i + 1 < sql.len() && sql[i + 1] == '\'' {
            continues_from(sql, i + 2, quoted)
        } else {
            continues_from(sql, i + 1, !quoted)
        }
    } else if sql[i] == ';' && !quoted && !text::is_blank(sql.skip(i + 1)) {
        true
    } else {
        continues_from(sql, i + 1, quoted)
    }
}

/// Whether SQL text holds more than one statement.
pub fn has_multiple_statements(sql: &str) -> (r: bool)
    ensures
        r == continues_from(sql@, 0, false),
{
    let chars: Vec<char> = text::chars_of(sql);
    let mut quoted: bool = false;
    let mut i: usize = 0;
    while i < chars.len()
        invariant
            i <= chars@.len(),
            chars@ == sql@,
            continues_from(sql@, i as int, quoted) == continues_from(sql@, 0, false),
        decreases chars@.len() - i,
    {
        let c: char = chars[i];
        if c == '\'' {
            if quoted && chars.len() - i > 1 && chars[i + 1] == '\'' {
                i = i + 2;
            } else {
                quoted = !quoted;
                i = i + 1;
            }
        } else {
            if c == ';' && !quoted {
                let rest: &str = sql.substring_char(i + 1, chars.len());
                assert(sql@.subrange(i + 1, chars@.len() as int) =~= sql@.skip(i + 1));
                if !text::blank(rest) {
                    return true;
                }
            }
            i = i + 1;
        }
    }
    false
}

// ---------------------------------------------------------------------------
// Operations
// ---------------------------------------------------------------------------

/// How an operation is executed.
#[derive(Debug, Clone, Copy, PartialEq, Eq, Structural)]
pub enum OperationPlan {
    /// Run one query and return its rows.
    Query,
    /// Run one statement and return what it changed.
    Write,
    /// Run several schema statements; nothing is returned.
    SchemaBatch,
}

/// How an operation is executed, or why it is refused.
pub open spec fn operation_plan(operation: OperationView) -> Result<OperationPlan, ErrorView> {
    let first = leading_word(operation.sql);
    match operation.kind {
        OperationKind::Read => if starts_query(first) {
            Ok(OperationPlan::Query)
        } else {
            Err(
                crate::error::plain(
                    AdapterErrorKind::InvalidOperation,
                    "read operation requires a query statement"@,
                ),
            )
        },
        OperationKind::Write => Ok(OperationPlan::Write),
        OperationKind::Schema => if first != Some("create"@) && first != Some("alter"@) && first
            != Some("drop"@) {
            Err(
                crate::error::plain(
                    AdapterErrorKind::InvalidOperation,
                    "schema operation requires CREATE, ALTER, or DROP SQL"@,
                ),
            )
        } else if !continues_from(operation.sql, 0, false) {
            Ok(OperationPlan::Write)
        } else if operation.params.len() > 0 {
            Err(
                crate::error::plain(
                    AdapterErrorKind::Capability,
                    "multi-statement schema SQL cannot bind parameters"@,
                ),
            )
        } else {
            Ok(OperationPlan::SchemaBatch)
        },
    }
}

/// Decide how an operation is executed.
pub fn plan_operation(operation: &Operation) -> (r: Result<OperationPlan, DactylError>)
    ensures
        match operation_plan(operation@) {
            Ok(plan) => r is Ok && r->Ok_0 == plan,
            Err(e) => r is Err && r->Err_0@ == e,
        },
{
    let first: Option<String> = first_word(operation.sql());
    match operation.kind() {
        OperationKind::Read => {
            let query: bool = match &first {
                Some(word) => is_query(Some(word.as_str())),
                None => false,
            };
            if query {
                Ok(OperationPlan::Query)
            } else {
                Err(
                    DactylError::adapter(
                        AdapterErrorKind::InvalidOperation,
                        "read operation requires a query statement",
                    ),
                )
            }
        },
        OperationKind::Write => Ok(OperationPlan::Write),
        OperationKind::Schema => {
            let schema: bool = match &first {
                Some(word) => text::str_eq(word.as_str(), "create") || text::str_eq(
                    word.as_str(),
                    "alter",
                ) || text::str_eq(word.as_str(), "drop"),
                None => false,
            };
            if !schema {
                return Err(
                    DactylError::adapter(
                        AdapterErrorKind::InvalidOperation,
                        "schema operation requires CREATE, ALTER, or DROP SQL",
                    ),
                );
            }
            if !has_multiple_statements(operation.sql()) {
                return Ok(OperationPlan::Write);
            }
            if operation.params().len() > 0 {
                return Err(
                    DactylError::adapter(
                        AdapterErrorKind::Capability,
                        "multi-statement schema SQL cannot bind parameters",
                    ),
                );
            }
            Ok(OperationPlan::SchemaBatch)
        },
    }
}

/// What a write changed: an insert gives the row id of the last row inserted,
/// unless it is zero.
pub open spec fn write_view(sql: Seq<char>, last_rowid: i64, changes: i64) -> WriteView {
    WriteView {
        affected_rows: if changes < 0 {
            0
        } else {
            changes as u64
        },
        generated_keys: if leading_word(sql) == Some("insert"@) && last_rowid != 0 {
            seq![KeyView::Integer(last_rowid)]
        } else {
            Seq::empty()
        },
    }
}

/// What a write changed.
pub fn write_outcome(sql: &str, last_rowid: i64, changes: i64) -> (r: WriteResult)
    ensures
        r@ == write_view(sql@, last_rowid, changes),
{
    let mut generated_keys: Vec<GeneratedKey> = Vec::new();
    let inserted: bool = match first_word(sql) {
        Some(word) => text::str_eq(word.as_str(), "insert"),
        None => false,
    };
    if inserted && last_rowid != 0 {
        generated_keys.push(GeneratedKey::Integer(last_rowid));
    }
    let r = WriteResult {
        affected_rows: if changes < 0 {
            0
        } else {
            changes as u64
        },
        generated_keys,
    };
    assert(r@.generated_keys =~= write_view(sql@, last_rowid, changes).generated_keys);
    r
}

// ---------------------------------------------------------------------------
// Identifiers
// ---------------------------------------------------------------------------

/// A text with every double quote doubled.
pub open spec fn quotes_doubled(s: Seq<char>) -> Seq<char>
    decreases s.len(),
{
    if s.len() == 0 {
        Seq::empty()
    } else if s.last() == '"' {
        quotes_doubled(s.drop_last()).push('"').push('"')
    } else {
        quotes_doubled(s.drop_last()).push(s.last())
    }
}

/// A name as a quoted SQL identifier.
pub open spec fn quoted_identifier(name: Seq<char>) -> Seq<char> {
    seq!['"'] + quotes_doubled(name) + seq!['"']
}

/// A text with every doubled double quote made single again.
pub open spec fn quotes_undoubled(s: Seq<char>) -> Seq<char>
    decreases s.len(),
{
    if s.len() == 0 {
        Seq::empty()
    } else if s.len() >= 2 && s.last() == '"' && s[s.len() - 2] == '"' {
        quotes_undoubled(s.drop_last().drop_last()).push('"')
    } else {
        quotes_undoubled(s.drop_last()).push(s.last())
    }
}

/// Quoting loses nothing: reading a quoted identifier gives the name back.
pub proof fn lemma_quoting_round_trip(name: Seq<char>)
    ensures
        quotes_undoubled(quotes_doubled(name)) == name,
        quoted_identifier(name).subrange(1, quoted_identifier(name).len() - 1) == quotes_doubled(
            name,
        ),
    decreases name.len(),
{
    if name.len() > 0 {
        let head = name.drop_last();
        lemma_quoting_round_trip(head);
        let doubled = quotes_doubled(head);
        if name.last() == '"' {
            let all = doubled.push('"').push('"');
            assert(all.drop_last().drop_last() =~= doubled);
        } else {
            let all = doubled.push(name.last());
            assert(all.drop_last() =~= doubled);
        }
        assert(head.push(name.last()) =~= name);
    }
    assert(quoted_identifier(name).subrange(1, quoted_identifier(name).len() - 1)
        =~= quotes_doubled(name));
}

/// A name as a quoted SQL identifier.
pub fn quote_identifier(value: &str) -> (r: String)
    ensures
        r@ == quoted_identifier(value@),
{
    let chars: Vec<char> = text::chars_of(value);
    let mut out: String = String::new();
    out.push('"');
    let mut i: usize = 0;
    assert(value@.take(0) =~= Seq::<char>::empty());
    assert(out@ =~= seq!['"'] + quotes_doubled(value@.take(0)));
    while i < chars.len()
        invariant
            i <= chars@.len(),
            chars@ == value@,
            out@ == seq!['"'] + quotes_doubled(value@.take(i as int)),
        decreases chars@.len() - i,
    {
        let ghost before = out@;
        let ghost done = quotes_doubled(value@.take(i as int));
        assert(value@.take(i + 1).drop_last() =~= value@.take(i as int));
        if chars[i] == '"' {
            out.push('"');
            out.push('"');
            assert(out@ =~= seq!['"'] + done.push('"').push('"'));
        } else {
            out.push(chars[i]);
            assert(out@ =~= seq!['"'] + done.push(value@[i as int]));
        }
        i = i + 1;
    }
    assert(value@.take(i as int) =~= value@);
    out.push('"');
    assert(out@ =~= quoted_identifier(value@));
    out
}

// ---------------------------------------------------------------------------
// What statements are for
// ---------------------------------------------------------------------------

/// SQL text whose first word stands behind whitespace and semicolons and
/// before semicolons; behind it the text ends, or whitespace follows.
pub ghost struct Opening {
    pub blank: Seq<char>,
    pub before: Seq<char>,
    pub written: Seq<char>,
    pub behind: Seq<char>,
    pub tail: Seq<char>,
}

impl Opening {
    pub open spec fn sql(self) -> Seq<char> {
        self.blank + (self.before + self.written + self.behind) + self.tail
    }

    pub open spec fn wf(self) -> bool {
        &&& forall|i: int| 0 <= i < self.blank.len() ==> text::is_space(#[trigger] self.blank[i])
        &&& forall|i: int| 0 <= i < self.before.len() ==> #[trigger] self.before[i] == ';'
        &&& forall|i: int| 0 <= i < self.behind.len() ==> #[trigger] self.behind[i] == ';'
        &&& self.written.len() > 0
        &&& forall|i: int|
            0 <= i < self.written.len() ==> !text::is_space(#[trigger] self.written[i])
        &&& self.written[0] != ';' && self.written.last() != ';'
        &&& self.tail.len() > 0 ==> text::is_space(self.tail[0])
    }
}

proof fn lemma_blank_prefix(blank: Seq<char>, rest: Seq<char>)
    requires
        forall|i: int| 0 <= i < blank.len() ==> text::is_space(#[trigger] blank[i]),
        rest.len() > 0 ==> !text::is_space(rest[0]),
    ensures
        text::trim_start(blank + rest) == blank.len(),
    decreases blank.len(),
{
    let all = blank + rest;
    if blank.len() > 0 {
        assert(all[0] == blank[0]);
        assert(all.drop_first() =~= blank.drop_first() + rest);
        assert forall|i: int| 0 <= i < blank.drop_first().len() implies text::is_space(
            #[trigger] blank.drop_first()[i],
        ) by {
            assert(blank.drop_first()[i] == blank[i + 1]);
        }
        lemma_blank_prefix(blank.drop_first(), rest);
    } else {
        assert(all =~= rest);
    }
}

proof fn lemma_token_prefix(token: Seq<char>, tail: Seq<char>)
    requires
        forall|i: int| 0 <= i < token.len() ==> !text::is_space(#[trigger] token[i]),
        tail.len() > 0 ==> text::is_space(tail[0]),
    ensures
        token_end(token + tail) == token.len(),
    decreases token.len(),
{
    let all = token + tail;
    if token.len() > 0 {
        assert(all[0] == token[0]);
        assert(all.drop_first() =~= token.drop_first() + tail);
        assert forall|i: int| 0 <= i < token.drop_first().len() implies !text::is_space(
            #[trigger] token.drop_first()[i],
        ) by {
            assert(token.drop_first()[i] == token[i + 1]);
        }
        lemma_token_prefix(token.drop_first(), tail);
    } else {
        assert(all =~= tail);
    }
}

proof fn lemma_semicolon_prefix(before: Seq<char>, rest: Seq<char>)
    requires
        forall|i: int| 0 <= i < before.len() ==> #[trigger] before[i] == ';',
        rest.len() > 0 ==> rest[0] != ';',
    ensures
        semicolons_start(before + rest) == before.len(),
    decreases before.len(),
{
    let all = before + rest;
    if before.len() > 0 {
        assert(all[0] == before[0]);
        assert(all.drop_first() =~= before.drop_first() + rest);
        assert forall|i: int| 0 <= i < before.drop_first().len() implies (
        #[trigger] before.drop_first()[i]) == ';' by {
            assert(before.drop_first()[i] == before[i + 1]);
        }
        lemma_semicolon_prefix(before.drop_first(), rest);
    } else {
        assert(all =~= rest);
    }
}

proof fn lemma_semicolon_suffix(word: Seq<char>, behind: Seq<char>)
    requires
        forall|i: int| 0 <= i < behind.len() ==> #[trigger] behind[i] == ';',
        word.len() > 0 && word.last() != ';',
    ensures
        semicolons_end(word + behind) == word.len(),
    decreases behind.len(),
{
    let all = word + behind;
    if behind.len() > 0 {
        assert(all.last() == behind.last());
        assert(all.drop_last() =~= word + behind.drop_last());
        assert forall|i: int| 0 <= i < behind.drop_last().len() implies (
        #[trigger] behind.drop_last()[i]) == ';' by {
            assert(behind.drop_last()[i] == behind[i]);
        }
        lemma_semicolon_suffix(word, behind.drop_last());
    } else {
        assert(all =~= word);
    }
}

/// The first word of a statement is what stands first in it, in lower case:
/// whatever whitespace leads, whatever semicolons stand round it, and whatever
/// follows.
pub proof fn lemma_first_word(o: Opening, word: Seq<char>)
    requires
        o.wf(),
        text::spells(o.written, word),
    ensures
        leading_word(o.sql()) == Some(word),
{
    let token = o.before + o.written + o.behind;
    let sql = o.sql();
    let rest = token + o.tail;
    text::lemma_whitespace(';');
    assert forall|i: int| 0 <= i < token.len() implies !text::is_space(#[trigger] token[i]) by {
        if i < o.before.len() {
            assert(token[i] == o.before[i]);
        } else if i < o.before.len() + o.written.len() {
            assert(token[i] == o.written[i - o.before.len()]);
        } else {
            assert(token[i] == o.behind[i - o.before.len() - o.written.len()]);
        }
    }
    assert(rest[0] == token[0]);
    assert(sql =~= o.blank + rest);
    lemma_blank_prefix(o.blank, rest);
    assert(sql.skip(o.blank.len() as int) =~= rest);
    lemma_token_prefix(token, o.tail);
    assert(rest.take(token.len() as int) =~= token);
    let inner = o.written + o.behind;
    assert(token =~= o.before + inner);
    assert(inner[0] == o.written[0]);
    lemma_semicolon_prefix(o.before, inner);
    assert(token.skip(o.before.len() as int) =~= inner);
    lemma_semicolon_suffix(o.written, o.behind);
    assert(inner.take(o.written.len() as int) =~= o.written);
    assert forall|i: int| 0 <= i < word.len() implies !('A' <= #[trigger] word[i] <= 'Z') by {
        assert(o.written[i] == word[i] || 'a' <= word[i] <= 'z');
    }
    text::lemma_lower_spells(o.written, word);
}

/// Blank text has no first word.
pub proof fn lemma_blank_has_no_word(sql: Seq<char>)
    requires
        forall|i: int| 0 <= i < sql.len() ==> text::is_space(#[trigger] sql[i]),
    ensures
        leading_word(sql) is None,
{
    lemma_blank_prefix(sql, Seq::empty());
    assert(sql + Seq::<char>::empty() =~= sql);
}

proof fn lemma_continues_shift(sql: Seq<char>, i: int, quoted: bool)
    requires
        0 <= i <= sql.len(),
    ensures
        continues_from(sql, i, quoted) == continues_from(sql.skip(i), 0, quoted),
    decreases sql.len() - i,
{
    assert(sql.skip(i).skip(0) =~= sql.skip(i));
    lemma_continues_shift_by(sql, i, sql.skip(i), 0, quoted);
}

proof fn lemma_continues_shift_by(a: Seq<char>, i: int, b: Seq<char>, j: int, quoted: bool)
    requires
        0 <= i <= a.len(),
        0 <= j <= b.len(),
        a.skip(i) == b.skip(j),
    ensures
        continues_from(a, i, quoted) == continues_from(b, j, quoted),
    decreases a.len() - i,
{
    assert(a.skip(i).len() == a.len() - i);
    assert(b.skip(j).len() == b.len() - j);
    if i < a.len() {
        assert(a.skip(i)[0] == a[i]);
        assert(b.skip(j)[0] == b[j]);
        assert(a.skip(i + 1) =~= a.skip(i).skip(1));
        assert(b.skip(j + 1) =~= b.skip(j).skip(1));
        lemma_continues_shift_by(a, i + 1, b, j + 1, quoted);
        lemma_continues_shift_by(a, i + 1, b, j + 1, !quoted);
        if i + 1 < a.len() {
            assert(a.skip(i)[1] == a[i + 1]);
            assert(b.skip(j)[1] == b[j + 1]);
            assert(a.skip(i + 2) =~= a.skip(i).skip(2));
            assert(b.skip(j + 2) =~= b.skip(j).skip(2));
            lemma_continues_shift_by(a, i + 2, b, j + 2, quoted);
        }
    }
}

/// Text without a quote or a semicolon says nothing of whether a second
/// statement follows.
pub proof fn lemma_plain_text_goes_on(plain: Seq<char>, rest: Seq<char>)
    requires
        forall|i: int| 0 <= i < plain.len() ==> #[trigger] plain[i] != '\'' && plain[i] != ';',
    ensures
        continues_from(plain + rest, 0, false) == continues_from(rest, 0, false),
    decreases plain.len(),
{
    let all = plain + rest;
    if plain.len() > 0 {
        assert(all[0] == plain[0]);
        lemma_continues_shift(all, 1, false);
        assert(all.skip(1) =~= plain.drop_first() + rest);
        assert forall|i: int| 0 <= i < plain.drop_first().len() implies (
        #[trigger] plain.drop_first()[i]) != '\'' && plain.drop_first()[i] != ';' by {
            assert(plain.drop_first()[i] == plain[i + 1]);
        }
        lemma_plain_text_goes_on(plain.drop_first(), rest);
    } else {
        assert(all =~= rest);
    }
}

/// A semicolon outside a literal ends the statement: a second one follows
/// exactly where anything but whitespace does.
pub proof fn lemma_semicolon_ends_statement(rest: Seq<char>)
    ensures
        continues_from(seq![';'] + rest, 0, false) <==> exists|i: int|
            0 <= i < rest.len() && !text::is_space(#[trigger] rest[i]),
{
    let all = seq![';'] + rest;
    assert(all.skip(1) =~= rest);
    lemma_continues_shift(all, 1, false);
    if text::is_blank(rest) {
        text::lemma_whitespace(';');
        text::lemma_whitespace('\'');
        lemma_plain_text_goes_on(rest, Seq::empty());
        assert(rest + Seq::<char>::empty() =~= rest);
    }
}

/// A text as it stands in a string literal: every single quote twice.
pub open spec fn in_literal(s: Seq<char>) -> Seq<char>
    decreases s.len(),
{
    if s.len() == 0 {
        Seq::empty()
    } else if s[0] == '\'' {
        seq!['\'', '\''] + in_literal(s.drop_first())
    } else {
        seq![s[0]] + in_literal(s.drop_first())
    }
}

proof fn lemma_inside_literal(s: Seq<char>, rest: Seq<char>)
    requires
        rest.len() > 0 ==> rest[0] != '\'',
    ensures
        continues_from(in_literal(s) + seq!['\''] + rest, 0, true) == continues_from(
            rest,
            0,
            false,
        ),
    decreases s.len(),
{
    let all = in_literal(s) + seq!['\''] + rest;
    if s.len() == 0 {
        assert(all =~= seq!['\''] + rest);
        assert(all.skip(1) =~= rest);
        lemma_continues_shift(all, 1, false);
        if rest.len() > 0 {
            assert(all[1] == rest[0]);
        }
    } else {
        let less = s.drop_first();
        lemma_inside_literal(less, rest);
        let after = in_literal(less) + seq!['\''] + rest;
        if s[0] == '\'' {
            assert(all =~= seq!['\'', '\''] + after);
            assert(all.skip(2) =~= after);
            lemma_continues_shift(all, 2, true);
        } else {
            assert(all =~= seq![s[0]] + after);
            assert(all.skip(1) =~= after);
            lemma_continues_shift(all, 1, true);
        }
    }
}

/// A string literal is skipped, whatever it holds: semicolons and doubled
/// quotes in it end nothing.
pub proof fn lemma_literal_is_skipped(s: Seq<char>, rest: Seq<char>)
    requires
        rest.len() > 0 ==> rest[0] != '\'',
    ensures
        continues_from(seq!['\''] + in_literal(s) + seq!['\''] + rest, 0, false)
            == continues_from(rest, 0, false),
{
    let all = seq!['\''] + in_literal(s) + seq!['\''] + rest;
    assert(all.skip(1) =~= in_literal(s) + seq!['\''] + rest);
    assert(all[0] == '\'');
    lemma_continues_shift(all, 1, true);
    lemma_inside_literal(s, rest);
}

/// What each kind of operation may be. A read is run as a query exactly where
/// its first word is `select`, `with`, `pragma`, `explain` or `values`. A
/// write is run whatever it says. A schema operation is run exactly where its
/// first word is `create`, `alter` or `drop`, in one go where several
/// statements follow one another, and then only without parameters.
pub proof fn lemma_operations_are_planned(operation: OperationView)
    ensures
        ({
            let word = leading_word(operation.sql);
            let plan = operation_plan(operation);
            let several = continues_from(operation.sql, 0, false);
            let query = word == Some("select"@) || word == Some("with"@) || word == Some(
                "pragma"@,
            ) || word == Some("explain"@) || word == Some("values"@);
            let schema = word == Some("create"@) || word == Some("alter"@) || word == Some(
                "drop"@,
            );
            &&& plan == Ok::<OperationPlan, ErrorView>(OperationPlan::Query) <==> (operation.kind
                is Read && query)
            &&& plan == Ok::<OperationPlan, ErrorView>(OperationPlan::Write) <==> (operation.kind
                is Write || (operation.kind is Schema && schema && !several))
            &&& plan == Ok::<OperationPlan, ErrorView>(OperationPlan::SchemaBatch) <==> (
            operation.kind is Schema && schema && several && operation.params.len() == 0)
            &&& plan is Err ==> plan->Err_0.code() is None
            &&& plan is Err ==> plan->Err_0.kind() == Some(
                if operation.kind is Schema && schema {
                    AdapterErrorKind::Capability
                } else {
                    AdapterErrorKind::InvalidOperation
                },
            )
        }),
{
}

/// A schema statement is planned as one: `create`, `alter` and `drop` in any
/// ASCII case, before any text without a semicolon or a quote.
pub proof fn lemma_schema_statements_run(o: Opening, operation: OperationView)
    requires
        o.wf(),
        text::spells(o.written, "create"@) || text::spells(o.written, "alter"@) || text::spells(
            o.written,
            "drop"@,
        ),
        operation.sql == o.sql(),
        operation.kind is Schema,
        forall|i: int|
            0 <= i < operation.sql.len() ==> #[trigger] operation.sql[i] != ';' && operation.sql[i]
                != '\'',
    ensures
        operation_plan(operation) == Ok::<OperationPlan, ErrorView>(OperationPlan::Write),
{
    let word = if text::spells(o.written, "create"@) {
        "create"@
    } else if text::spells(o.written, "alter"@) {
        "alter"@
    } else {
        "drop"@
    };
    lemma_first_word(o, word);
    lemma_plain_text_goes_on(operation.sql, Seq::empty());
    assert(operation.sql + Seq::<char>::empty() =~= operation.sql);
}

/// A query is planned as one: `select`, `with`, `pragma`, `explain` and
/// `values` in any ASCII case, before any text.
pub proof fn lemma_queries_run(o: Opening, operation: OperationView)
    requires
        o.wf(),
        text::spells(o.written, "select"@) || text::spells(o.written, "with"@) || text::spells(
            o.written,
            "pragma"@,
        ) || text::spells(o.written, "explain"@) || text::spells(o.written, "values"@),
        operation.sql == o.sql(),
        operation.kind is Read,
    ensures
        operation_plan(operation) == Ok::<OperationPlan, ErrorView>(OperationPlan::Query),
{
    let word = if text::spells(o.written, "select"@) {
        "select"@
    } else if text::spells(o.written, "with"@) {
        "with"@
    } else if text::spells(o.written, "pragma"@) {
        "pragma"@
    } else if text::spells(o.written, "explain"@) {
        "explain"@
    } else {
        "values"@
    };
    lemma_first_word(o, word);
}

/// A write reports the rows that changed, and none where SQLite counts below
/// zero. It reports a key exactly where an insert left a row id other than 0,
/// and that row id.
pub proof fn lemma_writes_report_changes(sql: Seq<char>, last_rowid: i64, changes: i64)
    ensures
        ({
            let w = write_view(sql, last_rowid, changes);
            &&& changes >= 0 ==> w.affected_rows == changes
            &&& changes <= 0 ==> w.affected_rows == 0
            &&& leading_word(sql) == Some("insert"@) && last_rowid != 0 ==> w.generated_keys
                == seq![KeyView::Integer(last_rowid)]
            &&& leading_word(sql) != Some("insert"@) || last_rowid == 0 ==> w.generated_keys.len()
                == 0
        }),
{
}

/// Whether a message says a phrase that is given in lower case, in any ASCII
/// case.
pub open spec fn says(message: Seq<char>, phrase: Seq<char>) -> bool {
    exists|i: int|
        0 <= i && i + phrase.len() <= message.len() && text::spells(
            #[trigger] message.subrange(i, i + phrase.len()),
            phrase,
        )
}

proof fn lemma_says(message: Seq<char>, phrase: Seq<char>)
    requires
        forall|i: int| 0 <= i < phrase.len() ==> !('A' <= #[trigger] phrase[i] <= 'Z'),
    ensures
        text::holds(text::lower(message), phrase) <==> says(message, phrase),
{
    let m = text::lower(message);
    if text::holds(m, phrase) {
        let i = choose|i: int| #[trigger] text::holds_at(m, phrase, i);
        let part = message.subrange(i, i + phrase.len());
        assert(text::lower(part) =~= m.subrange(i, i + phrase.len()));
        text::lemma_lower_spells(part, phrase);
    }
    if says(message, phrase) {
        let i = choose|i: int|
            0 <= i && i + phrase.len() <= message.len() && text::spells(
                #[trigger] message.subrange(i, i + phrase.len()),
                phrase,
            );
        let part = message.subrange(i, i + phrase.len());
        text::lemma_lower_spells(part, phrase);
        assert(text::lower(part) =~= m.subrange(i, i + phrase.len()));
        assert(text::holds_at(m, phrase, i));
    }
}

/// The category and the code of each of SQLite's result codes, number by
/// number. A constraint goes by what the message says first of: a foreign key,
/// a not-null column, uniqueness.
pub proof fn lemma_failures_are_told_apart(operation: Seq<char>, failure: SqliteFailure)
    ensures
        ({
            let e = failure_error(operation, failure);
            let message = failure.message@;
            &&& e is Adapter
            &&& e.kind() == Some(
                match failure.code {
                    5i32 => AdapterErrorKind::Busy,
                    6i32 => AdapterErrorKind::Locked,
                    8i32 => AdapterErrorKind::ReadOnly,
                    10i32 => AdapterErrorKind::Storage,
                    11i32 => AdapterErrorKind::Corrupt,
                    14i32 => AdapterErrorKind::Unavailable,
                    19i32 => AdapterErrorKind::Constraint,
                    25i32 => AdapterErrorKind::InvalidOperation,
                    26i32 => AdapterErrorKind::Corrupt,
                    _ => AdapterErrorKind::Query,
                },
            )
            &&& e.code() == Some(
                match failure.code {
                    5i32 => "busy"@,
                    6i32 => "locked"@,
                    8i32 => "read_only"@,
                    10i32 => "storage_failure"@,
                    11i32 => "corrupt_database"@,
                    14i32 => "cannot_open"@,
                    19i32 => if says(message, "foreign key"@) {
                        "foreign_key_violation"@
                    } else if says(message, "not null"@) {
                        "not_null_violation"@
                    } else if says(message, "unique"@) {
                        "unique_violation"@
                    } else {
                        "constraint_failed"@
                    },
                    25i32 => "invalid_parameters"@,
                    26i32 => "corrupt_database"@,
                    _ => "sqlite_error"@,
                },
            )
        }),
{
    reveal_strlit("foreign key");
    reveal_strlit("not null");
    reveal_strlit("unique");
    lemma_says(failure.message@, "foreign key"@);
    lemma_says(failure.message@, "not null"@);
    lemma_says(failure.message@, "unique"@);
}

} // verus!
