//! What integrity verification, backup and recovery have in common: the
//! errors of the file system, the names of the files that they make, and the
//! check of a database.

use vstd::prelude::*;

use crate::contract::IntegrityReport;
use crate::error::{AdapterErrorKind, DactylError, ErrorView};
use crate::rows;
use crate::rows::{Row, RowView, Rows};
use crate::sqlite::inspect;
use crate::text;

verus! {

// ---------------------------------------------------------------------------
// The file system
// ---------------------------------------------------------------------------

/// The error for an operation that the file system refused.
pub open spec fn filesystem_failure(operation: Seq<char>, reason: Seq<char>) -> ErrorView {
    crate::error::coded(
        AdapterErrorKind::Storage,
        "filesystem_failure"@,
        operation + ": "@ + reason,
    )
}

/// The error for an operation that the file system refused.
pub fn storage_io(operation: &str, reason: &str) -> (r: DactylError)
    ensures
        r@ == filesystem_failure(operation@, reason@),
{
    DactylError::adapter_with_code(
        AdapterErrorKind::Storage,
        "filesystem_failure",
        operation.to_string().concat(": ").concat(reason).as_str(),
    )
}

/// The error for a file that stands in the way.
pub open spec fn path_exists(path: Seq<char>, description: Seq<char>) -> ErrorView {
    crate::error::coded(
        AdapterErrorKind::Conflict,
        "path_exists"@,
        description + " already exists: "@ + path,
    )
}

/// Refuse a path at which something exists.
pub fn ensure_absent(path: &str, description: &str, exists: bool) -> (r: Result<(), DactylError>)
    ensures
        r is Ok <==> !exists,
        r is Err ==> r->Err_0@ == path_exists(path@, description@),
{
    if exists {
        return Err(
            DactylError::adapter_with_code(
                AdapterErrorKind::Conflict,
                "path_exists",
                description.to_string().concat(" already exists: ").concat(path).as_str(),
            ),
        );
    }
    Ok(())
}

/// The path of a database's write-ahead log.
pub fn wal_path(path: &str) -> (r: String)
    ensures
        r@ == wal_name(path@),
{
    path.to_string().concat("-wal")
}

/// The path of a database's shared-memory file.
pub fn shm_path(path: &str) -> (r: String)
    ensures
        r@ == shm_name(path@),
{
    path.to_string().concat("-shm")
}

// ---------------------------------------------------------------------------
// File names
// ---------------------------------------------------------------------------

/// How many names are tried.
pub const NAME_ATTEMPTS: u32 = 32;

/// The name that is tried at the given attempt: hidden, beside the database,
/// and told apart by the process and the time.
pub open spec fn candidate(
    file_name: Seq<char>,
    label: Seq<char>,
    process: u32,
    nanos: u128,
    attempt: int,
) -> Seq<char> {
    "."@ + file_name + ".dactyl-"@ + label + "-"@ + text::decimal(process as nat) + "-"@
        + text::decimal(
        if nanos + attempt > u128::MAX {
            u128::MAX as nat
        } else {
            (nanos + attempt) as nat
        },
    )
}

/// The name that is tried at the given attempt.
pub fn candidate_name(
    file_name: &str,
    label: &str,
    process: u32,
    nanos: u128,
    attempt: u32,
) -> (r: String)
    ensures
        r@ == candidate(file_name@, label@, process, nanos, attempt as int),
{
    let stamp: u128 = if nanos > u128::MAX - attempt as u128 {
        u128::MAX
    } else {
        nanos + attempt as u128
    };
    ".".to_string().concat(file_name).concat(".dactyl-").concat(label).concat("-").concat(
        text::decimal_text(process as u64).as_str(),
    ).concat("-").concat(text::wide_decimal_text(stamp).as_str())
}

/// How creating a file under a new name went.
#[derive(Debug, Clone, PartialEq, Eq)]
pub enum Claim {
    /// The file was created.
    Created,
    /// There was one already.
    Taken,
    /// The file system refused, for this reason.
    Refused(String),
}

/// Where the search for a temporary file stands.
#[verifier::ext_equal]
pub ghost struct SearchView {
    pub file_name: Seq<char>,
    pub label: Seq<char>,
    pub process: u32,
    pub nanos: u128,
    /// The number of names that were taken.
    pub taken: int,
    /// What the search came to.
    pub found: Option<Result<Seq<char>, ErrorView>>,
}

impl SearchView {
    /// The name that is tried at the given attempt.
    pub open spec fn name(self, attempt: int) -> Seq<char> {
        candidate(self.file_name, self.label, self.process, self.nanos, attempt)
    }

    /// The name under which a file is to be created next.
    pub open spec fn next(self) -> Option<Seq<char>> {
        if self.found is None {
            Some(self.name(self.taken))
        } else {
            None
        }
    }

    /// Where the search stands once creating the file went one way.
    pub open spec fn after(self, claim: Claim) -> SearchView {
        match claim {
            Claim::Created => SearchView { found: Some(Ok(self.name(self.taken))), ..self },
            Claim::Taken => SearchView {
                taken: self.taken + 1,
                found: if self.taken + 1 < NAME_ATTEMPTS {
                    None
                } else {
                    Some(Err(no_temporary_name()))
                },
                ..self
            },
            Claim::Refused(reason) => SearchView {
                found: Some(
                    Err(
                        filesystem_failure(
                            "create SQLite maintenance temporary file"@,
                            reason@,
                        ),
                    ),
                ),
                ..self
            },
        }
    }
}

/// The error where every name is taken.
pub open spec fn no_temporary_name() -> ErrorView {
    crate::error::plain(
        AdapterErrorKind::Storage,
        "could not allocate a unique SQLite maintenance temporary file"@,
    )
}

/// What a search came to.
pub open spec fn path_view(r: Result<String, DactylError>) -> Result<Seq<char>, ErrorView> {
    match r {
        Ok(name) => Ok(name@),
        Err(e) => Err(e@),
    }
}

/// The search for a temporary file: names are tried one after the other until
/// a file was created under one.
pub struct TemporaryPath {
    file_name: String,
    label: String,
    process: u32,
    nanos: u128,
    taken: u32,
    found: Option<Result<String, DactylError>>,
}

impl TemporaryPath {
    pub closed spec fn view(self) -> SearchView {
        SearchView {
            file_name: self.file_name@,
            label: self.label@,
            process: self.process,
            nanos: self.nanos,
            taken: self.taken as int,
            found: match self.found {
                Some(r) => Some(path_view(r)),
                None => None,
            },
        }
    }

    #[verifier::type_invariant]
    closed spec fn well_formed(self) -> bool {
        self.found is None ==> self.taken < NAME_ATTEMPTS
    }

    /// A search about to start.
    pub fn new(file_name: &str, label: &str, process: u32, nanos: u128) -> (r: Self)
        ensures
            r@ == (SearchView {
                file_name: file_name@,
                label: label@,
                process,
                nanos,
                taken: 0,
                found: None,
            }),
    {
        TemporaryPath {
            file_name: file_name.to_string(),
            label: label.to_string(),
            process,
            nanos,
            taken: 0,
            found: None,
        }
    }

    /// The name under which a file is to be created next, if the search goes
    /// on.
    pub fn next(&self) -> (r: Option<String>)
        ensures
            match self@.next() {
                Some(name) => r is Some && r->Some_0@ == name,
                None => r is None,
            },
    {
        if self.found.is_none() {
            Some(
                candidate_name(
                    self.file_name.as_str(),
                    self.label.as_str(),
                    self.process,
                    self.nanos,
                    self.taken,
                ),
            )
        } else {
            None
        }
    }

    /// Take note of how creating the file went.
    pub fn advance(self, claim: Claim) -> (r: Self)
        requires
            self@.next() is Some,
        ensures
            r@ == self@.after(claim),
    {
        proof {
            use_type_invariant(&self);
        }
        match claim {
            Claim::Created => {
                let name: String = candidate_name(
                    self.file_name.as_str(),
                    self.label.as_str(),
                    self.process,
                    self.nanos,
                    self.taken,
                );
                TemporaryPath { found: Some(Ok(name)), ..self }
            },
            Claim::Taken => {
                let taken: u32 = self.taken + 1;
                let found: Option<Result<String, DactylError>> = if taken < NAME_ATTEMPTS {
                    None
                } else {
                    Some(
                        Err(
                            DactylError::adapter(
                                AdapterErrorKind::Storage,
                                "could not allocate a unique SQLite maintenance temporary file",
                            ),
                        ),
                    )
                };
                TemporaryPath { taken, found, ..self }
            },
            Claim::Refused(reason) => {
                let e: DactylError = storage_io(
                    "create SQLite maintenance temporary file",
                    reason.as_str(),
                );
                TemporaryPath { found: Some(Err(e)), ..self }
            },
        }
    }

    /// The name of the file that was created, or why there is none.
    pub fn into_path(self) -> (r: Result<String, DactylError>)
        requires
            self@.next() is None,
        ensures
            self@.found == Some(path_view(r)),
    {
        match self.found {
            Some(r) => r,
            None => Err(
                DactylError::adapter(
                    AdapterErrorKind::Storage,
                    "could not allocate a unique SQLite maintenance temporary file",
                ),
            ),
        }
    }
}

/// Where a search stands once the given claims came back.
pub open spec fn searched(v: SearchView, claims: Seq<Claim>) -> SearchView
    decreases claims.len(),
{
    if claims.len() == 0 {
        v
    } else {
        let w = searched(v, claims.drop_last());
        if w.next() is Some {
            w.after(claims.last())
        } else {
            w
        }
    }
}

/// A search creates no file but the one that it gives: it goes on only where
/// every name so far was taken, tries each name once, in order, and ends with
/// the name of the first file that was created.
pub proof fn lemma_only_the_path_is_created(v: SearchView, claims: Seq<Claim>)
    requires
        v.taken == 0,
        v.found is None,
    ensures
        ({
            let w = searched(v, claims);
            &&& w.found is None ==> w.taken == claims.len() && claims.len() < NAME_ATTEMPTS
                && forall|i: int| 0 <= i < claims.len() ==> (#[trigger] claims[i]) is Taken
            &&& w.found matches Some(Ok(name)) ==> name == v.name(w.taken) && 0 <= w.taken
                < claims.len() && claims[w.taken] is Created && w.taken < NAME_ATTEMPTS && forall|
                i: int,
            |
                0 <= i < w.taken ==> (#[trigger] claims[i]) is Taken
            &&& w.found matches Some(Err(_)) ==> exists|n: int|
                0 <= n <= claims.len() && (n == NAME_ATTEMPTS || (n < claims.len()
                    && claims[n] is Refused)) && #[trigger] all_taken(claims, n)
            &&& w.file_name == v.file_name && w.label == v.label && w.process == v.process
                && w.nanos == v.nanos
        }),
    decreases claims.len(),
{
    if claims.len() > 0 {
        let front = claims.drop_last();
        lemma_only_the_path_is_created(v, front);
        let w = searched(v, front);
        assert(forall|i: int| 0 <= i < front.len() ==> front[i] == claims[i]);
        if w.next() is Some {
            let n = claims.len() as int;
            assert forall|i: int| 0 <= i < n - 1 implies (#[trigger] claims[i]) is Taken by {
                assert(front[i] is Taken);
            }
            assert(all_taken(claims, n - 1));
            if claims.last() is Taken {
                assert(all_taken(claims, n));
            }
        } else if w.found matches Some(Err(_)) {
            let n = choose|n: int|
                0 <= n <= front.len() && (n == NAME_ATTEMPTS || (n < front.len()
                    && front[n] is Refused)) && #[trigger] all_taken(front, n);
            assert(all_taken(claims, n)) by {
                assert forall|i: int| 0 <= i < n implies (#[trigger] claims[i]) is Taken by {
                    assert(front[i] is Taken);
                }
            }
        } else {
            assert forall|i: int| 0 <= i < w.taken implies (#[trigger] claims[i]) is Taken by {
                assert(front[i] is Taken);
            }
        }
    }
}

/// Whether the first `n` names were taken.
pub open spec fn all_taken(claims: Seq<Claim>, n: int) -> bool {
    forall|i: int| 0 <= i < n ==> (#[trigger] claims[i]) is Taken
}

/// Whether a look for a file of this name may give this answer.
pub open spec fn looked<F: Fn(&str) -> bool>(exists_at: F, name: Seq<char>, found: bool) -> bool {
    exists|s: &str| s@ == name && #[trigger] call_ensures(exists_at, (s,), found)
}

/// What looking for a name without a file can come to: the first such name, or
/// an error once all names were tried.
pub open spec fn path_chosen<F: Fn(&str) -> bool>(
    file_name: Seq<char>,
    label: Seq<char>,
    process: u32,
    nanos: u128,
    exists_at: F,
    outcome: Result<Seq<char>, ErrorView>,
) -> bool {
    exists|n: int|
        {
            &&& 0 <= n <= NAME_ATTEMPTS
            &&& forall|k: int|
                0 <= k < n ==> looked(
                    exists_at,
                    #[trigger] candidate(file_name, label, process, nanos, k),
                    true,
                )
            &&& match outcome {
                Ok(name) => {
                    &&& n < NAME_ATTEMPTS
                    &&& name == #[trigger] candidate(file_name, label, process, nanos, n)
                    &&& looked(exists_at, name, false)
                },
                Err(e) => n == NAME_ATTEMPTS && e == crate::error::plain(
                    AdapterErrorKind::Storage,
                    "could not allocate a unique SQLite quarantine path"@,
                ),
            }
        }
}

/// The first name under which there is no file.
pub fn unused_path<F: Fn(&str) -> bool>(
    file_name: &str,
    label: &str,
    process: u32,
    nanos: u128,
    exists_at: F,
) -> (r: Result<String, DactylError>)
    requires
        forall|s: &str| #[trigger] call_requires(exists_at, (s,)),
    ensures
        path_chosen(file_name@, label@, process, nanos, exists_at, path_view(r)),
{
    let mut attempt: u32 = 0;
    while attempt < NAME_ATTEMPTS
        invariant
            attempt <= NAME_ATTEMPTS,
            forall|s: &str| #[trigger] call_requires(exists_at, (s,)),
            forall|k: int|
                0 <= k < attempt ==> looked(
                    exists_at,
                    #[trigger] candidate(file_name@, label@, process, nanos, k),
                    true,
                ),
        decreases NAME_ATTEMPTS - attempt,
    {
        let name: String = candidate_name(file_name, label, process, nanos, attempt);
        let found: bool = exists_at(name.as_str());
        assert(looked(exists_at, name@, found));
        if !found {
            return Ok(name);
        }
        attempt = attempt + 1;
    }
    assert(candidate(file_name@, label@, process, nanos, attempt as int) == candidate(
        file_name@,
        label@,
        process,
        nanos,
        NAME_ATTEMPTS as int,
    ));
    Err(
        DactylError::adapter(
            AdapterErrorKind::Storage,
            "could not allocate a unique SQLite quarantine path",
        ),
    )
}

/// The error for a path whose file name is no text.
pub fn invalid_file_name() -> (r: DactylError)
    ensures
        r@ == crate::error::plain(
            AdapterErrorKind::InvalidOperation,
            "SQLite path is not valid UTF-8"@,
        ),
{
    DactylError::adapter(AdapterErrorKind::InvalidOperation, "SQLite path is not valid UTF-8")
}

// ---------------------------------------------------------------------------
// The check of a database
// ---------------------------------------------------------------------------

/// Why an integrity check failed, if it did: it succeeds with one or more
/// messages, all of them `ok`.
pub open spec fn check_fault(messages: Seq<Seq<char>>) -> Option<ErrorView> {
    if messages.len() > 0 && (forall|i: int|
        0 <= i < messages.len() ==> #[trigger] messages[i] == "ok"@) {
        None
    } else {
        Some(
            crate::error::coded(
                AdapterErrorKind::Corrupt,
                "integrity_check_failed"@,
                "SQLite integrity_check failed: "@ + if messages.len() == 0 {
                    "no result"@
                } else {
                    text::joined(messages, "; "@)
                },
            ),
        )
    }
}

/// What the rows of an integrity check say.
pub open spec fn checked(all: Seq<RowView>) -> Option<ErrorView> {
    match inspect::texts_at(all, 0) {
        Ok(messages) => check_fault(messages),
        Err(e) => Some(e),
    }
}

/// What the rows of an integrity check say: nothing, if the database passed.
pub fn integrity_fault(all: &[Row]) -> (r: Option<DactylError>)
    ensures
        match checked(rows::row_views(all@)) {
            Some(e) => r is Some && r->Some_0@ == e,
            None => r is None,
        },
{
    let messages: Vec<String> = match inspect::row_strings(all, 0) {
        Ok(messages) => messages,
        Err(e) => {
            return Some(e);
        },
    };
    let ghost list = rows::texts(messages@);
    let mut clean: bool = messages.len() > 0;
    let mut i: usize = 0;
    while clean && i < messages.len()
        invariant
            i <= messages@.len(),
            list == rows::texts(messages@),
            clean ==> messages@.len() > 0,
            clean ==> forall|k: int| 0 <= k < i ==> #[trigger] list[k] == "ok"@,
            !clean ==> messages@.len() == 0 || exists|k: int|
                0 <= k < list.len() && #[trigger] list[k] != "ok"@,
        decreases
            messages@.len() - i + if clean {
                1int
            } else {
                0
            },
    {
        assert(list[i as int] == messages@[i as int]@);
        if text::str_eq(messages[i].as_str(), "ok") {
            i = i + 1;
        } else {
            clean = false;
        }
    }
    if clean {
        return None;
    }
    let detail: String = if messages.len() == 0 {
        "no result".to_string()
    } else {
        text::join(&messages, "; ")
    };
    Some(
        DactylError::adapter_with_code(
            AdapterErrorKind::Corrupt,
            "integrity_check_failed",
            "SQLite integrity_check failed: ".to_string().concat(detail.as_str()).as_str(),
        ),
    )
}

/// The statement that reads a pragma.
pub fn pragma_statement(name: &str) -> (r: String)
    ensures
        r@ == "PRAGMA "@ + name@,
{
    "PRAGMA ".to_string().concat(name)
}

/// The text that a pragma gave.
pub open spec fn pragma_text_of(name: Seq<char>, all: Seq<RowView>) -> Result<
    Seq<char>,
    ErrorView,
> {
    if all.len() > 0 && inspect::optional_text(all[0], 0) is Some {
        Ok(inspect::optional_text(all[0], 0)->Some_0)
    } else {
        Err(
            crate::error::plain(
                AdapterErrorKind::Value,
                "SQLite PRAGMA "@ + name + " returned no text value"@,
            ),
        )
    }
}

/// The text that a pragma gave.
pub fn pragma_text(name: &str, all: &[Row]) -> (r: Result<String, DactylError>)
    ensures
        match pragma_text_of(name@, rows::row_views(all@)) {
            Ok(s) => r is Ok && r->Ok_0@ == s,
            Err(e) => r is Err && r->Err_0@ == e,
        },
{
    if all.len() > 0 {
        assert(rows::row_views(all@)[0] == all@[0]@);
        if let Ok(s) = inspect::row_string(&all[0], 0) {
            return Ok(s);
        }
    }
    Err(
        DactylError::adapter(
            AdapterErrorKind::Value,
            "SQLite PRAGMA ".to_string().concat(name).concat(" returned no text value").as_str(),
        ),
    )
}

/// The integer that a pragma gave.
pub open spec fn pragma_integer_of(name: Seq<char>, all: Seq<RowView>) -> Result<i64, ErrorView> {
    if all.len() > 0 && inspect::integer_at(all[0], 0) is Ok {
        inspect::integer_at(all[0], 0)
    } else {
        Err(
            crate::error::plain(
                AdapterErrorKind::Value,
                "SQLite PRAGMA "@ + name + " returned no integer value"@,
            ),
        )
    }
}

/// The integer that a pragma gave.
pub fn pragma_integer(name: &str, all: &[Row]) -> (r: Result<i64, DactylError>)
    ensures
        match pragma_integer_of(name@, rows::row_views(all@)) {
            Ok(v) => r is Ok && r->Ok_0 == v,
            Err(e) => r is Err && r->Err_0@ == e,
        },
{
    if all.len() > 0 {
        assert(rows::row_views(all@)[0] == all@[0]@);
        if let Ok(v) = inspect::row_i64(&all[0], 0) {
            return Ok(v);
        }
    }
    Err(
        DactylError::adapter(
            AdapterErrorKind::Value,
            "SQLite PRAGMA ".to_string().concat(name).concat(" returned no integer value").as_str(),
        ),
    )
}

/// What an [`IntegrityReport`] says.
#[verifier::ext_equal]
pub ghost struct ReportView {
    pub journal_mode: Seq<char>,
    pub user_version: i64,
    pub application_id: i64,
}

/// What a report says.
pub open spec fn report_view(report: IntegrityReport) -> ReportView {
    ReportView {
        journal_mode: report.journal_mode@,
        user_version: report.user_version,
        application_id: report.application_id,
    }
}

/// What a query came back with.
pub open spec fn answer_view(answer: Result<Rows, DactylError>) -> Result<
    Seq<RowView>,
    ErrorView,
> {
    match answer {
        Ok(list) => Ok(rows::row_views(list.0@)),
        Err(e) => Err(e@),
    }
}

/// Whether a statement may come back with this answer.
pub open spec fn answered<Q: Fn(&str) -> Result<Rows, DactylError>>(
    query: Q,
    sql: Seq<char>,
    answer: Result<Seq<RowView>, ErrorView>,
) -> bool {
    exists|s: &str, a: Result<Rows, DactylError>|
        s@ == sql && answer_view(a) == answer && #[trigger] call_ensures(query, (s,), a)
}

/// Run a statement.
pub(crate) fn ask<Q: Fn(&str) -> Result<Rows, DactylError>>(query: &Q, sql: &str) -> (r: Result<
    Rows,
    DactylError,
>)
    requires
        forall|s: &str| #[trigger] call_requires(*query, (s,)),
    ensures
        answered(*query, sql@, answer_view(r)),
{
    query(sql)
}

/// Whether the answer to the check lets a database pass.
pub open spec fn passes(check: Result<Seq<RowView>, ErrorView>) -> bool {
    check is Ok && checked(check->Ok_0) is None
}

/// Whether an answer names a journal mode.
pub open spec fn names_mode(journal: Result<Seq<RowView>, ErrorView>) -> bool {
    journal is Ok && pragma_text_of("journal_mode"@, journal->Ok_0) is Ok
}

/// Whether an answer gives a version.
pub open spec fn numbers_version(version: Result<Seq<RowView>, ErrorView>) -> bool {
    version is Ok && pragma_integer_of("user_version"@, version->Ok_0) is Ok
}

/// The report on a database, from the answers to the four statements that it
/// takes; the first that fails is reported.
pub open spec fn report_of(
    check: Result<Seq<RowView>, ErrorView>,
    journal: Result<Seq<RowView>, ErrorView>,
    version: Result<Seq<RowView>, ErrorView>,
    application: Result<Seq<RowView>, ErrorView>,
) -> Result<ReportView, ErrorView> {
    if check is Err {
        Err(check->Err_0)
    } else if checked(check->Ok_0) is Some {
        Err(checked(check->Ok_0)->Some_0)
    } else if journal is Err {
        Err(journal->Err_0)
    } else if pragma_text_of("journal_mode"@, journal->Ok_0) is Err {
        Err(pragma_text_of("journal_mode"@, journal->Ok_0)->Err_0)
    } else if version is Err {
        Err(version->Err_0)
    } else if pragma_integer_of("user_version"@, version->Ok_0) is Err {
        Err(pragma_integer_of("user_version"@, version->Ok_0)->Err_0)
    } else if application is Err {
        Err(application->Err_0)
    } else if pragma_integer_of("application_id"@, application->Ok_0) is Err {
        Err(pragma_integer_of("application_id"@, application->Ok_0)->Err_0)
    } else {
        Ok(
            ReportView {
                journal_mode: pragma_text_of("journal_mode"@, journal->Ok_0)->Ok_0,
                user_version: pragma_integer_of("user_version"@, version->Ok_0)->Ok_0,
                application_id: pragma_integer_of("application_id"@, application->Ok_0)->Ok_0,
            },
        )
    }
}

/// What a report came to.
pub open spec fn report_result(r: Result<IntegrityReport, DactylError>) -> Result<
    ReportView,
    ErrorView,
> {
    match r {
        Ok(report) => Ok(report_view(report)),
        Err(e) => Err(e@),
    }
}

/// What checking a database can come to. A statement is run only where those
/// before it passed.
pub open spec fn integrity_read<Q: Fn(&str) -> Result<Rows, DactylError>>(
    query: Q,
    outcome: Result<ReportView, ErrorView>,
) -> bool {
    exists|
        check: Result<Seq<RowView>, ErrorView>,
        journal: Result<Seq<RowView>, ErrorView>,
        version: Result<Seq<RowView>, ErrorView>,
        application: Result<Seq<RowView>, ErrorView>,
    |
        {
            &&& answered(query, "PRAGMA integrity_check"@, check)
            &&& passes(check) ==> answered(query, "PRAGMA "@ + "journal_mode"@, journal)
            &&& passes(check) && names_mode(journal) ==> answered(
                query,
                "PRAGMA "@ + "user_version"@,
                version,
            )
            &&& passes(check) && names_mode(journal) && numbers_version(version) ==> answered(
                query,
                "PRAGMA "@ + "application_id"@,
                application,
            )
            &&& outcome == #[trigger] report_of(check, journal, version, application)
        }
}

/// Check a database and report on it. `query` runs a statement on it; a
/// statement is run only where those before it passed.
pub fn verify_integrity<Q: Fn(&str) -> Result<Rows, DactylError>>(query: Q) -> (r: Result<
    IntegrityReport,
    DactylError,
>)
    requires
        forall|s: &str| #[trigger] call_requires(query, (s,)),
    ensures
        integrity_read(query, report_result(r)),
{
    let ghost none: Result<Seq<RowView>, ErrorView> = Ok(Seq::empty());
    let answer = query("PRAGMA integrity_check");
    let ghost check = answer_view(answer);
    assert(answered(query, "PRAGMA integrity_check"@, check));
    let found: Rows = match answer {
        Ok(found) => found,
        Err(e) => {
            assert(report_of(check, none, none, none) is Err);
            return Err(e);
        },
    };
    if let Some(e) = integrity_fault(found.as_slice()) {
        assert(report_of(check, none, none, none) is Err);
        return Err(e);
    }
    let sql: String = pragma_statement("journal_mode");
    let answer = query(sql.as_str());
    let ghost journal = answer_view(answer);
    assert(answered(query, "PRAGMA "@ + "journal_mode"@, journal));
    let journal_mode: String = match answer {
        Ok(found) => match pragma_text("journal_mode", found.as_slice()) {
            Ok(mode) => mode,
            Err(e) => {
                assert(report_of(check, journal, none, none) is Err);
                return Err(e);
            },
        },
        Err(e) => {
            assert(report_of(check, journal, none, none) is Err);
            return Err(e);
        },
    };
    let sql: String = pragma_statement("user_version");
    let answer = query(sql.as_str());
    let ghost version = answer_view(answer);
    assert(answered(query, "PRAGMA "@ + "user_version"@, version));
    let user_version: i64 = match answer {
        Ok(found) => match pragma_integer("user_version", found.as_slice()) {
            Ok(v) => v,
            Err(e) => {
                assert(report_of(check, journal, version, none) is Err);
                return Err(e);
            },
        },
        Err(e) => {
            assert(report_of(check, journal, version, none) is Err);
            return Err(e);
        },
    };
    let sql: String = pragma_statement("application_id");
    let answer = query(sql.as_str());
    let ghost application = answer_view(answer);
    assert(answered(query, "PRAGMA "@ + "application_id"@, application));
    let application_id: i64 = match answer {
        Ok(found) => match pragma_integer("application_id", found.as_slice()) {
            Ok(v) => v,
            Err(e) => {
                assert(report_of(check, journal, version, application) is Err);
                return Err(e);
            },
        },
        Err(e) => {
            assert(report_of(check, journal, version, application) is Err);
            return Err(e);
        },
    };
    assert(report_of(check, journal, version, application) is Ok);
    Ok(IntegrityReport { journal_mode, user_version, application_id })
}

// ---------------------------------------------------------------------------
// What maintenance is for
// ---------------------------------------------------------------------------

/// The texts of a column of catalog rows are its cells, one for one and in
/// order; one that is no text fails them all.
pub proof fn lemma_messages_one_for_one(all: Seq<RowView>, i: int)
    requires
        0 <= i,
    ensures
        inspect::texts_at(all, i) is Ok <==> forall|k: int|
            0 <= k < all.len() ==> inspect::text_in(#[trigger] all[k], i) is Some,
        inspect::texts_at(all, i) is Ok ==> inspect::texts_at(all, i)->Ok_0.len() == all.len()
            && forall|k: int|
            0 <= k < all.len() ==> inspect::text_in(#[trigger] all[k], i) == Some(
                inspect::texts_at(all, i)->Ok_0[k],
            ),
    decreases all.len(),
{
    if all.len() > 0 {
        let rest = all.drop_first();
        lemma_messages_one_for_one(rest, i);
        inspect::lemma_catalog_cells(all[0], i);
        if inspect::texts_at(all, i) is Ok {
            assert forall|k: int| 0 <= k < all.len() implies inspect::text_in(#[trigger] all[k], i)
                == Some(inspect::texts_at(all, i)->Ok_0[k]) by {
                if k > 0 {
                    assert(rest[k - 1] == all[k]);
                }
            }
        } else if inspect::text_at(all[0], i) is Ok {
            let k = choose|k: int|
                0 <= k < rest.len() && !(inspect::text_in(#[trigger] rest[k], i) is Some);
            assert(all[k + 1] == rest[k]);
        }
    }
}

/// A database passes its check exactly where the check gives at least one row
/// and the first cell of each is the text `ok`. Anything else that it says is
/// corruption.
pub proof fn lemma_integrity_checks(all: Seq<RowView>)
    ensures
        checked(all) is None <==> (all.len() > 0 && forall|k: int|
            0 <= k < all.len() ==> inspect::text_in(#[trigger] all[k], 0) == Some("ok"@)),
        (forall|k: int| 0 <= k < all.len() ==> inspect::text_in(#[trigger] all[k], 0) is Some)
            && checked(all) is Some ==> checked(all)->Some_0.kind() == Some(
            AdapterErrorKind::Corrupt,
        ) && checked(all)->Some_0.code() == Some("integrity_check_failed"@),
{
    lemma_messages_one_for_one(all, 0);
    if inspect::texts_at(all, 0) is Ok {
        let messages = inspect::texts_at(all, 0)->Ok_0;
        if check_fault(messages) is None {
            assert forall|k: int| 0 <= k < all.len() implies inspect::text_in(#[trigger] all[k], 0)
                == Some("ok"@) by {
                assert(messages[k] == "ok"@);
            }
        } else if all.len() > 0 {
            let k = choose|k: int| 0 <= k < messages.len() && #[trigger] messages[k] != "ok"@;
            assert(inspect::text_in(all[k], 0) == Some(messages[k]));
        }
    }
}

/// A pragma gives the text, or the integer, in the first cell of its first
/// row.
pub proof fn lemma_pragmas(name: Seq<char>, all: Seq<RowView>)
    ensures
        pragma_text_of(name, all) is Ok <==> all.len() > 0 && inspect::text_in(all[0], 0) is Some,
        pragma_text_of(name, all) is Ok ==> Some(pragma_text_of(name, all)->Ok_0)
            == inspect::text_in(all[0], 0),
        pragma_integer_of(name, all) is Ok <==> all.len() > 0 && inspect::number_in(all[0], 0)
            is Some,
        pragma_integer_of(name, all) is Ok ==> Some(pragma_integer_of(name, all)->Ok_0 as int)
            == inspect::number_in(all[0], 0),
{
    if all.len() > 0 {
        inspect::lemma_catalog_cells(all[0], 0);
    }
}

/// A database is reported on exactly where it passes its check and names its
/// journal mode, its version and its application, and the report says those.
pub proof fn lemma_reports(
    check: Seq<RowView>,
    journal: Seq<RowView>,
    version: Seq<RowView>,
    application: Seq<RowView>,
)
    ensures
        ({
            let r = report_of(Ok(check), Ok(journal), Ok(version), Ok(application));
            &&& r is Ok <==> (checked(check) is None && journal.len() > 0 && inspect::text_in(
                journal[0],
                0,
            ) is Some && version.len() > 0 && inspect::number_in(version[0], 0) is Some
                && application.len() > 0 && inspect::number_in(application[0], 0) is Some)
            &&& r is Ok ==> Some(r->Ok_0.journal_mode) == inspect::text_in(journal[0], 0) && Some(
                r->Ok_0.user_version as int,
            ) == inspect::number_in(version[0], 0) && Some(r->Ok_0.application_id as int)
                == inspect::number_in(application[0], 0)
            &&& checked(check) is Some ==> r == Err::<ReportView, ErrorView>(
                checked(check)->Some_0,
            )
        }),
{
    lemma_pragmas("journal_mode"@, journal);
    lemma_pragmas("user_version"@, version);
    lemma_pragmas("application_id"@, application);
}

/// Each attempt tries another name, hidden beside the database, that says what
/// it is for.
pub proof fn lemma_names_differ(
    file_name: Seq<char>,
    label: Seq<char>,
    process: u32,
    nanos: u128,
    a: int,
    b: int,
)
    requires
        0 <= a < b,
        nanos + b <= u128::MAX,
    ensures
        candidate(file_name, label, process, nanos, a) != candidate(
            file_name,
            label,
            process,
            nanos,
            b,
        ),
        candidate(file_name, label, process, nanos, a) == "."@ + file_name + ".dactyl-"@ + label
            + "-"@ + text::decimal(process as nat) + "-"@ + text::decimal((nanos + a) as nat),
        NAME_ATTEMPTS == 32,
{
    let head = "."@ + file_name + ".dactyl-"@ + label + "-"@ + text::decimal(process as nat)
        + "-"@;
    let x = text::decimal((nanos + a) as nat);
    let y = text::decimal((nanos + b) as nat);
    text::lemma_decimals_differ((nanos + a) as nat, (nanos + b) as nat);
    if head + x == head + y {
        assert((head + x).skip(head.len() as int) =~= x);
        assert((head + y).skip(head.len() as int) =~= y);
    }
}

/// What the file system refuses, and what stands in the way, by category and
/// code.
pub proof fn lemma_filesystem_errors(operation: Seq<char>, reason: Seq<char>)
    ensures
        filesystem_failure(operation, reason).kind() == Some(AdapterErrorKind::Storage),
        filesystem_failure(operation, reason).code() == Some("filesystem_failure"@),
        path_exists(operation, reason).kind() == Some(AdapterErrorKind::Conflict),
        path_exists(operation, reason).code() == Some("path_exists"@),
{
}

/// The path of a database's write-ahead log.
pub open spec fn wal_name(path: Seq<char>) -> Seq<char> {
    path + "-wal"@
}

/// The path of a database's shared-memory file.
pub open spec fn shm_name(path: Seq<char>) -> Seq<char> {
    path + "-shm"@
}

/// The sidecar files of a database have its path with an ending of four
/// characters, by which the two are told apart.
pub proof fn lemma_sidecar_names(path: Seq<char>)
    ensures
        wal_name(path) == path + "-wal"@,
        shm_name(path) == path + "-shm"@,
        wal_name(path) != shm_name(path),
        wal_name(path) != path && shm_name(path) != path,
        wal_name(path).len() == path.len() + 4 && shm_name(path).len() == path.len() + 4,
{
    reveal_strlit("-wal");
    reveal_strlit("-shm");
    assert(wal_name(path)[path.len() as int + 1] == 'w');
    assert(shm_name(path)[path.len() as int + 1] == 's');
}

/// A database that was reported on has passed its check, and the report tells
/// the journal mode and the two versions that the pragmas gave.
pub proof fn lemma_integrity_is_told<Q: Fn(&str) -> Result<Rows, DactylError>>(
    query: Q,
    report: ReportView,
)
    requires
        integrity_read(query, Ok(report)),
    ensures
        exists|all: Seq<RowView>| #[trigger]
            answered(query, "PRAGMA integrity_check"@, Ok(all)) && checked(all) is None,
        exists|all: Seq<RowView>| #[trigger]
            answered(query, "PRAGMA journal_mode"@, Ok(all)) && all.len() > 0 && inspect::text_in(
                all[0],
                0,
            ) == Some(report.journal_mode),
        exists|all: Seq<RowView>| #[trigger]
            answered(query, "PRAGMA user_version"@, Ok(all)) && all.len() > 0
                && inspect::number_in(all[0], 0) == Some(report.user_version as int),
        exists|all: Seq<RowView>| #[trigger]
            answered(query, "PRAGMA application_id"@, Ok(all)) && all.len() > 0
                && inspect::number_in(all[0], 0) == Some(report.application_id as int),
{
    lemma_pragma_texts();
    let (check, journal, version, application) = choose|
        check: Result<Seq<RowView>, ErrorView>,
        journal: Result<Seq<RowView>, ErrorView>,
        version: Result<Seq<RowView>, ErrorView>,
        application: Result<Seq<RowView>, ErrorView>,
    |
        {
            &&& answered(query, "PRAGMA integrity_check"@, check)
            &&& passes(check) ==> answered(query, "PRAGMA "@ + "journal_mode"@, journal)
            &&& passes(check) && names_mode(journal) ==> answered(
                query,
                "PRAGMA "@ + "user_version"@,
                version,
            )
            &&& passes(check) && names_mode(journal) && numbers_version(version) ==> answered(
                query,
                "PRAGMA "@ + "application_id"@,
                application,
            )
            &&& Ok::<ReportView, ErrorView>(report) == #[trigger] report_of(
                check,
                journal,
                version,
                application,
            )
        };
    lemma_pragmas("journal_mode"@, journal->Ok_0);
    lemma_pragmas("user_version"@, version->Ok_0);
    lemma_pragmas("application_id"@, application->Ok_0);
    assert(answered(query, "PRAGMA integrity_check"@, Ok(check->Ok_0)));
    assert(answered(query, "PRAGMA journal_mode"@, Ok(journal->Ok_0)));
    assert(answered(query, "PRAGMA user_version"@, Ok(version->Ok_0)));
    assert(answered(query, "PRAGMA application_id"@, Ok(application->Ok_0)));
}

proof fn lemma_pragma_texts()
    ensures
        "PRAGMA "@ + "journal_mode"@ == "PRAGMA journal_mode"@,
        "PRAGMA "@ + "user_version"@ == "PRAGMA user_version"@,
        "PRAGMA "@ + "application_id"@ == "PRAGMA application_id"@,
{
    reveal_strlit("PRAGMA ");
    reveal_strlit("journal_mode");
    reveal_strlit("user_version");
    reveal_strlit("application_id");
    reveal_strlit("PRAGMA journal_mode");
    reveal_strlit("PRAGMA user_version");
    reveal_strlit("PRAGMA application_id");
    assert("PRAGMA "@ + "journal_mode"@ =~= "PRAGMA journal_mode"@);
    assert("PRAGMA "@ + "user_version"@ =~= "PRAGMA user_version"@);
    assert("PRAGMA "@ + "application_id"@ =~= "PRAGMA application_id"@);
}

/// Where a database is not reported on, a statement failed with that error, the
/// check found a fault, or a pragma gave no value of its kind.
pub proof fn lemma_unreported_databases<Q: Fn(&str) -> Result<Rows, DactylError>>(
    query: Q,
    e: ErrorView,
)
    requires
        integrity_read(query, Err(e)),
    ensures
        answered(query, "PRAGMA integrity_check"@, Err(e)) || answered(
            query,
            "PRAGMA journal_mode"@,
            Err(e),
        ) || answered(query, "PRAGMA user_version"@, Err(e)) || answered(
            query,
            "PRAGMA application_id"@,
            Err(e),
        ) || (exists|all: Seq<RowView>| #[trigger]
            answered(query, "PRAGMA integrity_check"@, Ok(all)) && checked(all) == Some(e)) || (
        exists|all: Seq<RowView>| #[trigger]
            answered(query, "PRAGMA journal_mode"@, Ok(all)) && !(all.len() > 0
                && inspect::text_in(all[0], 0) is Some)) || (exists|all: Seq<RowView>| #[trigger]
            answered(query, "PRAGMA user_version"@, Ok(all)) && !(all.len() > 0
                && inspect::number_in(all[0], 0) is Some)) || (exists|all: Seq<RowView>| #[trigger]
            answered(query, "PRAGMA application_id"@, Ok(all)) && !(all.len() > 0
                && inspect::number_in(all[0], 0) is Some)),
{
    lemma_pragma_texts();
    let (check, journal, version, application) = choose|
        check: Result<Seq<RowView>, ErrorView>,
        journal: Result<Seq<RowView>, ErrorView>,
        version: Result<Seq<RowView>, ErrorView>,
        application: Result<Seq<RowView>, ErrorView>,
    |
        {
            &&& answered(query, "PRAGMA integrity_check"@, check)
            &&& passes(check) ==> answered(query, "PRAGMA "@ + "journal_mode"@, journal)
            &&& passes(check) && names_mode(journal) ==> answered(
                query,
                "PRAGMA "@ + "user_version"@,
                version,
            )
            &&& passes(check) && names_mode(journal) && numbers_version(version) ==> answered(
                query,
                "PRAGMA "@ + "application_id"@,
                application,
            )
            &&& Err::<ReportView, ErrorView>(e) == #[trigger] report_of(
                check,
                journal,
                version,
                application,
            )
        };
    if let Ok(all) = check {
        assert(answered(query, "PRAGMA integrity_check"@, Ok(all)));
    }
    if passes(check) {
        if let Ok(all) = journal {
            lemma_pragmas("journal_mode"@, all);
            assert(answered(query, "PRAGMA journal_mode"@, Ok(all)));
        }
        if names_mode(journal) {
            if let Ok(all) = version {
                lemma_pragmas("user_version"@, all);
                assert(answered(query, "PRAGMA user_version"@, Ok(all)));
            }
            if numbers_version(version) {
                if let Ok(all) = application {
                    lemma_pragmas("application_id"@, all);
                    assert(answered(query, "PRAGMA application_id"@, Ok(all)));
                }
            }
        }
    }
}

/// A name that was chosen is free: looking for a file of that name gave none,
/// and every name tried before it was taken. No name is chosen only where all
/// 32 are taken.
pub proof fn lemma_chosen_paths_are_free<F: Fn(&str) -> bool>(
    file_name: Seq<char>,
    label: Seq<char>,
    process: u32,
    nanos: u128,
    exists_at: F,
    outcome: Result<Seq<char>, ErrorView>,
)
    requires
        path_chosen(file_name, label, process, nanos, exists_at, outcome),
    ensures
        outcome matches Ok(name) ==> looked(exists_at, name, false) && exists|n: int|
            0 <= n < 32 && name == #[trigger] candidate(file_name, label, process, nanos, n) && (
            forall|k: int|
                0 <= k < n ==> looked(
                    exists_at,
                    #[trigger] candidate(file_name, label, process, nanos, k),
                    true,
                )),
        outcome matches Err(e) ==> e.kind() == Some(AdapterErrorKind::Storage) && forall|k: int|
            0 <= k < 32 ==> looked(
                exists_at,
                #[trigger] candidate(file_name, label, process, nanos, k),
                true,
            ),
{
}

} // verus!
