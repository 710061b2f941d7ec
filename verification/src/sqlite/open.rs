//! Opening a SQLite database: the shared library, the file, and the
//! connections that are open on it.

use vstd::prelude::*;

use crate::contract::AccessMode;
use crate::error::{AdapterErrorKind, DactylError, ErrorView};
use crate::sqlite::reader;
use crate::sqlite::statement;
use crate::sqlite::statement::{SqliteFailure, SQLITE_OK};
use crate::text;

verus! {

// ---------------------------------------------------------------------------
// The shared library
// ---------------------------------------------------------------------------

/// The platforms that name their SQLite library differently.
#[derive(Debug, Clone, Copy, PartialEq, Eq, Structural)]
pub enum Platform {
    Windows,
    Macos,
    Ios,
    Android,
    OtherUnix,
    Other,
}

/// The names of the host's SQLite library, in the order in which they are
/// tried.
pub open spec fn library_names(platform: Platform) -> Seq<Seq<char>> {
    match platform {
        Platform::Windows => seq!["sqlite3.dll"@],
        Platform::Macos | Platform::Ios => seq![
            "/usr/lib/libsqlite3.dylib"@,
            "libsqlite3.dylib"@,
        ],
        Platform::Android => seq!["libsqlite.so"@, "libsqlite.so.0"@],
        Platform::OtherUnix => seq![
            "libsqlite3.so.0"@,
            "libsqlite3.so"@,
            "libsqlite3.dylib"@,
        ],
        Platform::Other => seq!["sqlite3"@],
    }
}

/// The names of the host's SQLite library.
pub fn platform_library_names(platform: Platform) -> (r: Vec<String>)
    ensures
        crate::rows::texts(r@) == library_names(platform),
{
    let mut out: Vec<String> = Vec::new();
    match platform {
        Platform::Windows => {
            out.push("sqlite3.dll".to_string());
        },
        Platform::Macos | Platform::Ios => {
            out.push("/usr/lib/libsqlite3.dylib".to_string());
            out.push("libsqlite3.dylib".to_string());
        },
        Platform::Android => {
            out.push("libsqlite.so".to_string());
            out.push("libsqlite.so.0".to_string());
        },
        Platform::OtherUnix => {
            out.push("libsqlite3.so.0".to_string());
            out.push("libsqlite3.so".to_string());
            out.push("libsqlite3.dylib".to_string());
        },
        Platform::Other => {
            out.push("sqlite3".to_string());
        },
    }
    assert(crate::rows::texts(out@) =~= library_names(platform));
    out
}

/// The libraries to try: the configured one first, unless it is blank.
pub open spec fn candidates(configured: Option<Seq<char>>, platform: Platform) -> Seq<Seq<char>> {
    if configured is Some && !text::is_blank(configured->Some_0) {
        seq![configured->Some_0] + library_names(platform)
    } else {
        library_names(platform)
    }
}

/// The libraries to try.
pub fn library_candidates(configured: Option<&str>, platform: Platform) -> (r: Vec<String>)
    ensures
        crate::rows::texts(r@) == candidates(crate::route::str_option(configured), platform),
{
    let mut out: Vec<String> = Vec::new();
    if let Some(path) = configured {
        if !text::blank(path) {
            out.push(path.to_string());
        }
    }
    let ghost head = crate::rows::texts(out@);
    let mut names: Vec<String> = platform_library_names(platform);
    let ghost tail = crate::rows::texts(names@);
    out.append(&mut names);
    proof {
        assert(crate::rows::texts(out@) =~= head + tail);
        assert(crate::rows::texts(out@) =~= candidates(
            crate::route::str_option(configured),
            platform,
        ));
    }
    out
}

/// The error where none of the libraries could be loaded; each failure says
/// which and why.
pub fn library_unavailable(tried: &Vec<String>, failures: &Vec<String>) -> (r: DactylError)
    ensures
        r@ == crate::error::coded(
            AdapterErrorKind::Unavailable,
            "sqlite_runtime_unavailable"@,
            "could not load a host SQLite shared library; tried "@ + text::joined(
                crate::rows::texts(tried@),
                ", "@,
            ) + " ("@ + text::joined(crate::rows::texts(failures@), "; "@) + ")"@,
        ),
{
    DactylError::adapter_with_code(
        AdapterErrorKind::Unavailable,
        "sqlite_runtime_unavailable",
        "could not load a host SQLite shared library; tried ".to_string().concat(
            text::join(tried, ", ").as_str(),
        ).concat(" (").concat(text::join(failures, "; ").as_str()).concat(")").as_str(),
    )
}

/// The error where a library lacks a symbol.
pub fn symbol_missing(name: &str, reason: &str) -> (r: DactylError)
    ensures
        r@ == crate::error::coded(
            AdapterErrorKind::Unavailable,
            "sqlite_runtime_incompatible"@,
            "host SQLite library is missing "@ + name@ + ": "@ + reason@,
        ),
{
    DactylError::adapter_with_code(
        AdapterErrorKind::Unavailable,
        "sqlite_runtime_incompatible",
        "host SQLite library is missing ".to_string().concat(name).concat(": ").concat(
            reason,
        ).as_str(),
    )
}

// ---------------------------------------------------------------------------
// The file
// ---------------------------------------------------------------------------

pub const OPEN_READONLY: i32 = 0x1;

pub const OPEN_READWRITE: i32 = 0x2;

pub const OPEN_CREATE: i32 = 0x4;

pub const OPEN_FULLMUTEX: i32 = 0x1_0000;

/// What is done before a database is opened.
#[derive(Debug, Clone, Copy, PartialEq, Eq, Structural)]
pub struct OpenPlan {
    /// Create the directories that the file lies in.
    pub create_parent: bool,
    /// Check that the file is a SQLite database.
    pub check_header: bool,
}

/// What is done before a database is opened, or why it is not opened. Only a
/// new file of a writable route goes unchecked.
pub open spec fn open_plan(path: Seq<char>, mode: AccessMode, exists: bool) -> Result<
    OpenPlan,
    ErrorView,
> {
    if path == ":memory:"@ {
        Ok(OpenPlan { create_parent: false, check_header: false })
    } else if mode is ReadOnly && !exists {
        Err(
            crate::error::coded(
                AdapterErrorKind::NotFound,
                "missing_database"@,
                "SQLite database does not exist: "@ + path,
            ),
        )
    } else {
        Ok(OpenPlan { create_parent: mode is ReadWrite, check_header: exists })
    }
}

/// Decide what is done before a database is opened.
pub fn plan_open(path: &str, mode: AccessMode, exists: bool) -> (r: Result<OpenPlan, DactylError>)
    ensures
        match open_plan(path@, mode, exists) {
            Ok(plan) => r is Ok && r->Ok_0 == plan,
            Err(e) => r is Err && r->Err_0@ == e,
        },
{
    if text::str_eq(path, ":memory:") {
        return Ok(OpenPlan { create_parent: false, check_header: false });
    }
    if mode == AccessMode::ReadOnly && !exists {
        return Err(
            DactylError::adapter_with_code(
                AdapterErrorKind::NotFound,
                "missing_database",
                "SQLite database does not exist: ".to_string().concat(path).as_str(),
            ),
        );
    }
    Ok(OpenPlan { create_parent: mode == AccessMode::ReadWrite, check_header: exists })
}

/// Why an existing file may not be opened, if it may not: an empty one may,
/// and one that starts like a SQLite file.
pub open spec fn header_fault(len: u64, header: Seq<u8>) -> Option<ErrorView> {
    if len == 0 || (header.len() == 16 && header == reader::magic()) {
        None
    } else {
        Some(
            crate::error::coded(
                AdapterErrorKind::Corrupt,
                "malformed_database"@,
                "existing local file is not a SQLite database"@,
            ),
        )
    }
}

/// Whether an existing file may be opened: an empty one may, and one that
/// starts like a SQLite file. `header` is what could be read of the first
/// sixteen bytes.
pub fn validate_existing_sqlite_header(len: u64, header: &[u8]) -> (r: Result<(), DactylError>)
    ensures
        match header_fault(len, header@) {
            None => r is Ok,
            Some(e) => r is Err && r->Err_0@ == e,
        },
{
    if len == 0 {
        return Ok(());
    }
    proof {
        if header@.len() == 16 {
            assert(header@.take(16) =~= header@);
        }
    }
    if header.len() != 16 || !reader::starts_with_magic(header) {
        return Err(
            DactylError::adapter_with_code(
                AdapterErrorKind::Corrupt,
                "malformed_database",
                "existing local file is not a SQLite database",
            ),
        );
    }
    Ok(())
}

/// The flags that a database is opened with.
pub open spec fn flags_of(mode: AccessMode) -> int {
    match mode {
        AccessMode::ReadWrite => OPEN_READWRITE + OPEN_CREATE + OPEN_FULLMUTEX,
        AccessMode::ReadOnly => OPEN_READONLY + OPEN_FULLMUTEX,
    }
}

/// The flags that a database is opened with.
pub fn open_flags(mode: AccessMode) -> (r: i32)
    ensures
        r == flags_of(mode),
{
    match mode {
        AccessMode::ReadWrite => OPEN_READWRITE + OPEN_CREATE + OPEN_FULLMUTEX,
        AccessMode::ReadOnly => OPEN_READONLY + OPEN_FULLMUTEX,
    }
}

/// The lock timeout that SQLite is given: it takes no more than the largest
/// signed 32-bit number.
pub open spec fn timeout_of(millis: u128) -> i32 {
    if millis > i32::MAX {
        i32::MAX
    } else {
        millis as i32
    }
}

/// The lock timeout that SQLite is given.
pub fn busy_timeout(millis: u128) -> (r: i32)
    ensures
        r == timeout_of(millis),
{
    if millis > i32::MAX as u128 {
        i32::MAX
    } else {
        millis as i32
    }
}

/// What opening a database came to. `failure` is what SQLite reported where it
/// gave a handle.
pub open spec fn open_result(
    path: Seq<char>,
    code: i32,
    failure: Option<SqliteFailure>,
    has_handle: bool,
) -> Option<ErrorView> {
    if code != SQLITE_OK {
        Some(
            match failure {
                Some(f) => statement::failure_error("open SQLite database"@, f),
                None => crate::error::coded(
                    AdapterErrorKind::Unavailable,
                    "cannot_open"@,
                    "open SQLite database "@ + path + ": SQLite error code "@
                        + text::signed_decimal(code as int),
                ),
            },
        )
    } else if !has_handle {
        Some(
            crate::error::coded(
                AdapterErrorKind::Unavailable,
                "cannot_open"@,
                "open SQLite database "@ + path + ": SQLite returned no handle"@,
            ),
        )
    } else {
        None
    }
}

/// What opening a database came to.
pub fn check_opened(
    path: &str,
    code: i32,
    failure: Option<SqliteFailure>,
    has_handle: bool,
) -> (r: Result<(), DactylError>)
    ensures
        match open_result(path@, code, failure, has_handle) {
            Some(e) => r is Err && r->Err_0@ == e,
            None => r is Ok,
        },
{
    if code != SQLITE_OK {
        return match failure {
            Some(f) => Err(statement::map_sqlite_failure("open SQLite database", &f)),
            None => Err(
                DactylError::adapter_with_code(
                    AdapterErrorKind::Unavailable,
                    "cannot_open",
                    "open SQLite database ".to_string().concat(path).concat(
                        ": SQLite error code ",
                    ).concat(text::signed_decimal_text(code as i64).as_str()).as_str(),
                ),
            ),
        };
    }
    if !has_handle {
        return Err(
            DactylError::adapter_with_code(
                AdapterErrorKind::Unavailable,
                "cannot_open",
                "open SQLite database ".to_string().concat(path).concat(
                    ": SQLite returned no handle",
                ).as_str(),
            ),
        );
    }
    Ok(())
}

// ---------------------------------------------------------------------------
// Open connections
// ---------------------------------------------------------------------------

/// The connections that are open, counted by the path of their database.
pub struct ConnectionRegistry {
    entries: Vec<(String, usize)>,
}

/// The count that entries give a path; the first entry of a path counts.
pub open spec fn count_in(entries: Seq<(Seq<char>, int)>, path: Seq<char>) -> int
    decreases entries.len(),
{
    if entries.len() == 0 {
        0
    } else if entries[0].0 == path {
        entries[0].1
    } else {
        count_in(entries.drop_first(), path)
    }
}

proof fn lemma_count_in(entries: Seq<(Seq<char>, int)>, path: Seq<char>)
    ensures
        count_in(entries, path) != 0 ==> exists|i: int|
            0 <= i < entries.len() && (#[trigger] entries[i]).0 == path,
    decreases entries.len(),
{
    if entries.len() > 0 && entries[0].0 != path {
        let rest = entries.drop_first();
        lemma_count_in(rest, path);
        if count_in(rest, path) != 0 {
            let i = choose|i: int| 0 <= i < rest.len() && (#[trigger] rest[i]).0 == path;
            assert(entries[i + 1].0 == path);
        }
    }
}

proof fn lemma_count_at(entries: Seq<(Seq<char>, int)>, i: int)
    requires
        0 <= i < entries.len(),
        forall|a: int, b: int|
            0 <= a < b < entries.len() ==> (#[trigger] entries[a]).0 != (#[trigger] entries[b]).0,
    ensures
        count_in(entries, entries[i].0) == entries[i].1,
    decreases entries.len(),
{
    if i > 0 {
        assert(entries[0].0 != entries[i].0);
        let rest = entries.drop_first();
        assert forall|a: int, b: int| 0 <= a < b < rest.len() implies (#[trigger] rest[a]).0 != (
        #[trigger] rest[b]).0 by {
            assert(rest[a] == entries[a + 1]);
            assert(rest[b] == entries[b + 1]);
        }
        lemma_count_at(rest, i - 1);
    }
}

proof fn lemma_count_absent(entries: Seq<(Seq<char>, int)>, path: Seq<char>)
    requires
        forall|i: int| 0 <= i < entries.len() ==> (#[trigger] entries[i]).0 != path,
    ensures
        count_in(entries, path) == 0,
{
    lemma_count_in(entries, path);
}

proof fn lemma_count_agrees(
    a: Seq<(Seq<char>, int)>,
    b: Seq<(Seq<char>, int)>,
    path: Seq<char>,
)
    requires
        forall|i: int, j: int|
            0 <= i < j < a.len() ==> (#[trigger] a[i]).0 != (#[trigger] a[j]).0,
        forall|i: int, j: int|
            0 <= i < j < b.len() ==> (#[trigger] b[i]).0 != (#[trigger] b[j]).0,
        forall|i: int|
            0 <= i < a.len() && (#[trigger] a[i]).0 == path ==> exists|j: int|
                0 <= j < b.len() && #[trigger] b[j] == a[i],
        forall|j: int|
            0 <= j < b.len() && (#[trigger] b[j]).0 == path ==> exists|i: int|
                0 <= i < a.len() && #[trigger] a[i] == b[j],
    ensures
        count_in(a, path) == count_in(b, path),
{
    if exists|i: int| 0 <= i < a.len() && (#[trigger] a[i]).0 == path {
        let i = choose|i: int| 0 <= i < a.len() && (#[trigger] a[i]).0 == path;
        let j = choose|j: int| 0 <= j < b.len() && #[trigger] b[j] == a[i];
        lemma_count_at(a, i);
        lemma_count_at(b, j);
    } else {
        lemma_count_absent(a, path);
        assert forall|j: int| 0 <= j < b.len() implies (#[trigger] b[j]).0 != path by {}
        lemma_count_absent(b, path);
    }
}

spec fn pairs(entries: Seq<(String, usize)>) -> Seq<(Seq<char>, int)> {
    entries.map_values(|e: (String, usize)| (e.0@, e.1 as int))
}

impl ConnectionRegistry {
    /// The entries as pairs of a path and a count.
    pub closed spec fn view(self) -> Seq<(Seq<char>, int)> {
        pairs(self.entries@)
    }

    /// The number of connections open on a path.
    pub open spec fn count(self, path: Seq<char>) -> int {
        count_in(self@, path)
    }

    #[verifier::type_invariant]
    closed spec fn well_formed(self) -> bool {
        &&& forall|i: int, j: int|
            0 <= i < j < self@.len() ==> (#[trigger] self@[i]).0 != (#[trigger] self@[j]).0
        &&& forall|i: int| 0 <= i < self@.len() ==> (#[trigger] self@[i]).1 > 0
    }

    /// A registry without connections.
    pub fn new() -> (r: Self)
        ensures
            forall|path: Seq<char>| #[trigger] r.count(path) == 0,
    {
        let r = ConnectionRegistry { entries: Vec::new() };
        assert(r@ =~= Seq::<(Seq<char>, int)>::empty());
        r
    }

    fn position(&self, path: &str) -> (r: Option<usize>)
        ensures
            match r {
                Some(i) => i < self@.len() && self@[i as int].0 == path@,
                None => forall|i: int|
                    0 <= i < self@.len() ==> (#[trigger] self@[i]).0 != path@,
            },
    {
        let mut i: usize = 0;
        while i < self.entries.len()
            invariant
                i <= self.entries@.len(),
                self@.len() == self.entries@.len(),
                forall|k: int| 0 <= k < i ==> (#[trigger] self@[k]).0 != path@,
            decreases self.entries@.len() - i,
        {
            assert(self@[i as int].0 == self.entries@[i as int].0@);
            if text::str_eq(self.entries[i].0.as_str(), path) {
                return Some(i);
            }
            i = i + 1;
        }
        None
    }

    /// The number of connections open on a path.
    pub fn open_count(&self, path: &str) -> (r: usize)
        ensures
            r == self.count(path@),
    {
        proof {
            use_type_invariant(self);
        }
        match self.position(path) {
            Some(i) => {
                proof {
                    lemma_count_at(self@, i as int);
                }
                self.entries[i].1
            },
            None => {
                proof {
                    lemma_count_absent(self@, path@);
                }
                0
            },
        }
    }

    /// Count one more connection on a path.
    pub fn register(self, path: &str) -> (r: Self)
        requires
            self.count(path@) < usize::MAX,
        ensures
            r.count(path@) == self.count(path@) + 1,
            forall|other: Seq<char>|
                other != path@ ==> #[trigger] r.count(other) == self.count(other),
    {
        proof {
            use_type_invariant(&self);
        }
        let ghost before = self@;
        let found: Option<usize> = self.position(path);
        let mut entries: Vec<(String, usize)> = self.entries;
        match found {
            Some(i) => {
                proof {
                    lemma_count_at(before, i as int);
                }
                let (name, count) = entries.remove(i);
                entries.insert(i, (name, count + 1));
                assert(pairs(entries@) =~= before.update(
                    i as int,
                    (path@, before[i as int].1 + 1),
                ));
                let r = ConnectionRegistry { entries };
                proof {
                    lemma_count_at(r@, i as int);
                    assert forall|other: Seq<char>| other != path@ implies #[trigger] r.count(
                        other,
                    ) == count_in(before, other) by {
                        assert forall|k: int|
                            0 <= k < before.len() && (
                            #[trigger] before[k]).0 == other implies exists|j: int|
                            0 <= j < r@.len() && #[trigger] r@[j] == before[k] by {
                            assert(r@[k] == before[k]);
                        }
                        assert forall|k: int|
                            0 <= k < r@.len() && (#[trigger] r@[k]).0 == other implies exists|j:
                            int|
                            0 <= j < before.len() && #[trigger] before[j] == r@[k] by {
                            assert(before[k] == r@[k]);
                        }
                        lemma_count_agrees(before, r@, other);
                    }
                }
                r
            },
            None => {
                proof {
                    lemma_count_absent(before, path@);
                }
                entries.push((path.to_string(), 1));
                assert(pairs(entries@) =~= before.push((path@, 1)));
                let r = ConnectionRegistry { entries };
                proof {
                    lemma_count_at(r@, before.len() as int);
                    assert forall|other: Seq<char>| other != path@ implies #[trigger] r.count(
                        other,
                    ) == count_in(before, other) by {
                        assert forall|k: int|
                            0 <= k < before.len() && (
                            #[trigger] before[k]).0 == other implies exists|j: int|
                            0 <= j < r@.len() && #[trigger] r@[j] == before[k] by {
                            assert(r@[k] == before[k]);
                        }
                        assert forall|k: int|
                            0 <= k < r@.len() && (#[trigger] r@[k]).0 == other implies exists|j:
                            int|
                            0 <= j < before.len() && #[trigger] before[j] == r@[k] by {
                            assert(before[k] == r@[k]);
                        }
                        lemma_count_agrees(before, r@, other);
                    }
                }
                r
            },
        }
    }

    /// Count one connection less on a path, if one is open there.
    pub fn unregister(self, path: &str) -> (r: Self)
        ensures
            r.count(path@) == if self.count(path@) > 0 {
                self.count(path@) - 1
            } else {
                0
            },
            forall|other: Seq<char>|
                other != path@ ==> #[trigger] r.count(other) == self.count(other),
    {
        proof {
            use_type_invariant(&self);
        }
        let ghost before = self@;
        let found: Option<usize> = self.position(path);
        match found {
            Some(i) => {
                let mut entries: Vec<(String, usize)> = self.entries;
                proof {
                    lemma_count_at(before, i as int);
                }
                let (name, count) = entries.remove(i);
                let ghost others = before.remove(i as int);
                assert(pairs(entries@) =~= others);
                if count > 1 {
                    entries.insert(i, (name, count - 1));
                    assert(pairs(entries@) =~= before.update(
                        i as int,
                        (path@, before[i as int].1 - 1),
                    ));
                }
                let r = ConnectionRegistry { entries };
                proof {
                    if count > 1 {
                        lemma_count_at(r@, i as int);
                    } else {
                        assert forall|k: int| 0 <= k < r@.len() implies (#[trigger] r@[k]).0
                            != path@ by {
                            if k < i {
                                assert(r@[k] == before[k]);
                            } else {
                                assert(r@[k] == before[k + 1]);
                            }
                        }
                        lemma_count_absent(r@, path@);
                    }
                    assert forall|other: Seq<char>| other != path@ implies #[trigger] r.count(
                        other,
                    ) == count_in(before, other) by {
                        assert forall|k: int|
                            0 <= k < before.len() && (
                            #[trigger] before[k]).0 == other implies exists|j: int|
                            0 <= j < r@.len() && #[trigger] r@[j] == before[k] by {
                            if count > 1 || k < i {
                                assert(r@[k] == before[k]);
                            } else {
                                assert(r@[k - 1] == before[k]);
                            }
                        }
                        assert forall|k: int|
                            0 <= k < r@.len() && (#[trigger] r@[k]).0 == other implies exists|j:
                            int|
                            0 <= j < before.len() && #[trigger] before[j] == r@[k] by {
                            if count > 1 || k < i {
                                assert(before[k] == r@[k]);
                            } else {
                                assert(before[k + 1] == r@[k]);
                            }
                        }
                        lemma_count_agrees(before, r@, other);
                    }
                }
                r
            },
            None => {
                proof {
                    lemma_count_absent(before, path@);
                }
                self
            },
        }
    }

    /// Whether a connection other than the caller's is open on a path.
    pub fn has_other_connection(&self, path: &str) -> (r: bool)
        ensures
            r == (self.count(path@) > 1),
    {
        self.open_count(path) > 1
    }
}

// ---------------------------------------------------------------------------
// What opening is for
// ---------------------------------------------------------------------------

/// The libraries that are tried on each platform, first to last.
pub proof fn lemma_library_names(platform: Platform)
    ensures
        platform is Windows ==> library_names(platform) == seq!["sqlite3.dll"@],
        platform is Macos || platform is Ios ==> library_names(platform) == seq![
            "/usr/lib/libsqlite3.dylib"@,
            "libsqlite3.dylib"@,
        ],
        platform is Android ==> library_names(platform) == seq![
            "libsqlite.so"@,
            "libsqlite.so.0"@,
        ],
        platform is OtherUnix ==> library_names(platform) == seq![
            "libsqlite3.so.0"@,
            "libsqlite3.so"@,
            "libsqlite3.dylib"@,
        ],
        platform is Other ==> library_names(platform) == seq!["sqlite3"@],
{
}

/// A configured library is tried first, as it is given; one that is blank
/// counts as none. The platform's own follow.
pub proof fn lemma_configured_library_first(configured: Seq<char>, platform: Platform)
    ensures
        candidates(None, platform) == library_names(platform),
        (exists|i: int| 0 <= i < configured.len() && !text::is_space(#[trigger] configured[i]))
            ==> candidates(Some(configured), platform)[0] == configured && candidates(
            Some(configured),
            platform,
        ).skip(1) == library_names(platform),
        (forall|i: int| 0 <= i < configured.len() ==> text::is_space(#[trigger] configured[i]))
            ==> candidates(Some(configured), platform) == library_names(platform),
{
    if !text::is_blank(configured) {
        assert(candidates(Some(configured), platform).skip(1) =~= library_names(platform));
    }
}

/// What is done before a database is opened. A database in memory needs
/// nothing. A file that is to be read only must exist. The directory is created
/// for a file that may be written, and an existing file is checked first.
pub proof fn lemma_open_plans(path: Seq<char>, mode: AccessMode, exists: bool)
    ensures
        ({
            let plan = open_plan(path, mode, exists);
            &&& plan is Err <==> (path != ":memory:"@ && mode == AccessMode::ReadOnly && !exists)
            &&& plan is Err ==> plan->Err_0.kind() == Some(AdapterErrorKind::NotFound)
                && plan->Err_0.code() == Some("missing_database"@)
            &&& plan is Ok ==> (plan->Ok_0.create_parent <==> (path != ":memory:"@ && mode
                == AccessMode::ReadWrite))
            &&& plan is Ok ==> (plan->Ok_0.check_header <==> (path != ":memory:"@ && exists))
        }),
{
}

/// Which existing files may be opened: those without a byte, and those whose
/// first sixteen bytes are the text `SQLite format 3` and a zero.
pub proof fn lemma_existing_files(len: u64, header: Seq<u8>)
    ensures
        header_fault(len, header) is None <==> (len == 0 || (header.len() == 16 && header[15] == 0
            && forall|i: int|
            0 <= i < 15 ==> #[trigger] header[i] as char == "SQLite format 3"@[i])),
        header_fault(len, header) is Some ==> header_fault(len, header)->Some_0.kind() == Some(
            AdapterErrorKind::Corrupt,
        ) && header_fault(len, header)->Some_0.code() == Some("malformed_database"@),
{
    reveal_strlit("SQLite format 3");
    let m = reader::magic();
    if header.len() == 16 && header[15] == 0 && (forall|i: int|
        0 <= i < 15 ==> #[trigger] header[i] as char == "SQLite format 3"@[i]) {
        assert forall|k: int| 0 <= k < 16 implies header[k] == m[k] by {
            if k < 15 {
                assert(header[k] as char == "SQLite format 3"@[k]);
            }
        }
        assert(header =~= m);
    }
}

/// The flags that SQLite is given: to read and write, to create and to
/// serialize, or to read and to serialize; by SQLite's own numbers.
pub proof fn lemma_open_flags(mode: AccessMode)
    ensures
        mode == AccessMode::ReadWrite ==> flags_of(mode) == 0x2 + 0x4 + 0x1_0000,
        mode == AccessMode::ReadOnly ==> flags_of(mode) == 0x1 + 0x1_0000,
{
}

/// The lock timeout is the one asked for, as far as SQLite can count.
pub proof fn lemma_lock_timeouts(millis: u128)
    ensures
        millis <= 0x7fff_ffff ==> timeout_of(millis) == millis,
        millis > 0x7fff_ffff ==> timeout_of(millis) == 0x7fff_ffff,
{
}

/// A database is open exactly where SQLite answered 0 and gave a handle.
/// Otherwise its own failure is reported, or that it could not be opened.
pub proof fn lemma_opened_databases(
    path: Seq<char>,
    code: i32,
    failure: Option<SqliteFailure>,
    has_handle: bool,
)
    ensures
        ({
            let r = open_result(path, code, failure, has_handle);
            &&& r is None <==> (code == 0 && has_handle)
            &&& code != 0 && failure is Some ==> r == Some(
                statement::failure_error("open SQLite database"@, failure->Some_0),
            )
            &&& (code == 0 && !has_handle) || (code != 0 && failure is None)
                ==> r->Some_0.kind() == Some(AdapterErrorKind::Unavailable) && r->Some_0.code()
                == Some("cannot_open"@)
        }),
{
}

} // verus!
