//! Explicit conversion of a SQLite file into a native snapshot.
//!
//! Opening a SQLite file as a snapshot fails closed; conversion is the
//! supported migration boundary. What is decided here is what may be
//! converted, in which steps, and what is reported; the snapshot engine and
//! the file system are the caller's.

use vstd::prelude::*;

use crate::error::{AdapterErrorKind, DactylError, ErrorView};
use crate::schema::StoreSchema;
use crate::sqlite::bytes;
use crate::sqlite::catalog;
use crate::sqlite::catalog::{ObjectView, SchemaObject};
use crate::sqlite::keywords;
use crate::sqlite::publish;
use crate::sqlite::reader;
use crate::sqlite::reader::{FileView, SqliteReader, TableRow};
use crate::text;
use crate::value::Value;

verus! {

/// Result of a successful conversion or an idempotent no-op.
#[derive(Debug, Clone, PartialEq, Eq)]
pub struct ImportReport {
    pub source: String,
    pub destination: String,
    pub already_converted: bool,
    pub tables: u64,
    pub indexes: u64,
    pub rows: u64,
    pub backup: Option<String>,
}

// ---------------------------------------------------------------------------
// Which files may be converted
// ---------------------------------------------------------------------------

/// What a path holds.
#[derive(Debug, Clone, Copy, PartialEq, Eq, Structural)]
pub enum FileKind {
    Missing,
    Empty,
    Sqlite,
    Dactyl,
    Unknown,
}

/// What the first bytes of a file say that it is: at most sixteen are looked
/// at, and missing ones count as zero.
pub open spec fn kind_of(header: Seq<u8>) -> FileKind {
    if header.len() == 0 {
        FileKind::Empty
    } else if forall|k: int|
        0 <= k < 16 ==> #[trigger] reader::magic()[k] == (if k < header.len() {
            header[k]
        } else {
            0
        }) {
        FileKind::Sqlite
    } else if header[0] == 0x7b {
        FileKind::Dactyl
    } else {
        FileKind::Unknown
    }
}

/// What the first bytes of a file say that it is.
pub fn sniff(header: &[u8]) -> (r: FileKind)
    ensures
        r == kind_of(header@),
{
    if header.len() == 0 {
        return FileKind::Empty;
    }
    let expected: [u8; 16] = [
        0x53, 0x51, 0x4c, 0x69, 0x74, 0x65, 0x20, 0x66, 0x6f, 0x72, 0x6d, 0x61, 0x74, 0x20, 0x33, 0x00,
    ];
    assert(expected@ =~= reader::magic());
    let mut same: bool = true;
    let mut i: usize = 0;
    while i < 16
        invariant
            i <= 16,
            expected@ == reader::magic(),
            same == forall|k: int|
                0 <= k < i ==> #[trigger] reader::magic()[k] == (if k < header@.len() {
                    header@[k]
                } else {
                    0
                }),
        decreases 16 - i,
    {
        let byte: u8 = if i < header.len() {
            header[i]
        } else {
            0
        };
        assert(reader::magic()[i as int] == expected@[i as int]);
        if byte != expected[i] {
            same = false;
        }
        i = i + 1;
    }
    if same {
        FileKind::Sqlite
    } else if header[0] == 0x7b {
        FileKind::Dactyl
    } else {
        FileKind::Unknown
    }
}

/// The two paths of a conversion and what they hold.
pub struct ImportPaths {
    pub source: String,
    pub destination: String,
    pub source_kind: FileKind,
    pub destination_kind: FileKind,
    /// Whether both paths name one file.
    pub same: bool,
    /// Whether the destination exists and cannot be written.
    pub destination_read_only: bool,
}

/// What a conversion starts with.
#[derive(Debug, Clone, Copy, PartialEq, Eq, Structural)]
pub enum ImportStart {
    /// The path holds a snapshot already: report it.
    Report,
    /// Read the source and convert it.
    Convert,
}

/// What a conversion starts with, or why there is none.
pub open spec fn import_start(paths: ImportPaths) -> Result<ImportStart, ErrorView> {
    let source = paths.source@;
    match paths.source_kind {
        FileKind::Missing => Err(
            crate::error::coded(
                AdapterErrorKind::NotFound,
                "missing_input"@,
                "import source "@ + source + " does not exist"@,
            ),
        ),
        FileKind::Unknown => Err(
            crate::error::coded(
                AdapterErrorKind::Capability,
                "not_sqlite"@,
                source + " is not a SQLite or Dactyl store"@,
            ),
        ),
        FileKind::Empty => Err(
            crate::error::coded(
                AdapterErrorKind::Capability,
                "not_sqlite"@,
                source + " is empty"@,
            ),
        ),
        FileKind::Dactyl => if paths.same {
            Ok(ImportStart::Report)
        } else {
            Err(
                crate::error::coded(
                    AdapterErrorKind::Capability,
                    "already_dactyl"@,
                    source + " is already a Dactyl snapshot; copy it or open it directly"@,
                ),
            )
        },
        FileKind::Sqlite => if paths.destination_kind is Sqlite && !paths.same {
            Err(
                crate::error::coded(
                    AdapterErrorKind::Capability,
                    "destination_is_sqlite"@,
                    "refusing to overwrite a different SQLite file; import in place or choose a new path"@,
                ),
            )
        } else if paths.destination_read_only {
            Err(
                crate::error::coded(
                    AdapterErrorKind::ReadOnly,
                    "read_only_destination"@,
                    "import destination "@ + paths.destination@ + " is not writable"@,
                ),
            )
        } else {
            Ok(ImportStart::Convert)
        },
    }
}

/// Decide what a conversion starts with.
pub fn begin_import(paths: &ImportPaths) -> (r: Result<ImportStart, DactylError>)
    ensures
        match import_start(*paths) {
            Ok(start) => r is Ok && r->Ok_0 == start,
            Err(e) => r is Err && r->Err_0@ == e,
        },
{
    let source: String = paths.source.clone();
    match paths.source_kind {
        FileKind::Missing => Err(
            bytes::coded(
                AdapterErrorKind::NotFound,
                "missing_input",
                "import source ".to_string().concat(source.as_str()).concat(
                    " does not exist",
                ).as_str(),
            ),
        ),
        FileKind::Unknown => Err(
            bytes::coded(
                AdapterErrorKind::Capability,
                "not_sqlite",
                source.concat(" is not a SQLite or Dactyl store").as_str(),
            ),
        ),
        FileKind::Empty => Err(
            bytes::coded(
                AdapterErrorKind::Capability,
                "not_sqlite",
                source.concat(" is empty").as_str(),
            ),
        ),
        FileKind::Dactyl => if paths.same {
            Ok(ImportStart::Report)
        } else {
            Err(
                bytes::coded(
                    AdapterErrorKind::Capability,
                    "already_dactyl",
                    source.concat(
                        " is already a Dactyl snapshot; copy it or open it directly",
                    ).as_str(),
                ),
            )
        },
        FileKind::Sqlite => if paths.destination_kind == FileKind::Sqlite && !paths.same {
            Err(
                bytes::coded(
                    AdapterErrorKind::Capability,
                    "destination_is_sqlite",
                    "refusing to overwrite a different SQLite file; import in place or choose a new path",
                ),
            )
        } else if paths.destination_read_only {
            Err(
                bytes::coded(
                    AdapterErrorKind::ReadOnly,
                    "read_only_destination",
                    "import destination ".to_string().concat(paths.destination.as_str()).concat(
                        " is not writable",
                    ).as_str(),
                ),
            )
        } else {
            Ok(ImportStart::Convert)
        },
    }
}

/// What becomes of a converted snapshot.
#[derive(Debug, Clone, Copy, PartialEq, Eq, Structural)]
pub enum ImportFinish {
    /// The destination holds the same snapshot: report it.
    Report,
    /// Replace the source by the snapshot.
    PublishInPlace,
    /// Write the snapshot to the destination.
    Persist,
}

/// What becomes of a converted snapshot. `equivalent` says whether a snapshot
/// at the destination is the same.
pub open spec fn import_finish(paths: ImportPaths, equivalent: bool) -> Result<
    ImportFinish,
    ErrorView,
> {
    if paths.destination_kind is Dactyl {
        if equivalent {
            Ok(ImportFinish::Report)
        } else {
            Err(
                crate::error::coded(
                    AdapterErrorKind::Conflict,
                    "divergent_destination"@,
                    "destination is already a Dactyl snapshot and does not match the source"@,
                ),
            )
        }
    } else if paths.same {
        Ok(ImportFinish::PublishInPlace)
    } else {
        Ok(ImportFinish::Persist)
    }
}

/// Decide what becomes of a converted snapshot.
pub fn finish_import(paths: &ImportPaths, equivalent: bool) -> (r: Result<
    ImportFinish,
    DactylError,
>)
    ensures
        match import_finish(*paths, equivalent) {
            Ok(finish) => r is Ok && r->Ok_0 == finish,
            Err(e) => r is Err && r->Err_0@ == e,
        },
{
    if paths.destination_kind == FileKind::Dactyl {
        if equivalent {
            Ok(ImportFinish::Report)
        } else {
            Err(
                bytes::coded(
                    AdapterErrorKind::Conflict,
                    "divergent_destination",
                    "destination is already a Dactyl snapshot and does not match the source",
                ),
            )
        }
    } else if paths.same {
        Ok(ImportFinish::PublishInPlace)
    } else {
        Ok(ImportFinish::Persist)
    }
}

/// A conversion never writes over a snapshot or over a SQLite file other than
/// its source.
pub proof fn lemma_import_overwrites_nothing_else(paths: ImportPaths, equivalent: bool)
    ensures
        import_start(paths) == Ok::<ImportStart, ErrorView>(ImportStart::Convert) && import_finish(
            paths,
            equivalent,
        ) == Ok::<ImportFinish, ErrorView>(ImportFinish::Persist)
            ==> !(paths.destination_kind is Sqlite) && !(paths.destination_kind is Dactyl)
            && !paths.destination_read_only,
        import_start(paths) == Ok::<ImportStart, ErrorView>(ImportStart::Convert) && import_finish(
            paths,
            equivalent,
        ) == Ok::<ImportFinish, ErrorView>(ImportFinish::PublishInPlace)
            ==> paths.same && !paths.destination_read_only,
{
}

/// The report of a conversion that ended with this schema.
pub fn report(
    paths: &ImportPaths,
    already_converted: bool,
    schema: &StoreSchema,
    backup: Option<String>,
) -> (r: ImportReport)
    requires
        crate::schema::total_rows(schema.tables@) <= u64::MAX,
    ensures
        r.source@ == paths.source@,
        r.destination@ == paths.destination@,
        r.already_converted == already_converted,
        r.tables == schema.tables@.len(),
        r.indexes == schema.indexes@.len(),
        r.rows == crate::schema::total_rows(schema.tables@),
        r.backup == backup,
{
    ImportReport {
        source: paths.source.clone(),
        destination: paths.destination.clone(),
        already_converted,
        tables: schema.tables.len() as u64,
        indexes: schema.indexes.len() as u64,
        rows: schema.row_count(),
        backup,
    }
}

/// The error of a snapshot that could not be loaded: a storage error without
/// a code means that the snapshot is corrupt.
pub open spec fn load_fault(e: ErrorView) -> ErrorView {
    match e {
        ErrorView::Adapter { kind, code, message } => if kind is Storage && code is None {
            bytes::corrupted(message)
        } else {
            e
        },
        _ => e,
    }
}

/// The error of a snapshot that could not be loaded.
pub fn load_import_error(error: DactylError) -> (r: DactylError)
    ensures
        r@ == load_fault(error@),
{
    match error {
        DactylError::Adapter { kind, code, message } => {
            if kind == AdapterErrorKind::Storage && code.is_none() {
                bytes::corrupt(message.as_str())
            } else {
                DactylError::Adapter { kind, code, message }
            }
        },
        other => other,
    }
}

// ---------------------------------------------------------------------------
// An import, step by step
// ---------------------------------------------------------------------------

/// What is to be done next in an import.
#[derive(Debug, Clone, Copy, PartialEq, Eq, Structural)]
pub enum ImportStep {
    /// Load the snapshot that the path already holds.
    Load,
    /// Read the source and convert it.
    Convert,
    /// Load the snapshot at the destination and compare.
    Compare,
    /// Create the directory of the destination.
    CreateParent,
    /// Replace the source by the snapshot.
    PublishInPlace,
    /// Write the snapshot to the destination.
    Persist,
    /// Nothing: there is a snapshot to report.
    Finished,
    /// Nothing: the import failed.
    Failed,
}

/// How a step of an import went.
#[derive(Debug)]
pub enum ImportOutcome {
    Done,
    /// Whether the snapshot at the destination is the same.
    Compared(bool),
    /// The file system refused, for this reason.
    Io(String),
    /// The step failed with this error.
    Refused(DactylError),
}

/// What an [`ImportOutcome`] says.
pub ghost enum ImportOutcomeView {
    Done,
    Compared(bool),
    Io(Seq<char>),
    Refused(ErrorView),
}

impl ImportOutcome {
    pub open spec fn view(self) -> ImportOutcomeView {
        match self {
            ImportOutcome::Done => ImportOutcomeView::Done,
            ImportOutcome::Compared(same) => ImportOutcomeView::Compared(same),
            ImportOutcome::Io(reason) => ImportOutcomeView::Io(reason@),
            ImportOutcome::Refused(e) => ImportOutcomeView::Refused(e@),
        }
    }
}

/// Whether a step can go this way.
pub open spec fn import_fits(step: ImportStep, outcome: ImportOutcomeView) -> bool {
    match step {
        ImportStep::Load | ImportStep::Convert | ImportStep::PublishInPlace => outcome is Done
            || outcome is Refused,
        ImportStep::Compare => outcome is Compared || outcome is Refused,
        ImportStep::CreateParent | ImportStep::Persist => outcome is Done || outcome is Io,
        ImportStep::Finished | ImportStep::Failed => false,
    }
}

/// Where an import stands.
pub ghost struct ImportView {
    pub paths: ImportPaths,
    pub step: ImportStep,
    /// Whether there was a snapshot already.
    pub already_converted: bool,
    /// Whether the source was replaced, and stands as a backup.
    pub replaced: bool,
    pub error: Option<ErrorView>,
}

impl ImportView {
    pub open spec fn moved(self, step: ImportStep) -> ImportView {
        ImportView { step, ..self }
    }

    pub open spec fn failed(self, e: ErrorView) -> ImportView {
        ImportView { step: ImportStep::Failed, error: Some(e), ..self }
    }

    /// The import once it has a snapshot to report.
    pub open spec fn finished(self, already_converted: bool) -> ImportView {
        ImportView { step: ImportStep::Finished, already_converted, ..self }
    }

    /// The import once its step went one way.
    pub open spec fn after(self, outcome: ImportOutcomeView) -> ImportView {
        match outcome {
            ImportOutcomeView::Done => match self.step {
                ImportStep::Load => self.finished(true),
                ImportStep::Convert => if self.paths.destination_kind is Dactyl {
                    self.moved(ImportStep::Compare)
                } else {
                    self.moved(ImportStep::CreateParent)
                },
                ImportStep::CreateParent => if self.paths.same {
                    self.moved(ImportStep::PublishInPlace)
                } else {
                    self.moved(ImportStep::Persist)
                },
                ImportStep::PublishInPlace => ImportView {
                    replaced: true,
                    ..self.finished(false)
                },
                _ => self.finished(false),
            },
            ImportOutcomeView::Compared(same) => match import_finish(self.paths, same) {
                Ok(_) => self.finished(true),
                Err(e) => self.failed(e),
            },
            ImportOutcomeView::Io(reason) => self.failed(
                publish::replacement_failed(
                    if self.step is CreateParent {
                        "create destination parent: "@ + reason
                    } else {
                        "persist converted store: "@ + reason
                    },
                ),
            ),
            ImportOutcomeView::Refused(e) => self.failed(
                if self.step is Load || self.step is Compare {
                    load_fault(e)
                } else {
                    e
                },
            ),
        }
    }

    /// The import with these paths about to start.
    pub open spec fn started(paths: ImportPaths) -> ImportView {
        let at = ImportView {
            paths,
            step: ImportStep::Convert,
            already_converted: false,
            replaced: false,
            error: None,
        };
        match import_start(paths) {
            Ok(ImportStart::Report) => at.moved(ImportStep::Load),
            Ok(ImportStart::Convert) => at,
            Err(e) => at.failed(e),
        }
    }

    /// Where an import may stand.
    pub open spec fn wf(self) -> bool {
        &&& self.step is Failed <==> self.error is Some
        &&& self.step is Compare ==> self.paths.destination_kind is Dactyl
    }
}

/// An import in progress.
pub struct Import {
    paths: ImportPaths,
    step: ImportStep,
    already_converted: bool,
    replaced: bool,
    error: Option<DactylError>,
}

/// The backup of a replaced source.
pub open spec fn backup_of(v: ImportView) -> Option<Seq<char>> {
    if v.replaced {
        Some(v.paths.destination@ + ".legacy-sqlite"@)
    } else {
        None
    }
}

impl Import {
    pub closed spec fn view(self) -> ImportView {
        ImportView {
            paths: self.paths,
            step: self.step,
            already_converted: self.already_converted,
            replaced: self.replaced,
            error: match self.error {
                Some(e) => Some(e@),
                None => None,
            },
        }
    }

    #[verifier::type_invariant]
    closed spec fn well_formed(self) -> bool {
        self@.wf()
    }

    /// An import with these paths about to start.
    pub fn new(paths: ImportPaths) -> (r: Self)
        ensures
            r@ == ImportView::started(paths),
    {
        let (step, error): (ImportStep, Option<DactylError>) = match begin_import(&paths) {
            Ok(ImportStart::Report) => (ImportStep::Load, None),
            Ok(ImportStart::Convert) => (ImportStep::Convert, None),
            Err(e) => (ImportStep::Failed, Some(e)),
        };
        Import { paths, step, already_converted: false, replaced: false, error }
    }

    /// What is to be done next.
    pub fn step(&self) -> (r: ImportStep)
        ensures
            r == self@.step,
    {
        self.step
    }

    fn fail(self, e: DactylError) -> (r: Self)
        ensures
            r@ == self@.failed(e@),
    {
        Import { step: ImportStep::Failed, error: Some(e), ..self }
    }

    /// Take note of how the step went.
    pub fn advance(self, outcome: ImportOutcome) -> (r: Self)
        requires
            import_fits(self@.step, outcome@),
        ensures
            r@ == self@.after(outcome@),
    {
        proof {
            use_type_invariant(&self);
        }
        match outcome {
            ImportOutcome::Done => match self.step {
                ImportStep::Load => Import {
                    step: ImportStep::Finished,
                    already_converted: true,
                    ..self
                },
                ImportStep::Convert => if self.paths.destination_kind == FileKind::Dactyl {
                    Import { step: ImportStep::Compare, ..self }
                } else {
                    Import { step: ImportStep::CreateParent, ..self }
                },
                ImportStep::CreateParent => if self.paths.same {
                    Import { step: ImportStep::PublishInPlace, ..self }
                } else {
                    Import { step: ImportStep::Persist, ..self }
                },
                ImportStep::PublishInPlace => Import {
                    step: ImportStep::Finished,
                    already_converted: false,
                    replaced: true,
                    ..self
                },
                _ => Import { step: ImportStep::Finished, already_converted: false, ..self },
            },
            ImportOutcome::Compared(same) => match finish_import(&self.paths, same) {
                Ok(_) => Import { step: ImportStep::Finished, already_converted: true, ..self },
                Err(e) => self.fail(e),
            },
            ImportOutcome::Io(reason) => {
                let label: &str = if self.step == ImportStep::CreateParent {
                    "create destination parent: "
                } else {
                    "persist converted store: "
                };
                self.fail(publish::replacement_error(label, reason.as_str()))
            },
            ImportOutcome::Refused(e) => if self.step == ImportStep::Load || self.step
                == ImportStep::Compare {
                self.fail(load_import_error(e))
            } else {
                self.fail(e)
            },
        }
    }

    /// The report of the import, or why it failed. `schema` is that of the
    /// snapshot that was loaded or converted.
    pub fn into_report(self, schema: &StoreSchema) -> (r: Result<ImportReport, DactylError>)
        requires
            self@.step is Finished || self@.step is Failed,
            crate::schema::total_rows(schema.tables@) <= u64::MAX,
        ensures
            match self@.error {
                Some(e) => r is Err && r->Err_0@ == e,
                None => r is Ok && reports(self@, *schema, r->Ok_0),
            },
    {
        if let Some(e) = self.error {
            return Err(e);
        }
        if self.replaced {
            let backup: String = publish::backup_name(self.paths.destination.as_str());
            let paths = ImportPaths { source: self.paths.destination.clone(), ..self.paths };
            Ok(report(&paths, self.already_converted, schema, Some(backup)))
        } else {
            Ok(report(&self.paths, self.already_converted, schema, None))
        }
    }
}

/// Whether a report says what an import came to. A replaced source goes by the
/// path of the destination.
pub open spec fn reports(v: ImportView, schema: StoreSchema, r: ImportReport) -> bool {
    &&& r.source@ == if v.replaced {
        v.paths.destination@
    } else {
        v.paths.source@
    }
    &&& r.destination@ == v.paths.destination@
    &&& r.already_converted == v.already_converted
    &&& r.tables == schema.tables@.len()
    &&& r.indexes == schema.indexes@.len()
    &&& r.rows == crate::schema::total_rows(schema.tables@)
    &&& match r.backup {
        Some(backup) => backup_of(v) == Some(backup@),
        None => backup_of(v) is None,
    }
}

/// Whether an import has ended.
pub open spec fn import_ended(v: ImportView) -> bool {
    v.step is Finished || v.step is Failed
}

/// Where an import stands once its steps went these ways, up to its end.
pub open spec fn imported(v: ImportView, outcomes: Seq<ImportOutcomeView>) -> ImportView
    decreases outcomes.len(),
{
    if outcomes.len() == 0 || import_ended(v) {
        v
    } else {
        imported(v.after(outcomes[0]), outcomes.drop_first())
    }
}

/// The steps that an import hands out while they go these ways, up to its end.
pub open spec fn import_steps(v: ImportView, outcomes: Seq<ImportOutcomeView>) -> Seq<ImportStep>
    decreases outcomes.len(),
{
    if outcomes.len() == 0 || import_ended(v) {
        Seq::empty()
    } else {
        seq![v.step] + import_steps(v.after(outcomes[0]), outcomes.drop_first())
    }
}

/// Whether each step can go the way it went.
pub open spec fn imports_fit(v: ImportView, outcomes: Seq<ImportOutcomeView>) -> bool
    decreases outcomes.len(),
{
    outcomes.len() == 0 || import_ended(v) || (import_fits(v.step, outcomes[0]) && imports_fit(
        v.after(outcomes[0]),
        outcomes.drop_first(),
    ))
}

/// What a file is that holds a whole source or a whole snapshot.
pub open spec fn kind_held(content: publish::Content) -> FileKind {
    match content {
        publish::Content::Source => FileKind::Sqlite,
        publish::Content::Snapshot => FileKind::Dactyl,
        publish::Content::Nothing => FileKind::Missing,
        publish::Content::Leftover => FileKind::Unknown,
    }
}

/// An import whose two paths name one file: the ways its steps went, and the
/// ways the actions went that replace the file.
pub ghost struct InPlaceRun {
    pub paths: ImportPaths,
    pub outcomes: Seq<ImportOutcomeView>,
    pub events: Seq<publish::Event>,
}

impl InPlaceRun {
    /// The steps that were handed out.
    pub open spec fn steps(self) -> Seq<ImportStep> {
        import_steps(ImportView::started(self.paths), self.outcomes)
    }

    /// Where the import stands at the end.
    pub open spec fn end(self) -> ImportView {
        imported(ImportView::started(self.paths), self.outcomes)
    }

    /// The replacement of the file, where it comes to one.
    pub open spec fn replacement(self, files: publish::Files) -> publish::Progress {
        publish::progress(publish::replacement_started(files), self.events)
    }

    /// What the files hold after the import. Loading, converting, comparing
    /// and creating the directory leave them alone.
    pub open spec fn files_after(self, files: publish::Files) -> publish::Files {
        if self.steps().contains(ImportStep::PublishInPlace) {
            self.replacement(files).files
        } else {
            files
        }
    }

    /// Whether an import can go this way on these files: what the path holds
    /// is told as it is, each step goes a way that it can, and the file counts
    /// as replaced exactly where its replacement finished.
    pub open spec fn truthful(self, files: publish::Files) -> bool {
        &&& self.paths.same
        &&& self.paths.source_kind == kind_held(files.source)
        &&& self.paths.destination_kind == kind_held(files.source)
        &&& imports_fit(ImportView::started(self.paths), self.outcomes)
        &&& forall|k: int|
            0 <= k < self.steps().len() && #[trigger] self.steps()[k] is PublishInPlace ==> (
            self.outcomes[k] is Done <==> self.replacement(files).action is Finished)
    }
}

proof fn lemma_in_place_run(v: ImportView, outcomes: Seq<ImportOutcomeView>) -> (k: int)
    requires
        v.paths.same,
        !(v.paths.destination_kind is Dactyl),
        v.step is Convert || v.step is CreateParent || v.step is PublishInPlace,
        !v.replaced && !v.already_converted && v.error is None,
        imports_fit(v, outcomes),
        imported(v, outcomes).step is Finished,
    ensures
        imported(v, outcomes).replaced,
        !imported(v, outcomes).already_converted,
        imported(v, outcomes).paths == v.paths,
        0 <= k < import_steps(v, outcomes).len(),
        import_steps(v, outcomes)[k] is PublishInPlace,
        k < outcomes.len() && outcomes[k] is Done,
    decreases outcomes.len(),
{
    let w = v.after(outcomes[0]);
    let rest = import_steps(w, outcomes.drop_first());
    assert(import_steps(v, outcomes) =~= seq![v.step] + rest);
    if import_ended(w) {
        assert(imported(w, outcomes.drop_first()) == w);
        0
    } else {
        lemma_in_place_run(w, outcomes.drop_first()) + 1
    }
}

/// Converting in place twice is a no-op the second time. The first import of a
/// SQLite file that succeeds reports a conversion: the path then holds the
/// snapshot, and the file itself stands as the backup that the report names.
/// The second import finds the snapshot and does nothing but load it, so that
/// every file keeps what it holds. It succeeds exactly where the snapshot can
/// be loaded, and reports that there was one already, without a backup and
/// with the same counts.
pub proof fn lemma_second_import_changes_nothing(
    files: publish::Files,
    first: InPlaceRun,
    first_report: ImportReport,
    second: InPlaceRun,
    second_report: ImportReport,
    schema: StoreSchema,
)
    requires
        files.source is Source,
        first.truthful(files),
        first.end().step is Finished,
        reports(first.end(), schema, first_report),
        second.truthful(first.files_after(files)),
        second.outcomes.len() > 0,
        second.end().step is Finished ==> reports(second.end(), schema, second_report),
    ensures
        !first_report.already_converted,
        first_report.backup is Some,
        first_report.backup->Some_0@ == first.paths.destination@ + ".legacy-sqlite"@,
        first.files_after(files).backup is Source,
        first.files_after(files).source is Snapshot,
        second.steps() == seq![ImportStep::Load],
        second.files_after(first.files_after(files)) == first.files_after(files),
        second.end().step is Finished <==> second.outcomes[0] is Done,
        second.end().step is Finished ==> {
            &&& second_report.already_converted
            &&& second_report.backup is None
            &&& second_report.tables == first_report.tables
            &&& second_report.indexes == first_report.indexes
            &&& second_report.rows == first_report.rows
        },
{
    let k = lemma_in_place_run(ImportView::started(first.paths), first.outcomes);
    assert(first.steps()[k] is PublishInPlace);
    publish::lemma_replacement_keeps_the_source(files, first.events);
    let v = ImportView::started(second.paths);
    assert(v.step is Load);
    let w = v.after(second.outcomes[0]);
    let rest = second.outcomes.drop_first();
    assert(imported(w, rest) == w);
    assert(import_steps(w, rest) =~= Seq::<ImportStep>::empty());
    assert(second.steps() =~= seq![ImportStep::Load]);
}

// ---------------------------------------------------------------------------
// The steps of a conversion
// ---------------------------------------------------------------------------

/// Where a conversion stands.
#[derive(Debug, Clone, Copy, PartialEq, Eq, Structural)]
pub enum Stage {
    /// Tables are created.
    Tables,
    /// Indexes are created.
    Indexes,
    /// Rows are loaded.
    Rows,
    /// Foreign keys are checked.
    ForeignKeys,
    Finished,
}

/// One step of a conversion, for the snapshot engine.
pub enum ConvertStep {
    /// Execute a `CREATE TABLE` statement.
    CreateTable { name: String, sql: String },
    /// Execute a `CREATE INDEX` statement.
    CreateIndex { name: String, sql: String },
    /// Load the rows of a table; `rowid_column` is the column that its row id
    /// stands for.
    LoadRows { name: String, rows: Vec<(i64, Vec<Value>)>, rowid_column: Option<String> },
    /// Check the foreign keys of every row.
    CheckForeignKeys,
    /// Nothing: the snapshot is complete.
    Finished,
}

/// What a [`ConvertStep`] says.
#[verifier::ext_equal]
pub ghost enum StepView {
    CreateTable { name: Seq<char>, sql: Seq<char> },
    CreateIndex { name: Seq<char>, sql: Seq<char> },
    LoadRows { name: Seq<char>, rows: Seq<TableRow>, rowid_column: Option<Seq<char>> },
    CheckForeignKeys,
    Finished,
}

impl ConvertStep {
    pub open spec fn view(self) -> StepView {
        match self {
            ConvertStep::CreateTable { name, sql } => StepView::CreateTable {
                name: name@,
                sql: sql@,
            },
            ConvertStep::CreateIndex { name, sql } => StepView::CreateIndex {
                name: name@,
                sql: sql@,
            },
            ConvertStep::LoadRows { name, rows, rowid_column } => StepView::LoadRows {
                name: name@,
                rows: reader::table_row_views(rows@),
                rowid_column: crate::error::text_option(rowid_column),
            },
            ConvertStep::CheckForeignKeys => StepView::CheckForeignKeys,
            ConvertStep::Finished => StepView::Finished,
        }
    }
}

/// Whether an object is a table of the application's.
pub open spec fn is_table(object: ObjectView) -> bool {
    object.kind == "table"@ && !text::has_prefix(object.name, "sqlite_"@)
}

/// Whether an object is an index of the application's that has a statement.
pub open spec fn is_index(object: ObjectView) -> bool {
    object.kind == "index"@ && !text::has_prefix(object.name, "sqlite_"@) && object.sql is Some
}

/// Whether a stage has work to do for an object.
pub open spec fn concerns(stage: Stage, object: ObjectView) -> bool {
    if stage is Indexes {
        is_index(object)
    } else {
        is_table(object)
    }
}

/// The first object from `i` on that a stage has work to do for.
pub open spec fn next_object(stage: Stage, objects: Seq<ObjectView>, i: int) -> int
    decreases objects.len() - i,
{
    if i < 0 || i >= objects.len() {
        objects.len() as int
    } else if concerns(stage, objects[i]) {
        i
    } else {
        next_object(stage, objects, i + 1)
    }
}

/// The stage behind a stage.
pub open spec fn stage_after(stage: Stage) -> Stage {
    match stage {
        Stage::Tables => Stage::Indexes,
        Stage::Indexes => Stage::Rows,
        Stage::Rows => Stage::ForeignKeys,
        _ => Stage::Finished,
    }
}

/// The step that a stage takes for an object.
pub open spec fn object_step(file: FileView, stage: Stage, object: ObjectView) -> Result<
    StepView,
    ErrorView,
> {
    match stage {
        Stage::Tables => match object.sql {
            None => Err(
                keywords::unsupported_schema(
                    "table "@ + object.name + " has no CREATE statement"@,
                ),
            ),
            Some(sql) => match keywords::table_fault(object.name, sql) {
                Some(e) => Err(e),
                None => Ok(StepView::CreateTable { name: object.name, sql }),
            },
        },
        Stage::Indexes => Ok(
            StepView::CreateIndex { name: object.name, sql: object.sql->Some_0 },
        ),
        _ => match file.table_rows(object.root_page as int) {
            Err(e) => Err(e),
            Ok(rows) => Ok(
                StepView::LoadRows {
                    name: object.name,
                    rows,
                    rowid_column: match object.sql {
                        Some(sql) => keywords::rowid_column(sql),
                        None => None,
                    },
                },
            ),
        },
    }
}

/// A conversion in progress: the file, its objects, the stage, and the object
/// that the stage looks at next.
#[verifier::ext_equal]
pub ghost struct ConversionView {
    pub file: FileView,
    pub objects: Seq<ObjectView>,
    pub stage: Stage,
    pub at: int,
}

/// How far a stage is from the last.
pub open spec fn stages_left(stage: Stage) -> nat {
    match stage {
        Stage::Tables => 4,
        Stage::Indexes => 3,
        Stage::Rows => 2,
        Stage::ForeignKeys => 1,
        Stage::Finished => 0,
    }
}

/// The next step of a conversion, and the conversion behind it. Tables are
/// created first, then indexes; then the rows of each table are loaded, and
/// last the foreign keys are checked.
pub open spec fn next_step(c: ConversionView) -> (Result<StepView, ErrorView>, ConversionView)
    decreases stages_left(c.stage),
{
    match c.stage {
        Stage::Finished => (Ok(StepView::Finished), c),
        Stage::ForeignKeys => (
            Ok(StepView::CheckForeignKeys),
            ConversionView { stage: Stage::Finished, at: 0, ..c },
        ),
        _ => {
            let k = next_object(c.stage, c.objects, c.at);
            if k < c.objects.len() {
                (
                    object_step(c.file, c.stage, c.objects[k]),
                    ConversionView { at: k + 1, ..c },
                )
            } else {
                next_step(ConversionView { stage: stage_after(c.stage), at: 0, ..c })
            }
        },
    }
}

/// The stage that a step belongs to.
pub open spec fn stage_of(step: StepView) -> Stage {
    match step {
        StepView::CreateTable { .. } => Stage::Tables,
        StepView::CreateIndex { .. } => Stage::Indexes,
        StepView::LoadRows { .. } => Stage::Rows,
        StepView::CheckForeignKeys => Stage::ForeignKeys,
        StepView::Finished => Stage::Finished,
    }
}

/// A conversion goes forward: each step belongs to the stage that the
/// conversion has reached or a later one, and no later step to an earlier one.
/// So every table is created before the first index, every index before the
/// first row is loaded, and the foreign keys are checked last.
pub proof fn lemma_conversion_goes_forward(c: ConversionView)
    ensures
        stages_left(next_step(c).1.stage) <= stages_left(c.stage),
        next_step(c).0 matches Ok(step) ==> stages_left(next_step(c).1.stage) <= stages_left(
            stage_of(step),
        ) <= stages_left(c.stage),
    decreases stages_left(c.stage),
{
    if !(c.stage is Finished || c.stage is ForeignKeys) {
        let k = next_object(c.stage, c.objects, c.at);
        if k >= c.objects.len() {
            lemma_conversion_goes_forward(
                ConversionView { stage: stage_after(c.stage), at: 0, ..c },
            );
        }
    }
}

/// A conversion in progress.
pub struct Conversion {
    reader: SqliteReader,
    objects: Vec<SchemaObject>,
    stage: Stage,
    at: usize,
}

fn is_application_table(object: &SchemaObject) -> (r: bool)
    ensures
        r == is_table(object@),
{
    text::str_eq(object.kind.as_str(), "table") && !text::starts_with(
        object.name.as_str(),
        "sqlite_",
    )
}

fn is_application_index(object: &SchemaObject) -> (r: bool)
    ensures
        r == is_index(object@),
{
    text::str_eq(object.kind.as_str(), "index") && !text::starts_with(
        object.name.as_str(),
        "sqlite_",
    ) && object.sql.is_some()
}

/// The index statement of an object, where it has one.
fn statement_of(object: &SchemaObject) -> (r: String)
    ensures
        object@.sql is Some ==> r@ == object@.sql->Some_0,
{
    match &object.sql {
        Some(sql) => sql.clone(),
        None => String::new(),
    }
}

impl Conversion {
    pub closed spec fn view(self) -> ConversionView {
        ConversionView {
            file: self.reader@,
            objects: catalog::object_views(self.objects@),
            stage: self.stage,
            at: self.at as int,
        }
    }

    /// Start the conversion of an opened file. A schema with objects that a
    /// snapshot cannot hold is refused.
    pub fn convert_sqlite(reader: SqliteReader) -> (r: Result<Self, DactylError>)
        ensures
            match reader@.schema_objects() {
                Err(e) => r is Err && r->Err_0@ == e,
                Ok(objects) => match catalog::objects_fault(objects) {
                    Some(e) => r is Err && r->Err_0@ == e,
                    None => r is Ok && r->Ok_0@ == (ConversionView {
                        file: reader@,
                        objects,
                        stage: Stage::Tables,
                        at: 0,
                    }),
                },
            },
    {
        let objects: Vec<SchemaObject> = match reader.schema_objects() {
            Ok(objects) => objects,
            Err(e) => {
                return Err(e);
            },
        };
        match catalog::reject_unsupported_objects(objects.as_slice()) {
            Ok(()) => Ok(Conversion { reader, objects, stage: Stage::Tables, at: 0 }),
            Err(e) => Err(e),
        }
    }

    fn step_for(&self, k: usize) -> (r: Result<ConvertStep, DactylError>)
        requires
            k < self.objects@.len(),
            concerns(self.stage, self.objects@[k as int]@),
            self.stage is Tables || self.stage is Indexes || self.stage is Rows,
        ensures
            match object_step(self.reader@, self.stage, self.objects@[k as int]@) {
                Ok(step) => r is Ok && r->Ok_0@ == step,
                Err(e) => r is Err && r->Err_0@ == e,
            },
    {
        let object = &self.objects[k];
        match self.stage {
            Stage::Tables => match &object.sql {
                None => Err(
                    keywords::unsupported(
                        "table ".to_string().concat(object.name.as_str()).concat(
                            " has no CREATE statement",
                        ).as_str(),
                    ),
                ),
                Some(sql) => match keywords::reject_unsupported_table_sql(
                    object.name.as_str(),
                    sql.as_str(),
                ) {
                    Ok(()) => Ok(
                        ConvertStep::CreateTable { name: object.name.clone(), sql: sql.clone() },
                    ),
                    Err(e) => Err(e),
                },
            },
            Stage::Indexes => Ok(
                ConvertStep::CreateIndex { name: object.name.clone(), sql: statement_of(object) },
            ),
            _ => match self.reader.table_rows(object.root_page) {
                Ok(rows) => {
                    let rowid_column: Option<String> = match &object.sql {
                        Some(sql) => keywords::integer_primary_key_column(sql.as_str()),
                        None => None,
                    };
                    Ok(ConvertStep::LoadRows { name: object.name.clone(), rows, rowid_column })
                },
                Err(e) => Err(e),
            },
        }
    }

    /// The next step of the conversion.
    pub fn next(&mut self) -> (r: Result<ConvertStep, DactylError>)
        ensures
            match next_step(old(self)@).0 {
                Ok(step) => r is Ok && r->Ok_0@ == step,
                Err(e) => r is Err && r->Err_0@ == e,
            },
            final(self)@ == next_step(old(self)@).1,
    {
        loop
            invariant
                next_step(self@) == next_step(old(self)@),
            decreases stages_left(self@.stage), self@.objects.len() - self@.at,
        {
            match self.stage {
                Stage::Finished => {
                    return Ok(ConvertStep::Finished);
                },
                Stage::ForeignKeys => {
                    self.stage = Stage::Finished;
                    self.at = 0;
                    return Ok(ConvertStep::CheckForeignKeys);
                },
                _ => {},
            }
            if self.at >= self.objects.len() {
                self.stage = match self.stage {
                    Stage::Tables => Stage::Indexes,
                    Stage::Indexes => Stage::Rows,
                    _ => Stage::ForeignKeys,
                };
                self.at = 0;
            } else {
                let k: usize = self.at;
                assert(self@.objects[k as int] == self.objects@[k as int]@);
                let concerned: bool = if self.stage == Stage::Indexes {
                    is_application_index(&self.objects[k])
                } else {
                    is_application_table(&self.objects[k])
                };
                if concerned {
                    let step = self.step_for(k);
                    self.at = k + 1;
                    return step;
                }
                self.at = k + 1;
            }
        }
    }
}

/// The error for a statement that the snapshot engine refused.
pub open spec fn create_fault(kind: Seq<char>, name: Seq<char>, reason: Seq<char>) -> ErrorView {
    keywords::unsupported_schema("unsupported CREATE "@ + kind + " for "@ + name + ": "@ + reason)
}

/// The error for a `CREATE TABLE` statement that the engine refused.
pub fn table_refused(name: &str, reason: &str) -> (r: DactylError)
    ensures
        r@ == create_fault("TABLE"@, name@, reason@),
{
    keywords::unsupported(
        "unsupported CREATE ".to_string().concat("TABLE").concat(" for ").concat(name).concat(
            ": ",
        ).concat(reason).as_str(),
    )
}

/// The error for a `CREATE INDEX` statement that the engine refused.
pub fn index_refused(name: &str, reason: &str) -> (r: DactylError)
    ensures
        r@ == create_fault("INDEX"@, name@, reason@),
{
    keywords::unsupported(
        "unsupported CREATE ".to_string().concat("INDEX").concat(" for ").concat(name).concat(
            ": ",
        ).concat(reason).as_str(),
    )
}

// ---------------------------------------------------------------------------
// What an import is for
// ---------------------------------------------------------------------------

/// What a file is told by its first bytes: nothing at all, the text
/// `SQLite format 3` before a zero byte, an opening brace, or neither.
pub proof fn lemma_files_are_told_apart(header: Seq<u8>)
    ensures
        kind_of(header) is Empty <==> header.len() == 0,
        kind_of(header) is Sqlite <==> (header.len() >= 15 && (header.len() > 15 ==> header[15]
            == 0) && forall|i: int|
            0 <= i < 15 ==> #[trigger] header[i] as char == "SQLite format 3"@[i]),
        kind_of(header) is Dactyl <==> header.len() > 0 && header[0] as char == '{',
        !(kind_of(header) is Missing),
{
    reveal_strlit("SQLite format 3");
    let m = reader::magic();
    if kind_of(header) is Sqlite {
        assert(m[14] != 0);
        assert forall|i: int| 0 <= i < 15 implies #[trigger] header[i] as char
            == "SQLite format 3"@[i] by {
            assert(m[i] == (if i < header.len() {
                header[i]
            } else {
                0
            }));
        }
        assert(m[15] == (if 15 < header.len() {
            header[15]
        } else {
            0
        }));
        assert(m[0] == header[0]);
    }
    if header.len() >= 15 && (header.len() > 15 ==> header[15] == 0) && (forall|i: int|
        0 <= i < 15 ==> #[trigger] header[i] as char == "SQLite format 3"@[i]) {
        assert forall|k: int| 0 <= k < 16 implies #[trigger] m[k] == (if k < header.len() {
            header[k]
        } else {
            0
        }) by {
            if k < 15 {
                assert(header[k] as char == "SQLite format 3"@[k]);
            }
        }
    }
    if header.len() > 0 && header[0] as char == '{' {
        assert(m[0] != header[0]);
    }
}

/// Which imports may start, case by case. A SQLite file is converted, unless
/// that would overwrite another SQLite file or a file that cannot be written.
/// A snapshot imported onto itself is reported; onto anything else it is
/// refused. Whatever is no SQLite file is refused for what it is.
pub proof fn lemma_imports_start(paths: ImportPaths)
    ensures
        ({
            let r = import_start(paths);
            let source = paths.source_kind;
            let other = paths.destination_kind is Sqlite && !paths.same;
            &&& r == Ok::<ImportStart, ErrorView>(ImportStart::Convert) <==> (source is Sqlite
                && !other && !paths.destination_read_only)
            &&& r == Ok::<ImportStart, ErrorView>(ImportStart::Report) <==> (source is Dactyl
                && paths.same)
            &&& source is Missing ==> r is Err && r->Err_0.code() == Some("missing_input"@)
                && r->Err_0.kind() == Some(AdapterErrorKind::NotFound)
            &&& source is Empty || source is Unknown ==> r is Err && r->Err_0.code() == Some(
                "not_sqlite"@,
            ) && r->Err_0.kind() == Some(AdapterErrorKind::Capability)
            &&& source is Dactyl && !paths.same ==> r is Err && r->Err_0.code() == Some(
                "already_dactyl"@,
            ) && r->Err_0.kind() == Some(AdapterErrorKind::Capability)
            &&& source is Sqlite && other ==> r is Err && r->Err_0.code() == Some(
                "destination_is_sqlite"@,
            ) && r->Err_0.kind() == Some(AdapterErrorKind::Capability)
            &&& source is Sqlite && !other && paths.destination_read_only ==> r is Err
                && r->Err_0.code() == Some("read_only_destination"@) && r->Err_0.kind() == Some(
                AdapterErrorKind::ReadOnly,
            )
        }),
{
}

/// What becomes of a converted snapshot, case by case: a snapshot that is
/// already there is kept where it is the same and a conflict where it is not;
/// otherwise the source is replaced, or the snapshot is written beside it.
pub proof fn lemma_imports_finish(paths: ImportPaths, equivalent: bool)
    ensures
        ({
            let r = import_finish(paths, equivalent);
            let there = paths.destination_kind is Dactyl;
            &&& r == Ok::<ImportFinish, ErrorView>(ImportFinish::Report) <==> (there && equivalent)
            &&& r == Ok::<ImportFinish, ErrorView>(ImportFinish::PublishInPlace) <==> (!there
                && paths.same)
            &&& r == Ok::<ImportFinish, ErrorView>(ImportFinish::Persist) <==> (!there
                && !paths.same)
            &&& there && !equivalent ==> r is Err && r->Err_0.code() == Some(
                "divergent_destination"@,
            ) && r->Err_0.kind() == Some(AdapterErrorKind::Conflict)
        }),
{
}

/// A snapshot that cannot be loaded for no stated reason counts as corrupt;
/// any other error comes through as it is.
pub proof fn lemma_load_faults(e: ErrorView)
    ensures
        e is Adapter && e->Adapter_kind is Storage && e->Adapter_code is None ==> load_fault(
            e,
        ).code() == Some("corrupt_input"@) && load_fault(e).kind() == Some(
            AdapterErrorKind::Storage,
        ) && load_fault(e)->Adapter_message == e->Adapter_message,
        !(e is Adapter && e->Adapter_kind is Storage && e->Adapter_code is None) ==> load_fault(e)
            == e,
{
}

/// An import to another path converts, creates the directory and writes the
/// snapshot; where every step succeeds it reports a conversion without a
/// backup.
pub proof fn lemma_import_elsewhere(paths: ImportPaths)
    requires
        paths.source_kind is Sqlite && !paths.same && !paths.destination_read_only,
        !(paths.destination_kind is Sqlite) && !(paths.destination_kind is Dactyl),
    ensures
        ({
            let done = seq![
                ImportOutcomeView::Done,
                ImportOutcomeView::Done,
                ImportOutcomeView::Done,
            ];
            let end = imported(ImportView::started(paths), done);
            &&& import_steps(ImportView::started(paths), done) == seq![
                ImportStep::Convert,
                ImportStep::CreateParent,
                ImportStep::Persist,
            ]
            &&& end.step is Finished && !end.already_converted && !end.replaced && end.error is None
            &&& backup_of(end) is None
        }),
{
    let done = seq![ImportOutcomeView::Done, ImportOutcomeView::Done, ImportOutcomeView::Done];
    let two = seq![ImportOutcomeView::Done, ImportOutcomeView::Done];
    let one = seq![ImportOutcomeView::Done];
    assert(done.drop_first() =~= two);
    assert(two.drop_first() =~= one);
    assert(one.drop_first() =~= Seq::<ImportOutcomeView>::empty());
    let v0 = ImportView::started(paths);
    let v1 = v0.after(ImportOutcomeView::Done);
    let v2 = v1.after(ImportOutcomeView::Done);
    let v3 = v2.after(ImportOutcomeView::Done);
    assert(imported(v3, Seq::empty()) == v3);
    assert(imported(v2, one) == v3);
    assert(imported(v1, two) == v3);
    assert(import_steps(v3, Seq::empty()) =~= Seq::<ImportStep>::empty());
    assert(import_steps(v2, one) =~= seq![ImportStep::Persist]);
    assert(import_steps(v1, two) =~= seq![ImportStep::CreateParent, ImportStep::Persist]);
    assert(import_steps(v0, done) =~= seq![
        ImportStep::Convert,
        ImportStep::CreateParent,
        ImportStep::Persist,
    ]);
}

/// An import onto a snapshot converts and compares, and writes nothing: the
/// same snapshot is reported as already converted, another is a conflict.
pub proof fn lemma_import_onto_snapshot(paths: ImportPaths, same: bool)
    requires
        paths.source_kind is Sqlite && !paths.destination_read_only,
        paths.destination_kind is Dactyl,
    ensures
        ({
            let went = seq![ImportOutcomeView::Done, ImportOutcomeView::Compared(same)];
            let end = imported(ImportView::started(paths), went);
            &&& import_steps(ImportView::started(paths), went) == seq![
                ImportStep::Convert,
                ImportStep::Compare,
            ]
            &&& same ==> end.step is Finished && end.already_converted && backup_of(end) is None
            &&& !same ==> end.step is Failed && end.error is Some && end.error->Some_0.code()
                == Some("divergent_destination"@)
        }),
{
    let went = seq![ImportOutcomeView::Done, ImportOutcomeView::Compared(same)];
    let one = seq![ImportOutcomeView::Compared(same)];
    assert(went.drop_first() =~= one);
    assert(one.drop_first() =~= Seq::<ImportOutcomeView>::empty());
    let v0 = ImportView::started(paths);
    let v1 = v0.after(ImportOutcomeView::Done);
    let v2 = v1.after(ImportOutcomeView::Compared(same));
    assert(imported(v2, Seq::empty()) == v2);
    assert(imported(v1, one) == v2);
    assert(import_steps(v2, Seq::empty()) =~= Seq::<ImportStep>::empty());
    assert(import_steps(v1, one) =~= seq![ImportStep::Compare]);
    assert(import_steps(v0, went) =~= seq![ImportStep::Convert, ImportStep::Compare]);
}

/// The first step that fails ends an import, and its error is the one that is
/// reported: of the file system under the code for a failed replacement, of a
/// snapshot that was to be loaded as a load fault, and any other as it is.
pub proof fn lemma_import_fails_with_its_step(v: ImportView, outcome: ImportOutcomeView)
    requires
        import_fits(v.step, outcome),
        outcome is Io || outcome is Refused,
    ensures
        v.after(outcome).step is Failed,
        v.after(outcome).error is Some,
        outcome is Io ==> v.after(outcome).error->Some_0.code() == Some("replacement_failed"@)
            && v.after(outcome).error->Some_0.kind() == Some(AdapterErrorKind::Storage),
        outcome is Refused && (v.step is Load || v.step is Compare) ==> v.after(
            outcome,
        ).error->Some_0 == load_fault(outcome->Refused_0),
        outcome is Refused && !(v.step is Load || v.step is Compare) ==> v.after(
            outcome,
        ).error->Some_0 == outcome->Refused_0,
{
}

/// The backup of a replaced source stands beside it, under its name with an
/// ending; where nothing was replaced there is none.
pub proof fn lemma_backups_are_named(v: ImportView)
    ensures
        v.replaced ==> backup_of(v) == Some(v.paths.destination@ + ".legacy-sqlite"@),
        !v.replaced ==> backup_of(v) is None,
{
}

/// Which objects of a schema an import takes: tables and indexes whose names
/// do not start with `sqlite_`, and of indexes those with a statement.
pub proof fn lemma_application_objects(object: ObjectView, rest: Seq<char>)
    ensures
        object.name == "sqlite_"@ + rest ==> !is_table(object) && !is_index(object),
        !(object.name.len() >= 7 && object.name.take(7) == "sqlite_"@) ==> {
            &&& is_table(object) <==> object.kind == "table"@
            &&& is_index(object) <==> object.kind == "index"@ && object.sql is Some
        },
{
    reveal_strlit("sqlite_");
    assert("sqlite_"@.len() == 7);
    assert(("sqlite_"@ + rest).take(7) =~= "sqlite_"@);
}

/// All the steps of a conversion from here on.
pub open spec fn steps_of(c: ConversionView) -> Seq<Result<StepView, ErrorView>>
    decreases stages_left(c.stage), c.objects.len() - c.at,
    when 0 <= c.at
    via steps_decrease
{
    if c.stage is Finished {
        Seq::empty()
    } else {
        seq![next_step(c).0] + steps_of(next_step(c).1)
    }
}

#[via_fn]
proof fn steps_decrease(c: ConversionView) {
    if !(c.stage is Finished) {
        lemma_next_is_later(c);
    }
}

proof fn lemma_next_object(stage: Stage, objects: Seq<ObjectView>, i: int)
    requires
        0 <= i,
    ensures
        ({
            let k = next_object(stage, objects, i);
            &&& k <= objects.len()
            &&& k < objects.len() ==> i <= k && concerns(stage, objects[k])
            &&& forall|j: int| i <= j < k ==> !concerns(stage, #[trigger] objects[j])
        }),
    decreases objects.len() - i,
{
    if i < objects.len() && !concerns(stage, objects[i]) {
        lemma_next_object(stage, objects, i + 1);
    }
}

proof fn lemma_next_is_later(c: ConversionView)
    requires
        0 <= c.at,
        !(c.stage is Finished),
    ensures
        next_step(c).1.at >= 0,
        next_step(c).1.objects == c.objects,
        next_step(c).1.file == c.file,
        stages_left(next_step(c).1.stage) < stages_left(c.stage) || (next_step(c).1.stage
            == c.stage && c.at < next_step(c).1.at <= c.objects.len()),
    decreases stages_left(c.stage),
{
    if !(c.stage is ForeignKeys) {
        lemma_next_object(c.stage, c.objects, c.at);
        let k = next_object(c.stage, c.objects, c.at);
        if k >= c.objects.len() {
            lemma_next_is_later(ConversionView { stage: stage_after(c.stage), at: 0, ..c });
        }
    }
}

/// The statements that create the tables from `i` on; a table without one, or
/// with one that cannot be imported, fails.
pub open spec fn table_steps(objects: Seq<ObjectView>, i: int) -> Seq<Result<StepView, ErrorView>>
    decreases objects.len() - i,
{
    if i < 0 || i >= objects.len() {
        Seq::empty()
    } else {
        let o = objects[i];
        let rest = table_steps(objects, i + 1);
        if !is_table(o) {
            rest
        } else if o.sql is None {
            seq![
                Err(
                    keywords::unsupported_schema(
                        "table "@ + o.name + " has no CREATE statement"@,
                    ),
                ),
            ] + rest
        } else if keywords::table_fault(o.name, o.sql->Some_0) is Some {
            seq![Err(keywords::table_fault(o.name, o.sql->Some_0)->Some_0)] + rest
        } else {
            seq![Ok(StepView::CreateTable { name: o.name, sql: o.sql->Some_0 })] + rest
        }
    }
}

/// The statements that create the indexes from `i` on.
pub open spec fn index_steps(objects: Seq<ObjectView>, i: int) -> Seq<Result<StepView, ErrorView>>
    decreases objects.len() - i,
{
    if i < 0 || i >= objects.len() {
        Seq::empty()
    } else if is_index(objects[i]) {
        seq![Ok(StepView::CreateIndex { name: objects[i].name, sql: objects[i].sql->Some_0 })]
            + index_steps(objects, i + 1)
    } else {
        index_steps(objects, i + 1)
    }
}

/// The loading of the tables from `i` on, each with the rows that stand at its
/// root page.
pub open spec fn row_steps(file: FileView, objects: Seq<ObjectView>, i: int) -> Seq<
    Result<StepView, ErrorView>,
>
    decreases objects.len() - i,
{
    if i < 0 || i >= objects.len() {
        Seq::empty()
    } else {
        let o = objects[i];
        let rest = row_steps(file, objects, i + 1);
        if !is_table(o) {
            rest
        } else if file.table_rows(o.root_page as int) is Err {
            seq![Err(file.table_rows(o.root_page as int)->Err_0)] + rest
        } else {
            seq![
                Ok(
                    StepView::LoadRows {
                        name: o.name,
                        rows: file.table_rows(o.root_page as int)->Ok_0,
                        rowid_column: if o.sql is Some {
                            keywords::rowid_column(o.sql->Some_0)
                        } else {
                            None
                        },
                    },
                ),
            ] + rest
        }
    }
}

proof fn lemma_stage_steps(c: ConversionView)
    requires
        0 <= c.at <= c.objects.len(),
        c.stage is Tables || c.stage is Indexes || c.stage is Rows,
    ensures
        steps_of(c) == (match c.stage {
            Stage::Tables => table_steps(c.objects, c.at),
            Stage::Indexes => index_steps(c.objects, c.at),
            _ => row_steps(c.file, c.objects, c.at),
        }) + steps_of(ConversionView { stage: stage_after(c.stage), at: 0, ..c }),
    decreases c.objects.len() - c.at,
{
    lemma_next_is_later(c);
    let own = match c.stage {
        Stage::Tables => table_steps(c.objects, c.at),
        Stage::Indexes => index_steps(c.objects, c.at),
        _ => row_steps(c.file, c.objects, c.at),
    };
    let following = ConversionView { stage: stage_after(c.stage), at: 0, ..c };
    if c.at == c.objects.len() {
        assert(own =~= Seq::empty());
        assert(next_object(c.stage, c.objects, c.at) == c.objects.len());
        assert(next_step(c) == next_step(following));
        assert(steps_of(c) =~= own + steps_of(following));
    } else {
        let one = ConversionView { at: c.at + 1, ..c };
        lemma_stage_steps(one);
        let rest = match c.stage {
            Stage::Tables => table_steps(c.objects, c.at + 1),
            Stage::Indexes => index_steps(c.objects, c.at + 1),
            _ => row_steps(c.file, c.objects, c.at + 1),
        };
        if concerns(c.stage, c.objects[c.at]) {
            let first = object_step(c.file, c.stage, c.objects[c.at]);
            assert(next_step(c) == (first, one));
            assert(own =~= seq![first] + rest);
            assert(steps_of(c) =~= own + steps_of(following));
        } else {
            assert(next_object(c.stage, c.objects, c.at) == next_object(
                c.stage,
                c.objects,
                c.at + 1,
            ));
            assert(next_step(c) == next_step(one));
            assert(own =~= rest);
            assert(steps_of(c) == steps_of(one));
        }
    }
}

/// A conversion creates every table, then every index, then loads every table
/// with its own rows, each once and in the order of the schema, and checks the
/// foreign keys last.
pub proof fn lemma_conversion_takes_everything_once(file: FileView, objects: Seq<ObjectView>)
    ensures
        steps_of(ConversionView { file, objects, stage: Stage::Tables, at: 0 }) == table_steps(
            objects,
            0,
        ) + index_steps(objects, 0) + row_steps(file, objects, 0) + seq![
            Ok::<StepView, ErrorView>(StepView::CheckForeignKeys),
        ],
{
    let tables = ConversionView { file, objects, stage: Stage::Tables, at: 0 };
    let indexes = ConversionView { file, objects, stage: Stage::Indexes, at: 0 };
    let rows = ConversionView { file, objects, stage: Stage::Rows, at: 0 };
    let keys = ConversionView { file, objects, stage: Stage::ForeignKeys, at: 0 };
    let end = ConversionView { file, objects, stage: Stage::Finished, at: 0 };
    lemma_stage_steps(tables);
    lemma_stage_steps(indexes);
    lemma_stage_steps(rows);
    lemma_next_is_later(keys);
    assert(steps_of(end) =~= Seq::empty());
    assert(steps_of(keys) =~= seq![Ok::<StepView, ErrorView>(StepView::CheckForeignKeys)]);
    assert(steps_of(tables) =~= table_steps(objects, 0) + index_steps(objects, 0) + row_steps(
        file,
        objects,
        0,
    ) + seq![Ok::<StepView, ErrorView>(StepView::CheckForeignKeys)]);
}

} // verus!
