//! An online backup of a database.
//!
//! The pages are copied to a temporary file beside the destination, the copy
//! is verified and made durable, and only then takes the destination's name.
//! The steps are decided here; the caller performs each and reports how it
//! went.

use vstd::prelude::*;

use crate::contract::BackupResult;
use crate::error::{AdapterErrorKind, DactylError, ErrorView};
use crate::sqlite::maintenance;
use crate::sqlite::recovery;
use crate::sqlite::statement;
use crate::sqlite::statement::{SqliteFailure, SQLITE_BUSY, SQLITE_DONE, SQLITE_LOCKED, SQLITE_OK};

verus! {

// ---------------------------------------------------------------------------
// Copying pages
// ---------------------------------------------------------------------------

/// How many pages are copied at a time.
pub const BACKUP_PAGES: i32 = 64;

/// What follows a number of pages.
pub enum PageStep {
    /// Copy more.
    Again,
    /// Wait a moment, then copy more.
    Wait,
    /// Stop: every page is copied.
    Complete,
    /// Stop: copying failed.
    Stopped(DactylError),
}

/// The error where locks kept pages from being copied for too long.
pub open spec fn backup_timeout() -> ErrorView {
    crate::error::coded(
        AdapterErrorKind::Timeout,
        "backup_timeout"@,
        "SQLite online backup exceeded the configured lock timeout"@,
    )
}

/// What a [`PageStep`] says.
pub ghost enum PageView {
    Again,
    Wait,
    Complete,
    Stopped(ErrorView),
}

impl PageStep {
    pub open spec fn view(self) -> PageView {
        match self {
            PageStep::Again => PageView::Again,
            PageStep::Wait => PageView::Wait,
            PageStep::Complete => PageView::Complete,
            PageStep::Stopped(e) => PageView::Stopped(e@),
        }
    }
}

/// What follows a number of pages, from the code that SQLite gave for them.
pub open spec fn page_step(code: i32, before_deadline: bool, failure: SqliteFailure) -> PageView {
    if code == SQLITE_DONE {
        PageView::Complete
    } else if code == SQLITE_OK {
        PageView::Again
    } else if code == SQLITE_BUSY || code == SQLITE_LOCKED {
        if before_deadline {
            PageView::Wait
        } else {
            PageView::Stopped(backup_timeout())
        }
    } else {
        PageView::Stopped(statement::failure_error("step SQLite online backup"@, failure))
    }
}

/// What follows a number of pages, from the code that SQLite gave for them.
/// `failure` is what the destination reports.
pub fn after_pages(code: i32, before_deadline: bool, failure: &SqliteFailure) -> (r: PageStep)
    ensures
        r@ == page_step(code, before_deadline, *failure),
{
    if code == SQLITE_DONE {
        PageStep::Complete
    } else if code == SQLITE_OK {
        PageStep::Again
    } else if code == SQLITE_BUSY || code == SQLITE_LOCKED {
        if before_deadline {
            PageStep::Wait
        } else {
            PageStep::Stopped(
                DactylError::adapter_with_code(
                    AdapterErrorKind::Timeout,
                    "backup_timeout",
                    "SQLite online backup exceeded the configured lock timeout",
                ),
            )
        }
    } else {
        PageStep::Stopped(statement::map_sqlite_failure("step SQLite online backup", failure))
    }
}

/// What copying came to once SQLite finished it: a failure to finish counts
/// where nothing failed before.
pub open spec fn finished_copy(
    stopped: Option<ErrorView>,
    finish_code: i32,
    failure: SqliteFailure,
) -> Option<ErrorView> {
    if stopped is Some {
        stopped
    } else if finish_code == SQLITE_OK {
        None
    } else {
        Some(statement::failure_error("finish SQLite online backup"@, failure))
    }
}

/// What an optional error says.
pub open spec fn error_option(e: Option<DactylError>) -> Option<ErrorView> {
    match e {
        Some(e) => Some(e@),
        None => None,
    }
}

/// What copying came to once SQLite finished it: a failure to finish counts
/// where nothing failed before.
pub fn after_finish(
    stopped: Option<DactylError>,
    finish_code: i32,
    failure: &SqliteFailure,
) -> (r: Option<DactylError>)
    ensures
        stopped is Some ==> r == stopped,
        error_option(r) == finished_copy(error_option(stopped), finish_code, *failure),
{
    if stopped.is_none() && finish_code != SQLITE_OK {
        return Some(statement::map_sqlite_failure("finish SQLite online backup", failure));
    }
    stopped
}

// ---------------------------------------------------------------------------
// The steps
// ---------------------------------------------------------------------------

/// Refuse a backup over the database itself.
pub fn admit_backup(same_path: bool) -> (r: Result<(), DactylError>)
    ensures
        match backup_refusal(same_path) {
            Some(e) => r is Err && r->Err_0@ == e,
            None => r is Ok,
        },
{
    if same_path {
        return Err(
            DactylError::adapter_with_code(
                AdapterErrorKind::Conflict,
                "backup_destination_is_source",
                "SQLite backup destination must differ from the active database",
            ),
        );
    }
    Ok(())
}

/// What is to be done next.
#[derive(Debug, Clone, Copy, PartialEq, Eq, Structural)]
pub enum BackupStep {
    /// Create the directories that the destination lies in.
    CreateDirectory,
    /// Look for a file at the destination.
    CheckMain,
    /// Look for a write-ahead log at the destination.
    CheckWal,
    /// Look for a shared-memory file at the destination.
    CheckShm,
    /// Create the temporary file.
    CreateTemporary,
    /// Copy the pages to the temporary file.
    Copy,
    /// Verify the copy.
    Verify,
    /// Close the copy.
    Close,
    /// Make the copy durable.
    SyncTemporary,
    /// Move the copy to the destination.
    Publish,
    /// Make the directory durable.
    SyncDirectory,
    /// Move the copy back.
    Unpublish,
    /// Read the size of the backup.
    Measure,
    /// Read the journal mode of the source.
    ReadJournal,
    /// Remove the temporary file and its sidecars. How it goes does not
    /// matter.
    RemoveTemporary,
    /// Nothing: the backup is published.
    Finished,
    /// Nothing: the backup failed.
    Failed,
}

/// How a step went.
pub enum BackupOutcome {
    /// It succeeded.
    Done,
    /// Whether there is a file.
    Exists(bool),
    /// The journal mode that was read.
    Mode(String),
    /// The size that was read.
    Size(u64),
    /// The file system refused, for this reason.
    Io(String),
    /// SQLite refused.
    Sqlite(SqliteFailure),
    /// It failed with this error.
    Refused(DactylError),
}

/// How a step went.
pub ghost enum BackupEvent {
    Done,
    Exists(bool),
    Mode(Seq<char>),
    Size(u64),
    Failed(ErrorView),
}

/// What a step is called where SQLite or the file system refuses it.
pub open spec fn backup_label(step: BackupStep) -> Seq<char> {
    match step {
        BackupStep::CreateDirectory => "create SQLite maintenance directory"@,
        BackupStep::Close => "close SQLite database"@,
        BackupStep::Publish => "publish SQLite backup"@,
        BackupStep::SyncDirectory => "sync SQLite database directory"@,
        BackupStep::Unpublish => "rollback SQLite backup publication"@,
        BackupStep::Measure => "stat SQLite backup"@,
        _ => "SQLite backup"@,
    }
}

fn label_of(step: BackupStep) -> (r: &'static str)
    ensures
        r@ == backup_label(step),
{
    match step {
        BackupStep::CreateDirectory => "create SQLite maintenance directory",
        BackupStep::Close => "close SQLite database",
        BackupStep::Publish => "publish SQLite backup",
        BackupStep::SyncDirectory => "sync SQLite database directory",
        BackupStep::Unpublish => "rollback SQLite backup publication",
        BackupStep::Measure => "stat SQLite backup",
        _ => "SQLite backup",
    }
}

/// How a step went, with what a refusal is reported as.
pub open spec fn event_of(outcome: BackupOutcome, step: BackupStep) -> BackupEvent {
    match outcome {
        BackupOutcome::Done => BackupEvent::Done,
        BackupOutcome::Exists(found) => BackupEvent::Exists(found),
        BackupOutcome::Mode(mode) => BackupEvent::Mode(mode@),
        BackupOutcome::Size(size) => BackupEvent::Size(size),
        BackupOutcome::Io(reason) => BackupEvent::Failed(
            maintenance::filesystem_failure(backup_label(step), reason@),
        ),
        BackupOutcome::Sqlite(failure) => BackupEvent::Failed(
            statement::failure_error(backup_label(step), failure),
        ),
        BackupOutcome::Refused(e) => BackupEvent::Failed(e@),
    }
}

/// Whether a step can go this way.
pub open spec fn backup_fits(step: BackupStep, event: BackupEvent) -> bool {
    match event {
        BackupEvent::Failed(_) => true,
        BackupEvent::Exists(_) => step is CheckMain || step is CheckWal || step is CheckShm,
        BackupEvent::Mode(_) => step is Verify || step is ReadJournal,
        BackupEvent::Size(_) => step is Measure,
        BackupEvent::Done => !(step is CheckMain || step is CheckWal || step is CheckShm || step
            is Verify || step is ReadJournal || step is Measure),
    }
}

/// Where a backup stands.
#[verifier::ext_equal]
pub ghost struct BackupView {
    pub destination: Seq<char>,
    pub step: BackupStep,
    pub copy_mode: Seq<char>,
    pub source_mode: Seq<char>,
    pub bytes: u64,
    /// The error that is being undone, or that is reported.
    pub error: Option<ErrorView>,
}

/// A backup one step further.
pub open spec fn backup_at(v: BackupView, step: BackupStep) -> BackupView {
    BackupView { step, ..v }
}

/// A backup that fails with an error.
pub open spec fn backup_failing(v: BackupView, step: BackupStep, e: ErrorView) -> BackupView {
    BackupView { step, error: Some(e), ..v }
}

/// A backup once it is known whether a file is in the way.
pub open spec fn after_check(
    v: BackupView,
    found: bool,
    suffix: Seq<char>,
    description: Seq<char>,
    next: BackupStep,
) -> BackupView {
    if found {
        backup_failing(
            v,
            BackupStep::Failed,
            maintenance::path_exists(v.destination + suffix, description),
        )
    } else {
        backup_at(v, next)
    }
}

/// A backup once its step succeeded.
pub open spec fn backup_succeeded(v: BackupView, event: BackupEvent) -> BackupView {
    match v.step {
        BackupStep::CreateDirectory => backup_at(v, BackupStep::CheckMain),
        BackupStep::CheckMain => after_check(
            v,
            event->Exists_0,
            ""@,
            "backup destination"@,
            BackupStep::CheckWal,
        ),
        BackupStep::CheckWal => after_check(
            v,
            event->Exists_0,
            "-wal"@,
            "backup WAL sidecar"@,
            BackupStep::CheckShm,
        ),
        BackupStep::CheckShm => after_check(
            v,
            event->Exists_0,
            "-shm"@,
            "backup SHM sidecar"@,
            BackupStep::CreateTemporary,
        ),
        BackupStep::CreateTemporary => backup_at(v, BackupStep::Copy),
        BackupStep::Copy => backup_at(v, BackupStep::Verify),
        BackupStep::Verify => BackupView {
            step: BackupStep::Close,
            copy_mode: event->Mode_0,
            ..v
        },
        BackupStep::Close => backup_at(v, BackupStep::SyncTemporary),
        BackupStep::SyncTemporary => backup_at(v, BackupStep::Publish),
        BackupStep::Publish => backup_at(v, BackupStep::SyncDirectory),
        BackupStep::SyncDirectory => backup_at(v, BackupStep::Measure),
        BackupStep::Unpublish => backup_at(v, BackupStep::RemoveTemporary),
        BackupStep::Measure => BackupView {
            step: BackupStep::ReadJournal,
            bytes: event->Size_0,
            ..v
        },
        BackupStep::ReadJournal => BackupView {
            step: BackupStep::Finished,
            source_mode: event->Mode_0,
            ..v
        },
        BackupStep::RemoveTemporary => backup_at(v, BackupStep::Failed),
        _ => v,
    }
}

/// A backup once its step failed with an error. Nothing is left to clean up
/// before the temporary file exists.
pub open spec fn backup_failed(v: BackupView, e: ErrorView) -> BackupView {
    match v.step {
        BackupStep::CreateDirectory
        | BackupStep::CheckMain
        | BackupStep::CheckWal
        | BackupStep::CheckShm
        | BackupStep::CreateTemporary => backup_failing(v, BackupStep::Failed, e),
        BackupStep::SyncDirectory => backup_failing(v, BackupStep::Unpublish, e),
        BackupStep::Unpublish => backup_failing(
            v,
            BackupStep::RemoveTemporary,
            recovery::rollback_failed(v.error->Some_0, e),
        ),
        BackupStep::RemoveTemporary => backup_at(v, BackupStep::Failed),
        BackupStep::Finished | BackupStep::Failed => v,
        _ => backup_failing(v, BackupStep::RemoveTemporary, e),
    }
}

/// A backup once its step went one way.
pub open spec fn backup_after(v: BackupView, event: BackupEvent) -> BackupView {
    match event {
        BackupEvent::Failed(e) => backup_failed(v, e),
        _ => backup_succeeded(v, event),
    }
}

/// A backup about to start.
pub open spec fn backup_started(destination: Seq<char>) -> BackupView {
    BackupView {
        destination,
        step: BackupStep::CreateDirectory,
        copy_mode: Seq::empty(),
        source_mode: Seq::empty(),
        bytes: 0,
        error: None,
    }
}

/// Where a backup may stand: an error is known exactly where one is being
/// undone or reported.
pub open spec fn backup_wf(v: BackupView) -> bool {
    v.error is Some <==> (v.step is Unpublish || v.step is RemoveTemporary || v.step is Failed)
}

/// A backup in progress.
pub struct Backup {
    destination: String,
    step: BackupStep,
    copy_mode: String,
    source_mode: String,
    bytes: u64,
    error: Option<DactylError>,
}

fn refusal_of(outcome: BackupOutcome, step: BackupStep) -> (r: Option<DactylError>)
    ensures
        match event_of(outcome, step) {
            BackupEvent::Failed(e) => r is Some && r->Some_0@ == e,
            _ => r is None,
        },
{
    match outcome {
        BackupOutcome::Io(reason) => Some(
            maintenance::storage_io(label_of(step), reason.as_str()),
        ),
        BackupOutcome::Sqlite(failure) => Some(
            statement::map_sqlite_failure(label_of(step), &failure),
        ),
        BackupOutcome::Refused(e) => Some(e),
        _ => None,
    }
}

impl Backup {
    pub closed spec fn view(self) -> BackupView {
        BackupView {
            destination: self.destination@,
            step: self.step,
            copy_mode: self.copy_mode@,
            source_mode: self.source_mode@,
            bytes: self.bytes,
            error: match self.error {
                Some(e) => Some(e@),
                None => None,
            },
        }
    }

    #[verifier::type_invariant]
    closed spec fn well_formed(self) -> bool {
        backup_wf(self@)
    }

    /// A backup about to start.
    pub fn new(destination: String) -> (r: Self)
        ensures
            r@ == backup_started(destination@),
    {
        let copy_mode: String = String::new();
        let source_mode: String = String::new();
        assert(copy_mode@ =~= Seq::<char>::empty());
        assert(source_mode@ =~= Seq::<char>::empty());
        Backup {
            destination,
            step: BackupStep::CreateDirectory,
            copy_mode,
            source_mode,
            bytes: 0,
            error: None,
        }
    }

    /// What is to be done next.
    pub fn step(&self) -> (r: BackupStep)
        ensures
            r == self@.step,
            backup_wf(self@),
    {
        proof {
            use_type_invariant(self);
        }
        self.step
    }

    /// Take note of how the step went.
    pub fn advance(self, outcome: BackupOutcome) -> (r: Self)
        requires
            backup_fits(self@.step, event_of(outcome, self@.step)),
        ensures
            r@ == backup_after(self@, event_of(outcome, self@.step)),
    {
        proof {
            use_type_invariant(&self);
        }
        match outcome {
            BackupOutcome::Done => {
                let step: BackupStep = match self.step {
                    BackupStep::CreateDirectory => BackupStep::CheckMain,
                    BackupStep::CreateTemporary => BackupStep::Copy,
                    BackupStep::Copy => BackupStep::Verify,
                    BackupStep::Close => BackupStep::SyncTemporary,
                    BackupStep::SyncTemporary => BackupStep::Publish,
                    BackupStep::Publish => BackupStep::SyncDirectory,
                    BackupStep::SyncDirectory => BackupStep::Measure,
                    BackupStep::Unpublish => BackupStep::RemoveTemporary,
                    BackupStep::RemoveTemporary => BackupStep::Failed,
                    other => other,
                };
                Backup {
                    destination: self.destination,
                    step,
                    copy_mode: self.copy_mode,
                    source_mode: self.source_mode,
                    bytes: self.bytes,
                    error: self.error,
                }
            },
            BackupOutcome::Exists(found) => self.looked(found),
            BackupOutcome::Mode(mode) => if self.step == BackupStep::Verify {
                Backup {
                    destination: self.destination,
                    step: BackupStep::Close,
                    copy_mode: mode,
                    source_mode: self.source_mode,
                    bytes: self.bytes,
                    error: self.error,
                }
            } else {
                Backup {
                    destination: self.destination,
                    step: BackupStep::Finished,
                    copy_mode: self.copy_mode,
                    source_mode: mode,
                    bytes: self.bytes,
                    error: self.error,
                }
            },
            BackupOutcome::Size(size) => Backup {
                destination: self.destination,
                step: BackupStep::ReadJournal,
                copy_mode: self.copy_mode,
                source_mode: self.source_mode,
                bytes: size,
                error: self.error,
            },
            refused => match refusal_of(refused, self.step) {
                Some(e) => self.refused(e),
                None => self,
            },
        }
    }

    fn looked(self, found: bool) -> (r: Self)
        requires
            self@.step is CheckMain || self@.step is CheckWal || self@.step is CheckShm,
        ensures
            r@ == backup_succeeded(self@, BackupEvent::Exists(found)),
    {
        proof {
            use_type_invariant(&self);
        }
        let (suffix, description, next) = match self.step {
            BackupStep::CheckMain => ("", "backup destination", BackupStep::CheckWal),
            BackupStep::CheckWal => ("-wal", "backup WAL sidecar", BackupStep::CheckShm),
            _ => ("-shm", "backup SHM sidecar", BackupStep::CreateTemporary),
        };
        let path: String = self.destination.clone().concat(suffix);
        match maintenance::ensure_absent(path.as_str(), description, found) {
            Ok(()) => Backup {
                destination: self.destination,
                step: next,
                copy_mode: self.copy_mode,
                source_mode: self.source_mode,
                bytes: self.bytes,
                error: self.error,
            },
            Err(e) => Backup {
                destination: self.destination,
                step: BackupStep::Failed,
                copy_mode: self.copy_mode,
                source_mode: self.source_mode,
                bytes: self.bytes,
                error: Some(e),
            },
        }
    }

    fn refused(self, e: DactylError) -> (r: Self)
        ensures
            r@ == backup_failed(self@, e@),
    {
        proof {
            use_type_invariant(&self);
        }
        let before: BackupStep = self.step;
        let step: BackupStep = match before {
            BackupStep::CreateDirectory
            | BackupStep::CheckMain
            | BackupStep::CheckWal
            | BackupStep::CheckShm
            | BackupStep::CreateTemporary
            | BackupStep::RemoveTemporary
            | BackupStep::Failed => BackupStep::Failed,
            BackupStep::SyncDirectory => BackupStep::Unpublish,
            BackupStep::Finished => BackupStep::Finished,
            _ => BackupStep::RemoveTemporary,
        };
        let error: Option<DactylError> = match before {
            BackupStep::Unpublish => match self.error {
                Some(original) => Some(recovery::recovery_rollback_error(&original, &e)),
                None => None,
            },
            BackupStep::RemoveTemporary | BackupStep::Finished | BackupStep::Failed => self.error,
            _ => Some(e),
        };
        Backup {
            destination: self.destination,
            step,
            copy_mode: self.copy_mode,
            source_mode: self.source_mode,
            bytes: self.bytes,
            error,
        }
    }

    /// The outcome of a backup that is over.
    pub fn into_outcome(self) -> (r: Result<BackupResult, DactylError>)
        requires
            self@.step is Finished || self@.step is Failed,
        ensures
            match backed_up(self@) {
                Ok(result) => r is Ok && result_view(r->Ok_0) == result,
                Err(e) => r is Err && r->Err_0@ == e && self@.error is Some,
            },
    {
        proof {
            use_type_invariant(&self);
        }
        if let Some(e) = self.error {
            return Err(e);
        }
        Ok(
            BackupResult {
                destination: self.destination,
                source_journal_mode: self.source_mode,
                destination_journal_mode: self.copy_mode,
                bytes: self.bytes,
            },
        )
    }
}

// ---------------------------------------------------------------------------
// What the files hold
// ---------------------------------------------------------------------------

/// What a file holds.
pub ghost enum BackupContent {
    Nothing,
    /// What someone else put there.
    Foreign,
    /// A copy that is not verified or not durable yet.
    Partial,
    /// A verified, durable copy.
    Complete,
}

/// A backup with the files it works on.
pub ghost struct BackupRun {
    pub view: BackupView,
    pub destination: BackupContent,
    pub temporary: BackupContent,
    /// Whether measuring the published copy, or reading the journal mode of
    /// the source, failed.
    pub unmeasured: bool,
    /// Whether taking the published copy back failed.
    pub stuck: bool,
    /// Whether removing the temporary file failed.
    pub littered: bool,
}

/// A backup about to start.
pub open spec fn backup_run_at_start(path: Seq<char>, destination: BackupContent) -> BackupRun {
    BackupRun {
        view: backup_started(path),
        destination,
        temporary: BackupContent::Nothing,
        unmeasured: false,
        stuck: false,
        littered: false,
    }
}

/// A backup and its files once a step went one way.
pub open spec fn backup_run_step(r: BackupRun, event: BackupEvent) -> BackupRun {
    let view = backup_after(r.view, event);
    if event is Failed {
        BackupRun {
            view,
            unmeasured: r.unmeasured || r.view.step is Measure || r.view.step is ReadJournal,
            stuck: r.stuck || r.view.step is Unpublish,
            littered: r.littered || r.view.step is RemoveTemporary,
            ..r
        }
    } else {
        match r.view.step {
            BackupStep::CreateTemporary => BackupRun {
                view,
                temporary: BackupContent::Partial,
                ..r
            },
            BackupStep::SyncTemporary => BackupRun {
                view,
                temporary: BackupContent::Complete,
                ..r
            },
            BackupStep::Publish => BackupRun {
                view,
                destination: r.temporary,
                temporary: BackupContent::Nothing,
                ..r
            },
            BackupStep::Unpublish => BackupRun {
                view,
                destination: BackupContent::Nothing,
                temporary: r.destination,
                ..r
            },
            BackupStep::RemoveTemporary => BackupRun {
                view,
                temporary: BackupContent::Nothing,
                ..r
            },
            _ => BackupRun { view, ..r },
        }
    }
}

/// Whether a step can go this way on these files: whether the destination
/// exists is told as it is.
pub open spec fn backup_truthful(r: BackupRun, event: BackupEvent) -> bool {
    &&& backup_fits(r.view.step, event)
    &&& r.view.step is CheckMain && event is Exists ==> event->Exists_0 == !(
    r.destination is Nothing)
}

/// A backup and its files after steps that went these ways.
pub open spec fn backup_run_of(r: BackupRun, events: Seq<BackupEvent>) -> BackupRun
    decreases events.len(),
{
    if events.len() == 0 {
        r
    } else {
        backup_run_of(backup_run_step(r, events[0]), events.drop_first())
    }
}

/// Whether each of a number of steps can go the way it is said to.
pub open spec fn all_backup_truthful(r: BackupRun, events: Seq<BackupEvent>) -> bool
    decreases events.len(),
{
    events.len() > 0 ==> backup_truthful(r, events[0]) && all_backup_truthful(
        backup_run_step(r, events[0]),
        events.drop_first(),
    )
}

/// Whether an error says that a step could not be taken back.
pub open spec fn rollback_reported(error: Option<ErrorView>) -> bool {
    error is Some && error->Some_0 is Adapter && error->Some_0->Adapter_code == Some(
        "recovery_rollback_failed"@,
    )
}

/// What the destination holds where a backup fails: what it held before,
/// unless the copy was published and stays.
pub open spec fn left_at_destination(r: BackupRun, before: BackupContent) -> bool {
    if r.unmeasured || r.stuck {
        r.destination is Complete && before is Nothing
    } else {
        r.destination == before
    }
}

/// What holds of a backup and its files before each step.
pub open spec fn backup_sound(r: BackupRun, before: BackupContent) -> bool {
    &&& backup_wf(r.view)
    &&& r.stuck ==> rollback_reported(r.view.error)
    &&& !(r.view.step is RemoveTemporary || r.view.step is Failed) ==> !r.unmeasured && !r.stuck
    &&& !(r.view.step is Failed) ==> !r.littered
    &&& match r.view.step {
        BackupStep::CreateDirectory | BackupStep::CheckMain => r.destination == before
            && r.temporary is Nothing,
        BackupStep::CheckWal
        | BackupStep::CheckShm
        | BackupStep::CreateTemporary => r.destination == before && before is Nothing
            && r.temporary is Nothing,
        BackupStep::Copy
        | BackupStep::Verify
        | BackupStep::Close
        | BackupStep::SyncTemporary => r.destination == before && before is Nothing,
        BackupStep::Publish => r.destination == before && before is Nothing && r.temporary
            is Complete,
        BackupStep::SyncDirectory
        | BackupStep::Unpublish
        | BackupStep::Measure
        | BackupStep::ReadJournal
        | BackupStep::Finished => r.destination is Complete && before is Nothing && r.temporary
            is Nothing,
        BackupStep::RemoveTemporary => before is Nothing && left_at_destination(r, before),
        BackupStep::Failed => left_at_destination(r, before) && (r.temporary is Nothing
            || r.littered),
    }
}

proof fn lemma_backup_run_is_sound(r: BackupRun, events: Seq<BackupEvent>, before: BackupContent)
    requires
        backup_sound(r, before),
        all_backup_truthful(r, events),
    ensures
        backup_sound(backup_run_of(r, events), before),
    decreases events.len(),
{
    if events.len() > 0 {
        assert(backup_sound(backup_run_step(r, events[0]), before));
        lemma_backup_run_is_sound(backup_run_step(r, events[0]), events.drop_first(), before);
    }
}

/// A backup publishes nothing but a verified, durable copy, and overwrites
/// nothing. At any time the destination holds what it held before, or, where
/// it held nothing, the complete copy. A backup that succeeds has put the
/// complete copy where there was nothing. One that fails leaves the
/// destination as it was, unless the copy was published and only its report
/// failed, or taking it back failed and the error says so. No temporary file
/// is left, unless removing it failed.
pub proof fn lemma_backup_publishes_only_verified(
    path: Seq<char>,
    before: BackupContent,
    events: Seq<BackupEvent>,
)
    requires
        all_backup_truthful(backup_run_at_start(path, before), events),
    ensures
        ({
            let end = backup_run_of(backup_run_at_start(path, before), events);
            &&& end.destination == before || (before is Nothing && end.destination is Complete)
            &&& end.view.step is Finished ==> before is Nothing && end.destination is Complete
                && end.temporary is Nothing
            &&& end.view.step is Failed ==> {
                &&& end.view.error is Some
                &&& end.unmeasured || end.stuck ==> before is Nothing && end.destination is Complete
                &&& !end.unmeasured && !end.stuck ==> end.destination == before
                &&& end.stuck ==> rollback_reported(end.view.error)
                &&& end.temporary is Nothing || end.littered
            }
        }),
{
    lemma_backup_run_is_sound(backup_run_at_start(path, before), events, before);
}

/// The number of steps left at most.
pub open spec fn backup_steps_left(step: BackupStep) -> int {
    match step {
        BackupStep::CreateDirectory => 15,
        BackupStep::CheckMain => 14,
        BackupStep::CheckWal => 13,
        BackupStep::CheckShm => 12,
        BackupStep::CreateTemporary => 11,
        BackupStep::Copy => 10,
        BackupStep::Verify => 9,
        BackupStep::Close => 8,
        BackupStep::SyncTemporary => 7,
        BackupStep::Publish => 6,
        BackupStep::SyncDirectory => 5,
        BackupStep::Measure => 4,
        BackupStep::ReadJournal => 3,
        BackupStep::Unpublish => 2,
        BackupStep::RemoveTemporary => 1,
        BackupStep::Finished => 0,
        BackupStep::Failed => 0,
    }
}

/// A backup ends: each step leaves fewer to do, whichever way it went.
pub proof fn lemma_backup_ends(v: BackupView, event: BackupEvent)
    requires
        !(v.step is Finished || v.step is Failed),
    ensures
        0 <= backup_steps_left(backup_after(v, event).step) < backup_steps_left(v.step),
{
}

/// What follows the copying of pages, by SQLite's own numbers: 0 more pages,
/// 101 the end, 5 and 6 a wait as long as there is time and a timeout then,
/// anything else a failure.
pub proof fn lemma_pages_are_copied(code: i32, before_deadline: bool, failure: SqliteFailure)
    ensures
        ({
            let r = page_step(code, before_deadline, failure);
            &&& r is Again <==> code == 0
            &&& r is Complete <==> code == 101
            &&& r is Wait <==> (code == 5 || code == 6) && before_deadline
            &&& (code == 5 || code == 6) && !before_deadline ==> r is Stopped
                && r->Stopped_0.kind() == Some(AdapterErrorKind::Timeout) && r->Stopped_0.code()
                == Some("backup_timeout"@)
            &&& code != 0 && code != 101 && code != 5 && code != 6 ==> r == PageView::Stopped(
                statement::failure_error("step SQLite online backup"@, failure),
            )
        }),
{
}

/// What copying comes to: the first failure, be it in copying or in finishing.
pub proof fn lemma_copies_are_finished(
    stopped: Option<ErrorView>,
    finish_code: i32,
    failure: SqliteFailure,
)
    ensures
        stopped is Some ==> finished_copy(stopped, finish_code, failure) == stopped,
        stopped is None ==> (finished_copy(stopped, finish_code, failure) is None <==> finish_code
            == 0),
{
}

/// What follows each step of a backup that succeeds, and what is kept of it.
pub proof fn lemma_backup_steps(v: BackupView, event: BackupEvent)
    requires
        backup_fits(v.step, event),
        !(event is Failed),
    ensures
        ({
            let w = backup_after(v, event);
            &&& w.destination == v.destination
            &&& v.step is CreateDirectory ==> w.step is CheckMain
            &&& v.step is CheckMain && event == BackupEvent::Exists(false) ==> w.step is CheckWal
            &&& v.step is CheckWal && event == BackupEvent::Exists(false) ==> w.step is CheckShm
            &&& v.step is CheckShm && event == BackupEvent::Exists(false) ==> w.step
                is CreateTemporary
            &&& event == BackupEvent::Exists(true) ==> w.step is Failed && w.error is Some
                && w.error->Some_0.code() == Some("path_exists"@)
            &&& v.step is CreateTemporary ==> w.step is Copy
            &&& v.step is Copy ==> w.step is Verify
            &&& v.step is Verify ==> w.step is Close && w.copy_mode == event->Mode_0
            &&& v.step is Close ==> w.step is SyncTemporary
            &&& v.step is SyncTemporary ==> w.step is Publish
            &&& v.step is Publish ==> w.step is SyncDirectory
            &&& v.step is SyncDirectory ==> w.step is Measure
            &&& v.step is Measure ==> w.step is ReadJournal && w.bytes == event->Size_0
            &&& v.step is ReadJournal ==> w.step is Finished && w.source_mode == event->Mode_0
            &&& v.step is Unpublish ==> w.step is RemoveTemporary && w.error == v.error
            &&& v.step is RemoveTemporary ==> w.step is Failed && w.error == v.error
            &&& !(v.step is Verify) ==> w.copy_mode == v.copy_mode
            &&& !(v.step is Measure) ==> w.bytes == v.bytes
            &&& !(v.step is ReadJournal) ==> w.source_mode == v.source_mode
        }),
{
}

/// A step that fails stops a backup with its own error, once what it left has
/// been cleaned up.
pub proof fn lemma_backup_fails_with_its_step(v: BackupView, e: ErrorView)
    ensures
        ({
            let w = backup_after(v, BackupEvent::Failed(e));
            let clean = v.step is CreateDirectory || v.step is CheckMain || v.step is CheckWal
                || v.step is CheckShm || v.step is CreateTemporary;
            let ending = v.step is Unpublish || v.step is RemoveTemporary || v.step is Finished
                || v.step is Failed;
            &&& clean ==> w.step is Failed && w.error == Some(e)
            &&& v.step is SyncDirectory ==> w.step is Unpublish && w.error == Some(e)
            &&& !clean && !ending && !(v.step is SyncDirectory) ==> w.step is RemoveTemporary
                && w.error == Some(e)
            &&& v.step is RemoveTemporary ==> w.step is Failed && w.error == v.error
            &&& v.step is Unpublish ==> w.step is RemoveTemporary && w.error is Some
                && w.error->Some_0.code() == Some("recovery_rollback_failed"@)
        }),
{
}

/// Why a backup may not start, if it may not.
pub open spec fn backup_refusal(same_path: bool) -> Option<ErrorView> {
    if same_path {
        Some(
            crate::error::coded(
                AdapterErrorKind::Conflict,
                "backup_destination_is_source"@,
                "SQLite backup destination must differ from the active database"@,
            ),
        )
    } else {
        None
    }
}

/// What a [`BackupResult`] says.
#[verifier::ext_equal]
pub ghost struct BackedUpView {
    pub destination: Seq<char>,
    pub source_journal_mode: Seq<char>,
    pub destination_journal_mode: Seq<char>,
    pub bytes: u64,
}

/// What a result says.
pub open spec fn result_view(r: BackupResult) -> BackedUpView {
    BackedUpView {
        destination: r.destination@,
        source_journal_mode: r.source_journal_mode@,
        destination_journal_mode: r.destination_journal_mode@,
        bytes: r.bytes,
    }
}

/// What a backup that is over came to.
pub open spec fn backed_up(v: BackupView) -> Result<BackedUpView, ErrorView> {
    if v.step is Failed {
        Err(v.error->Some_0)
    } else {
        Ok(
            BackedUpView {
                destination: v.destination,
                source_journal_mode: v.source_mode,
                destination_journal_mode: v.copy_mode,
                bytes: v.bytes,
            },
        )
    }
}

/// A backup may start exactly where it goes to another file than the one that
/// is backed up.
pub proof fn lemma_backups_are_admitted(same_path: bool)
    ensures
        backup_refusal(same_path) is Some <==> same_path,
        same_path ==> backup_refusal(same_path)->Some_0.kind() == Some(AdapterErrorKind::Conflict)
            && backup_refusal(same_path)->Some_0.code() == Some("backup_destination_is_source"@),
{
}

/// A backup in which every step succeeds tells where it went, the journal mode
/// that the copy was verified with, the size that was measured, and the
/// journal mode that was read of the source.
pub proof fn lemma_successful_backup(
    destination: Seq<char>,
    copy_mode: Seq<char>,
    bytes: u64,
    source_mode: Seq<char>,
)
    ensures
        ({
            let done = BackupEvent::Done;
            let free = BackupEvent::Exists(false);
            let v1 = backup_after(backup_started(destination), done);
            let v2 = backup_after(v1, free);
            let v3 = backup_after(v2, free);
            let v4 = backup_after(v3, free);
            let v5 = backup_after(v4, done);
            let v6 = backup_after(v5, done);
            let v7 = backup_after(v6, BackupEvent::Mode(copy_mode));
            let v8 = backup_after(v7, done);
            let v9 = backup_after(v8, done);
            let v10 = backup_after(v9, done);
            let v11 = backup_after(v10, done);
            let v12 = backup_after(v11, BackupEvent::Size(bytes));
            let end = backup_after(v12, BackupEvent::Mode(source_mode));
            &&& v5.step is Copy && v6.step is Verify && v9.step is Publish && v12.step
                is ReadJournal
            &&& end.step is Finished
            &&& backed_up(end) == Ok::<BackedUpView, ErrorView>(
                BackedUpView {
                    destination,
                    source_journal_mode: source_mode,
                    destination_journal_mode: copy_mode,
                    bytes,
                },
            )
        }),
{
}

/// A backup that failed tells the error that stopped it.
pub proof fn lemma_failed_backup(v: BackupView, e: ErrorView)
    requires
        v.step is Failed,
        v.error == Some(e),
    ensures
        backed_up(v) == Err::<BackedUpView, ErrorView>(e),
{
}

} // verus!
