//! Recovering a database by dump and reload.
//!
//! A copy of the database is rebuilt from a snapshot, the original and its
//! sidecar files are moved to an archive, and the copy takes the original's
//! place. Until the copy has been opened the original can be put back. The
//! steps are decided here; the caller performs each and reports how it went.

use vstd::prelude::*;

use crate::contract::{AccessMode, RecoveryJournalMode, RecoveryResult};
use crate::error::{AdapterErrorKind, DactylError, ErrorView};
use crate::sqlite::maintenance;
use crate::sqlite::statement;
use crate::sqlite::statement::SqliteFailure;
use crate::text;

verus! {

// ---------------------------------------------------------------------------
// Whether a recovery may start
// ---------------------------------------------------------------------------

/// Why a recovery may not start, if it may not.
pub open spec fn recovery_refusal(
    mode: AccessMode,
    others_open: bool,
    path: Seq<char>,
    same_parent: bool,
    same_path: bool,
) -> Option<ErrorView> {
    if mode is ReadOnly {
        Some(
            crate::error::coded(
                AdapterErrorKind::ReadOnly,
                "read_only"@,
                "SQLite recovery requires a read-write connection"@,
            ),
        )
    } else if others_open {
        Some(
            crate::error::coded(
                AdapterErrorKind::Conflict,
                "open_connections"@,
                "SQLite recovery requires all other Dactyl connections to be closed"@,
            ),
        )
    } else if path == ":memory:"@ {
        Some(
            crate::error::coded(
                AdapterErrorKind::Capability,
                "unsupported_memory_recovery"@,
                "SQLite dump-reload recovery requires a file-backed database"@,
            ),
        )
    } else if !same_parent || same_path {
        Some(
            crate::error::coded(
                AdapterErrorKind::InvalidOperation,
                "recovery_paths_must_share_parent"@,
                "SQLite recovery archive must be a different path in the database directory"@,
            ),
        )
    } else {
        None
    }
}

/// Decide whether a recovery may start. `same_parent` and `same_path` compare
/// the archive with the database.
pub fn admit_recovery(
    mode: AccessMode,
    others_open: bool,
    path: &str,
    same_parent: bool,
    same_path: bool,
) -> (r: Result<(), DactylError>)
    ensures
        match recovery_refusal(mode, others_open, path@, same_parent, same_path) {
            Some(e) => r is Err && r->Err_0@ == e,
            None => r is Ok,
        },
{
    if mode == AccessMode::ReadOnly {
        return Err(
            DactylError::adapter_with_code(
                AdapterErrorKind::ReadOnly,
                "read_only",
                "SQLite recovery requires a read-write connection",
            ),
        );
    }
    if others_open {
        return Err(
            DactylError::adapter_with_code(
                AdapterErrorKind::Conflict,
                "open_connections",
                "SQLite recovery requires all other Dactyl connections to be closed",
            ),
        );
    }
    if text::str_eq(path, ":memory:") {
        return Err(
            DactylError::adapter_with_code(
                AdapterErrorKind::Capability,
                "unsupported_memory_recovery",
                "SQLite dump-reload recovery requires a file-backed database",
            ),
        );
    }
    validate_recovery_paths(same_parent, same_path)
}

/// Refuse an archive that is not a different path in the database's directory.
pub fn validate_recovery_paths(same_parent: bool, same_path: bool) -> (r: Result<(), DactylError>)
    ensures
        r is Ok <==> same_parent && !same_path,
        r is Err ==> r->Err_0@ == crate::error::coded(
            AdapterErrorKind::InvalidOperation,
            "recovery_paths_must_share_parent"@,
            "SQLite recovery archive must be a different path in the database directory"@,
        ),
{
    if !same_parent || same_path {
        return Err(
            DactylError::adapter_with_code(
                AdapterErrorKind::InvalidOperation,
                "recovery_paths_must_share_parent",
                "SQLite recovery archive must be a different path in the database directory",
            ),
        );
    }
    Ok(())
}

/// The error where undoing a failed recovery failed too.
pub open spec fn rollback_failed(original: ErrorView, rollback: ErrorView) -> ErrorView {
    crate::error::coded(
        AdapterErrorKind::Storage,
        "recovery_rollback_failed"@,
        "SQLite recovery failed: "@ + original.text() + "; rollback failed: "@ + rollback.text(),
    )
}

/// The error where undoing a failed recovery failed too.
pub fn recovery_rollback_error(original: &DactylError, rollback: &DactylError) -> (r: DactylError)
    ensures
        r@ == rollback_failed(original@, rollback@),
{
    DactylError::adapter_with_code(
        AdapterErrorKind::Storage,
        "recovery_rollback_failed",
        "SQLite recovery failed: ".to_string().concat(original.message().as_str()).concat(
            "; rollback failed: ",
        ).concat(rollback.message().as_str()).as_str(),
    )
}

// ---------------------------------------------------------------------------
// The steps
// ---------------------------------------------------------------------------

/// What is to be done next.
#[derive(Debug, Clone, Copy, PartialEq, Eq, Structural)]
pub enum RecoveryStep {
    /// Lock the database: `BEGIN EXCLUSIVE`.
    Lock,
    /// Rebuild the database in the temporary file.
    Rebuild,
    /// Give the lock back: `ROLLBACK`.
    Unlock,
    /// Make the temporary file durable.
    SyncTemporary,
    /// Close the connection.
    Close,
    /// Move the database to the archive.
    ArchiveMain,
    /// Move the write-ahead log to the archive, if there is one.
    ArchiveWal,
    /// Move the shared-memory file to the archive, if there is one.
    ArchiveShm,
    /// Move the write-ahead log back. How it goes does not matter.
    UndoWal,
    /// Move the database back. How it goes does not matter.
    UndoMain,
    /// Make the archive durable.
    SyncArchive,
    /// Move the temporary file into the database's place.
    Activate,
    /// Make the directory durable.
    SyncDirectory,
    /// Open the recovered database.
    Reopen,
    /// Find a free name for the recovered database.
    NameQuarantine,
    /// Close what was opened of the recovered database. How closing goes does
    /// not matter.
    CloseRecovered,
    /// Move the recovered database out of the way.
    Quarantine,
    /// Move the database back from the archive.
    RestoreMain,
    /// Move the write-ahead log back from the archive.
    RestoreWal,
    /// Move the shared-memory file back from the archive.
    RestoreShm,
    /// Open the original database again.
    ReopenOriginal,
    /// Remove the temporary file and its sidecars. How it goes does not
    /// matter.
    RemoveTemporary,
    /// Nothing: the recovered database is open.
    Finished,
    /// Nothing: the recovery failed.
    Failed,
}

/// The step whose failure is being undone.
#[derive(Debug, Clone, Copy, PartialEq, Eq, Structural)]
pub enum Cause {
    Archiving,
    ArchiveSync,
    Activation,
    DirectorySync,
    Reopening,
}

/// What was read of a database while it was rebuilt.
#[derive(Debug, Clone, Copy, PartialEq, Eq, Structural)]
pub struct RebuildResult {
    pub user_version: i64,
    pub application_id: i64,
}

/// How a step went.
pub enum StepOutcome {
    /// It succeeded.
    Done,
    /// A sidecar file was moved, or there was none.
    Moved(bool),
    /// The database was rebuilt.
    Rebuilt(RebuildResult),
    /// The file system refused, for this reason.
    Io(String),
    /// SQLite refused.
    Sqlite(SqliteFailure),
    /// It failed with this error.
    Refused(DactylError),
}

/// How a step went.
pub ghost enum OutcomeView {
    Done,
    Moved(bool),
    Rebuilt(RebuildResult),
    Failed(ErrorView),
}

/// What a step is called where SQLite or the file system refuses it.
pub open spec fn step_label(step: RecoveryStep, cause: Cause) -> Seq<char> {
    match step {
        RecoveryStep::Lock => "begin SQLite recovery"@,
        RecoveryStep::Unlock => "rollback SQLite recovery snapshot"@,
        RecoveryStep::Close => "close SQLite database"@,
        RecoveryStep::ArchiveMain => "preserve original SQLite database"@,
        RecoveryStep::ArchiveWal => "preserve original SQLite WAL sidecar"@,
        RecoveryStep::ArchiveShm => "preserve original SQLite SHM sidecar"@,
        RecoveryStep::Activate => "activate recovered SQLite database"@,
        RecoveryStep::SyncDirectory => "sync SQLite database directory"@,
        RecoveryStep::Quarantine => if cause is DirectorySync {
            "quarantine unsynced recovered SQLite database"@
        } else {
            "quarantine unreopenable recovered SQLite database"@
        },
        RecoveryStep::RestoreMain => "rollback original SQLite database"@,
        RecoveryStep::RestoreWal => "rollback original SQLite WAL sidecar"@,
        RecoveryStep::RestoreShm => "rollback original SQLite SHM sidecar"@,
        _ => "SQLite recovery"@,
    }
}

fn label_of(step: RecoveryStep, cause: Cause) -> (r: &'static str)
    ensures
        r@ == step_label(step, cause),
{
    match step {
        RecoveryStep::Lock => "begin SQLite recovery",
        RecoveryStep::Unlock => "rollback SQLite recovery snapshot",
        RecoveryStep::Close => "close SQLite database",
        RecoveryStep::ArchiveMain => "preserve original SQLite database",
        RecoveryStep::ArchiveWal => "preserve original SQLite WAL sidecar",
        RecoveryStep::ArchiveShm => "preserve original SQLite SHM sidecar",
        RecoveryStep::Activate => "activate recovered SQLite database",
        RecoveryStep::SyncDirectory => "sync SQLite database directory",
        RecoveryStep::Quarantine => if cause == Cause::DirectorySync {
            "quarantine unsynced recovered SQLite database"
        } else {
            "quarantine unreopenable recovered SQLite database"
        },
        RecoveryStep::RestoreMain => "rollback original SQLite database",
        RecoveryStep::RestoreWal => "rollback original SQLite WAL sidecar",
        RecoveryStep::RestoreShm => "rollback original SQLite SHM sidecar",
        _ => "SQLite recovery",
    }
}

/// How a step went, with what a refusal is reported as.
pub open spec fn outcome_view(outcome: StepOutcome, step: RecoveryStep, cause: Cause) -> OutcomeView {
    match outcome {
        StepOutcome::Done => OutcomeView::Done,
        StepOutcome::Moved(moved) => OutcomeView::Moved(moved),
        StepOutcome::Rebuilt(result) => OutcomeView::Rebuilt(result),
        StepOutcome::Io(reason) => OutcomeView::Failed(
            maintenance::filesystem_failure(step_label(step, cause), reason@),
        ),
        StepOutcome::Sqlite(failure) => OutcomeView::Failed(
            statement::failure_error(step_label(step, cause), failure),
        ),
        StepOutcome::Refused(e) => OutcomeView::Failed(e@),
    }
}

fn failure_of(outcome: StepOutcome, step: RecoveryStep, cause: Cause) -> (r: Option<DactylError>)
    ensures
        match outcome_view(outcome, step, cause) {
            OutcomeView::Failed(e) => r is Some && r->Some_0@ == e,
            _ => r is None,
        },
{
    match outcome {
        StepOutcome::Io(reason) => Some(
            maintenance::storage_io(label_of(step, cause), reason.as_str()),
        ),
        StepOutcome::Sqlite(failure) => Some(
            statement::map_sqlite_failure(label_of(step, cause), &failure),
        ),
        StepOutcome::Refused(e) => Some(e),
        _ => None,
    }
}

/// Whether a step can go this way: a rebuild gives what it read, and moving a
/// sidecar says whether there was one.
pub open spec fn fits(step: RecoveryStep, outcome: OutcomeView) -> bool {
    match outcome {
        OutcomeView::Failed(_) => true,
        OutcomeView::Rebuilt(_) => step is Rebuild,
        OutcomeView::Moved(_) => step is ArchiveWal || step is ArchiveShm,
        OutcomeView::Done => !(step is Rebuild || step is ArchiveWal || step is ArchiveShm),
    }
}

/// Where a recovery stands.
#[verifier::ext_equal]
pub ghost struct RecoveryView {
    pub step: RecoveryStep,
    pub cause: Cause,
    pub moved_wal: bool,
    pub moved_shm: bool,
    pub rebuilt: Option<RebuildResult>,
    /// The error that is being undone, or that is reported.
    pub error: Option<ErrorView>,
}

/// A recovery that gives up with an error.
pub open spec fn given_up(v: RecoveryView, e: ErrorView) -> RecoveryView {
    RecoveryView { step: RecoveryStep::RemoveTemporary, error: Some(e), ..v }
}

/// A recovery that starts to undo a failed step.
pub open spec fn undoing(
    v: RecoveryView,
    step: RecoveryStep,
    cause: Cause,
    e: ErrorView,
) -> RecoveryView {
    RecoveryView { step, cause, error: Some(e), ..v }
}

/// A recovery one step further.
pub open spec fn at(v: RecoveryView, step: RecoveryStep) -> RecoveryView {
    RecoveryView { step, ..v }
}

/// The error that is reported once the original is open again.
pub open spec fn reported(cause: Cause, e: ErrorView) -> ErrorView {
    match cause {
        Cause::DirectorySync => crate::error::coded(
            AdapterErrorKind::Storage,
            "recovery_sync_failed"@,
            "sync recovered SQLite database before activation: "@ + e.text(),
        ),
        Cause::Reopening => crate::error::coded(
            AdapterErrorKind::Unavailable,
            "recovery_reopen_failed"@,
            "reopen recovered SQLite database: "@ + e.text(),
        ),
        _ => e,
    }
}

fn report(cause: Cause, e: DactylError) -> (r: DactylError)
    ensures
        r@ == reported(cause, e@),
{
    match cause {
        Cause::DirectorySync => DactylError::adapter_with_code(
            AdapterErrorKind::Storage,
            "recovery_sync_failed",
            "sync recovered SQLite database before activation: ".to_string().concat(
                e.message().as_str(),
            ).as_str(),
        ),
        Cause::Reopening => DactylError::adapter_with_code(
            AdapterErrorKind::Unavailable,
            "recovery_reopen_failed",
            "reopen recovered SQLite database: ".to_string().concat(e.message().as_str()).as_str(),
        ),
        _ => e,
    }
}

/// The step behind restoring the database and, where `wal` says so, its
/// write-ahead log.
pub open spec fn restore_next(v: RecoveryView, wal: bool) -> RecoveryStep {
    if !wal && v.moved_wal {
        RecoveryStep::RestoreWal
    } else if v.moved_shm {
        RecoveryStep::RestoreShm
    } else {
        RecoveryStep::ReopenOriginal
    }
}

/// A recovery once its step succeeded.
pub open spec fn after_success(v: RecoveryView, outcome: OutcomeView) -> RecoveryView {
    match v.step {
        RecoveryStep::Lock => at(v, RecoveryStep::Rebuild),
        RecoveryStep::Rebuild => RecoveryView {
            step: RecoveryStep::Unlock,
            rebuilt: Some(outcome->Rebuilt_0),
            ..v
        },
        RecoveryStep::Unlock => match v.error {
            Some(e) => given_up(v, e),
            None => at(v, RecoveryStep::SyncTemporary),
        },
        RecoveryStep::SyncTemporary => at(v, RecoveryStep::Close),
        RecoveryStep::Close => at(v, RecoveryStep::ArchiveMain),
        RecoveryStep::ArchiveMain => at(v, RecoveryStep::ArchiveWal),
        RecoveryStep::ArchiveWal => RecoveryView {
            step: RecoveryStep::ArchiveShm,
            moved_wal: outcome->Moved_0,
            ..v
        },
        RecoveryStep::ArchiveShm => RecoveryView {
            step: RecoveryStep::SyncArchive,
            moved_shm: outcome->Moved_0,
            ..v
        },
        RecoveryStep::UndoWal => at(v, RecoveryStep::UndoMain),
        RecoveryStep::UndoMain => at(v, RecoveryStep::ReopenOriginal),
        RecoveryStep::SyncArchive => at(v, RecoveryStep::Activate),
        RecoveryStep::Activate => at(v, RecoveryStep::SyncDirectory),
        RecoveryStep::SyncDirectory => at(v, RecoveryStep::Reopen),
        RecoveryStep::Reopen => at(v, RecoveryStep::Finished),
        RecoveryStep::NameQuarantine => at(
            v,
            if v.cause is DirectorySync {
                RecoveryStep::Quarantine
            } else {
                RecoveryStep::CloseRecovered
            },
        ),
        RecoveryStep::CloseRecovered => at(v, RecoveryStep::Quarantine),
        RecoveryStep::Quarantine => at(v, RecoveryStep::RestoreMain),
        RecoveryStep::RestoreMain => at(v, restore_next(v, false)),
        RecoveryStep::RestoreWal => at(v, restore_next(v, true)),
        RecoveryStep::RestoreShm => at(v, RecoveryStep::ReopenOriginal),
        RecoveryStep::ReopenOriginal => given_up(v, reported(v.cause, v.error->Some_0)),
        RecoveryStep::RemoveTemporary => at(v, RecoveryStep::Failed),
        _ => v,
    }
}

/// A recovery once its step failed with an error.
pub open spec fn after_failure(v: RecoveryView, e: ErrorView) -> RecoveryView {
    match v.step {
        RecoveryStep::Rebuild => RecoveryView { step: RecoveryStep::Unlock, error: Some(e), ..v },
        RecoveryStep::Unlock => given_up(
            v,
            match v.error {
                Some(original) => rollback_failed(original, e),
                None => crate::error::coded(
                    AdapterErrorKind::Storage,
                    "recovery_rollback_failed"@,
                    "rollback SQLite recovery snapshot: "@ + e.text(),
                ),
            },
        ),
        RecoveryStep::ArchiveMain => undoing(v, RecoveryStep::ReopenOriginal, Cause::Archiving, e),
        RecoveryStep::ArchiveWal => undoing(v, RecoveryStep::UndoMain, Cause::Archiving, e),
        RecoveryStep::ArchiveShm => undoing(
            v,
            if v.moved_wal {
                RecoveryStep::UndoWal
            } else {
                RecoveryStep::UndoMain
            },
            Cause::Archiving,
            e,
        ),
        RecoveryStep::UndoWal => at(v, RecoveryStep::UndoMain),
        RecoveryStep::UndoMain => at(v, RecoveryStep::ReopenOriginal),
        RecoveryStep::SyncArchive => undoing(v, RecoveryStep::RestoreMain, Cause::ArchiveSync, e),
        RecoveryStep::Activate => undoing(v, RecoveryStep::RestoreMain, Cause::Activation, e),
        RecoveryStep::SyncDirectory => undoing(
            v,
            RecoveryStep::NameQuarantine,
            Cause::DirectorySync,
            e,
        ),
        RecoveryStep::Reopen => undoing(v, RecoveryStep::NameQuarantine, Cause::Reopening, e),
        RecoveryStep::CloseRecovered
        | RecoveryStep::Quarantine
        | RecoveryStep::RestoreMain
        | RecoveryStep::RestoreWal
        | RecoveryStep::RestoreShm => given_up(v, rollback_failed(v.error->Some_0, e)),
        RecoveryStep::ReopenOriginal => given_up(
            v,
            match v.cause {
                Cause::Archiving | Cause::ArchiveSync => rollback_failed(v.error->Some_0, e),
                _ => e,
            },
        ),
        RecoveryStep::RemoveTemporary => at(v, RecoveryStep::Failed),
        RecoveryStep::Finished | RecoveryStep::Failed => v,
        _ => given_up(v, e),
    }
}

/// A recovery once its step went one way.
pub open spec fn after_step(v: RecoveryView, outcome: OutcomeView) -> RecoveryView {
    match outcome {
        OutcomeView::Failed(e) => after_failure(v, e),
        _ => after_success(v, outcome),
    }
}

/// A recovery about to start.
pub open spec fn started() -> RecoveryView {
    RecoveryView {
        step: RecoveryStep::Lock,
        cause: Cause::Archiving,
        moved_wal: false,
        moved_shm: false,
        rebuilt: None,
        error: None,
    }
}

/// Whether a step is part of undoing a failure or comes after one.
pub open spec fn is_undoing(step: RecoveryStep) -> bool {
    match step {
        RecoveryStep::UndoWal
        | RecoveryStep::UndoMain
        | RecoveryStep::NameQuarantine
        | RecoveryStep::CloseRecovered
        | RecoveryStep::Quarantine
        | RecoveryStep::RestoreMain
        | RecoveryStep::RestoreWal
        | RecoveryStep::RestoreShm
        | RecoveryStep::ReopenOriginal
        | RecoveryStep::RemoveTemporary
        | RecoveryStep::Failed => true,
        _ => false,
    }
}

/// Where a recovery may stand: an error is known once one is being undone,
/// and what was read while rebuilding is known once it succeeded.
pub open spec fn recovery_wf(v: RecoveryView) -> bool {
    &&& is_undoing(v.step) ==> v.error is Some
    &&& !is_undoing(v.step) && !(v.step is Unlock) ==> v.error is None
    &&& v.step is Unlock ==> (v.error is Some || v.rebuilt is Some)
    &&& !is_undoing(v.step) && !(v.step is Lock || v.step is Rebuild || v.step is Unlock)
        ==> v.rebuilt is Some
}

/// What a [`RecoveryResult`] says.
#[verifier::ext_equal]
pub ghost struct RecoveredView {
    pub active_path: Seq<char>,
    pub preserved_original_path: Seq<char>,
    pub journal_mode: RecoveryJournalMode,
    pub user_version: i64,
    pub application_id: i64,
}

/// What a result says.
pub open spec fn result_view(r: RecoveryResult) -> RecoveredView {
    RecoveredView {
        active_path: r.active_path@,
        preserved_original_path: r.preserved_original_path@,
        journal_mode: r.journal_mode,
        user_version: r.user_version,
        application_id: r.application_id,
    }
}

/// What a recovery that is over came to.
pub open spec fn recovered(
    v: RecoveryView,
    active_path: Seq<char>,
    archive_path: Seq<char>,
) -> Result<RecoveredView, ErrorView> {
    if v.step is Failed {
        Err(v.error->Some_0)
    } else {
        Ok(
            RecoveredView {
                active_path,
                preserved_original_path: archive_path,
                journal_mode: RecoveryJournalMode::Delete,
                user_version: v.rebuilt->Some_0.user_version,
                application_id: v.rebuilt->Some_0.application_id,
            },
        )
    }
}

/// A recovery in progress.
pub struct Recovery {
    step: RecoveryStep,
    cause: Cause,
    moved_wal: bool,
    moved_shm: bool,
    rebuilt: Option<RebuildResult>,
    error: Option<DactylError>,
}

impl Recovery {
    pub closed spec fn view(self) -> RecoveryView {
        RecoveryView {
            step: self.step,
            cause: self.cause,
            moved_wal: self.moved_wal,
            moved_shm: self.moved_shm,
            rebuilt: self.rebuilt,
            error: match self.error {
                Some(e) => Some(e@),
                None => None,
            },
        }
    }

    #[verifier::type_invariant]
    closed spec fn well_formed(self) -> bool {
        recovery_wf(self@)
    }

    /// A recovery about to start.
    pub fn new() -> (r: Self)
        ensures
            r@ == started(),
    {
        Recovery {
            step: RecoveryStep::Lock,
            cause: Cause::Archiving,
            moved_wal: false,
            moved_shm: false,
            rebuilt: None,
            error: None,
        }
    }

    /// What is to be done next.
    pub fn step(&self) -> (r: RecoveryStep)
        ensures
            r == self@.step,
            recovery_wf(self@),
    {
        proof {
            use_type_invariant(self);
        }
        self.step
    }

    /// Take note of how the step went.
    pub fn advance(self, outcome: StepOutcome) -> (r: Self)
        requires
            fits(self@.step, outcome_view(outcome, self@.step, self@.cause)),
        ensures
            r@ == after_step(self@, outcome_view(outcome, self@.step, self@.cause)),
    {
        proof {
            use_type_invariant(&self);
        }
        let moved: bool = match &outcome {
            StepOutcome::Moved(moved) => *moved,
            _ => false,
        };
        let rebuilt: Option<RebuildResult> = match &outcome {
            StepOutcome::Rebuilt(result) => Some(*result),
            _ => self.rebuilt,
        };
        match failure_of(outcome, self.step, self.cause) {
            Some(e) => self.failed(e),
            None => self.succeeded(moved, rebuilt),
        }
    }

    fn succeeded(self, moved: bool, rebuilt: Option<RebuildResult>) -> (r: Self)
        requires
            self@.step is Rebuild ==> rebuilt is Some,
            !(self@.step is Rebuild) ==> rebuilt == self@.rebuilt,
            !(self@.step is ArchiveWal || self@.step is ArchiveShm) ==> !moved,
        ensures
            r@ == after_success(
                self@,
                match self@.step {
                    RecoveryStep::Rebuild => OutcomeView::Rebuilt(rebuilt->Some_0),
                    RecoveryStep::ArchiveWal | RecoveryStep::ArchiveShm => OutcomeView::Moved(
                        moved,
                    ),
                    _ => OutcomeView::Done,
                },
            ),
    {
        proof {
            use_type_invariant(&self);
        }
        let step: RecoveryStep = match self.step {
            RecoveryStep::Lock => RecoveryStep::Rebuild,
            RecoveryStep::Rebuild => RecoveryStep::Unlock,
            RecoveryStep::Unlock => if self.error.is_some() {
                RecoveryStep::RemoveTemporary
            } else {
                RecoveryStep::SyncTemporary
            },
            RecoveryStep::SyncTemporary => RecoveryStep::Close,
            RecoveryStep::Close => RecoveryStep::ArchiveMain,
            RecoveryStep::ArchiveMain => RecoveryStep::ArchiveWal,
            RecoveryStep::ArchiveWal => RecoveryStep::ArchiveShm,
            RecoveryStep::ArchiveShm => RecoveryStep::SyncArchive,
            RecoveryStep::UndoWal => RecoveryStep::UndoMain,
            RecoveryStep::UndoMain => RecoveryStep::ReopenOriginal,
            RecoveryStep::SyncArchive => RecoveryStep::Activate,
            RecoveryStep::Activate => RecoveryStep::SyncDirectory,
            RecoveryStep::SyncDirectory => RecoveryStep::Reopen,
            RecoveryStep::Reopen => RecoveryStep::Finished,
            RecoveryStep::NameQuarantine => if self.cause == Cause::DirectorySync {
                RecoveryStep::Quarantine
            } else {
                RecoveryStep::CloseRecovered
            },
            RecoveryStep::CloseRecovered => RecoveryStep::Quarantine,
            RecoveryStep::Quarantine => RecoveryStep::RestoreMain,
            RecoveryStep::RestoreMain => if self.moved_wal {
                RecoveryStep::RestoreWal
            } else if self.moved_shm {
                RecoveryStep::RestoreShm
            } else {
                RecoveryStep::ReopenOriginal
            },
            RecoveryStep::RestoreWal => if self.moved_shm {
                RecoveryStep::RestoreShm
            } else {
                RecoveryStep::ReopenOriginal
            },
            RecoveryStep::RestoreShm => RecoveryStep::ReopenOriginal,
            RecoveryStep::ReopenOriginal => RecoveryStep::RemoveTemporary,
            RecoveryStep::RemoveTemporary => RecoveryStep::Failed,
            RecoveryStep::Finished => RecoveryStep::Finished,
            RecoveryStep::Failed => RecoveryStep::Failed,
        };
        let moved_wal: bool = if self.step == RecoveryStep::ArchiveWal {
            moved
        } else {
            self.moved_wal
        };
        let moved_shm: bool = if self.step == RecoveryStep::ArchiveShm {
            moved
        } else {
            self.moved_shm
        };
        let error: Option<DactylError> = if self.step == RecoveryStep::ReopenOriginal {
            match self.error {
                Some(e) => Some(report(self.cause, e)),
                None => None,
            }
        } else {
            self.error
        };
        Recovery { step, cause: self.cause, moved_wal, moved_shm, rebuilt, error }
    }

    fn failed(self, e: DactylError) -> (r: Self)
        ensures
            r@ == after_failure(self@, e@),
    {
        proof {
            use_type_invariant(&self);
        }
        let before: RecoveryStep = self.step;
        let step: RecoveryStep = match before {
            RecoveryStep::Rebuild => RecoveryStep::Unlock,
            RecoveryStep::ArchiveMain => RecoveryStep::ReopenOriginal,
            RecoveryStep::ArchiveWal => RecoveryStep::UndoMain,
            RecoveryStep::ArchiveShm => if self.moved_wal {
                RecoveryStep::UndoWal
            } else {
                RecoveryStep::UndoMain
            },
            RecoveryStep::UndoWal => RecoveryStep::UndoMain,
            RecoveryStep::UndoMain => RecoveryStep::ReopenOriginal,
            RecoveryStep::SyncArchive | RecoveryStep::Activate => RecoveryStep::RestoreMain,
            RecoveryStep::SyncDirectory | RecoveryStep::Reopen => RecoveryStep::NameQuarantine,
            RecoveryStep::RemoveTemporary => RecoveryStep::Failed,
            RecoveryStep::Finished => RecoveryStep::Finished,
            RecoveryStep::Failed => RecoveryStep::Failed,
            _ => RecoveryStep::RemoveTemporary,
        };
        let cause: Cause = match before {
            RecoveryStep::ArchiveMain
            | RecoveryStep::ArchiveWal
            | RecoveryStep::ArchiveShm => Cause::Archiving,
            RecoveryStep::SyncArchive => Cause::ArchiveSync,
            RecoveryStep::Activate => Cause::Activation,
            RecoveryStep::SyncDirectory => Cause::DirectorySync,
            RecoveryStep::Reopen => Cause::Reopening,
            _ => self.cause,
        };
        let error: Option<DactylError> = match before {
            RecoveryStep::Unlock => match self.error {
                Some(original) => Some(recovery_rollback_error(&original, &e)),
                None => Some(
                    DactylError::adapter_with_code(
                        AdapterErrorKind::Storage,
                        "recovery_rollback_failed",
                        "rollback SQLite recovery snapshot: ".to_string().concat(
                            e.message().as_str(),
                        ).as_str(),
                    ),
                ),
            },
            RecoveryStep::CloseRecovered
            | RecoveryStep::Quarantine
            | RecoveryStep::RestoreMain
            | RecoveryStep::RestoreWal
            | RecoveryStep::RestoreShm => match self.error {
                Some(original) => Some(recovery_rollback_error(&original, &e)),
                None => None,
            },
            RecoveryStep::ReopenOriginal => match self.cause {
                Cause::Archiving | Cause::ArchiveSync => match self.error {
                    Some(original) => Some(recovery_rollback_error(&original, &e)),
                    None => None,
                },
                _ => Some(e),
            },
            RecoveryStep::UndoWal
            | RecoveryStep::UndoMain
            | RecoveryStep::RemoveTemporary
            | RecoveryStep::Finished
            | RecoveryStep::Failed => self.error,
            _ => Some(e),
        };
        Recovery {
            step,
            cause,
            moved_wal: self.moved_wal,
            moved_shm: self.moved_shm,
            rebuilt: self.rebuilt,
            error,
        }
    }

    /// The outcome of a recovery that is over.
    pub fn into_outcome(self, active_path: String, archive_path: String) -> (r: Result<
        RecoveryResult,
        DactylError,
    >)
        requires
            self@.step is Finished || self@.step is Failed,
        ensures
            match recovered(self@, active_path@, archive_path@) {
                Ok(result) => r is Ok && result_view(r->Ok_0) == result && self@.rebuilt is Some,
                Err(e) => r is Err && r->Err_0@ == e && self@.error is Some,
            },
    {
        proof {
            use_type_invariant(&self);
        }
        if let Some(e) = self.error {
            return Err(e);
        }
        let rebuilt: RebuildResult = match self.rebuilt {
            Some(result) => result,
            None => RebuildResult { user_version: 0, application_id: 0 },
        };
        Ok(
            RecoveryResult {
                active_path,
                preserved_original_path: archive_path,
                journal_mode: RecoveryJournalMode::Delete,
                user_version: rebuilt.user_version,
                application_id: rebuilt.application_id,
            },
        )
    }
}

// ---------------------------------------------------------------------------
// What the files hold
// ---------------------------------------------------------------------------

/// What a file holds.
pub ghost enum Content {
    Nothing,
    /// The database that is being recovered.
    Original,
    /// The rebuilt database.
    Recovered,
    /// A rebuilt database that is not complete.
    Partial,
    /// A new, empty database.
    Fresh,
}

/// What the files hold: the main files, and where the original's sidecar
/// files are.
pub ghost struct RecoveryFiles {
    pub source: Content,
    pub archive: Content,
    pub temporary: Content,
    pub quarantine: Content,
    pub wal_at_source: bool,
    pub wal_at_archive: bool,
    pub shm_at_source: bool,
    pub shm_at_archive: bool,
}

/// What the files hold when a recovery starts.
pub open spec fn files_at_start(wal: bool, shm: bool) -> RecoveryFiles {
    RecoveryFiles {
        source: Content::Original,
        archive: Content::Nothing,
        temporary: Content::Partial,
        quarantine: Content::Nothing,
        wal_at_source: wal,
        wal_at_archive: false,
        shm_at_source: shm,
        shm_at_archive: false,
    }
}

/// What the files hold once a step succeeded. Opening a database that is not
/// there makes an empty one.
pub open spec fn files_after(step: RecoveryStep, f: RecoveryFiles) -> RecoveryFiles {
    match step {
        RecoveryStep::Rebuild => RecoveryFiles { temporary: Content::Recovered, ..f },
        RecoveryStep::ArchiveMain => RecoveryFiles {
            source: Content::Nothing,
            archive: f.source,
            ..f
        },
        RecoveryStep::ArchiveWal => RecoveryFiles {
            wal_at_source: false,
            wal_at_archive: f.wal_at_source,
            ..f
        },
        RecoveryStep::ArchiveShm => RecoveryFiles {
            shm_at_source: false,
            shm_at_archive: f.shm_at_source,
            ..f
        },
        RecoveryStep::UndoMain | RecoveryStep::RestoreMain => RecoveryFiles {
            source: f.archive,
            archive: Content::Nothing,
            ..f
        },
        RecoveryStep::UndoWal | RecoveryStep::RestoreWal => RecoveryFiles {
            wal_at_source: f.wal_at_archive,
            wal_at_archive: false,
            ..f
        },
        RecoveryStep::RestoreShm => RecoveryFiles {
            shm_at_source: f.shm_at_archive,
            shm_at_archive: false,
            ..f
        },
        RecoveryStep::Activate => RecoveryFiles {
            source: f.temporary,
            temporary: Content::Nothing,
            ..f
        },
        RecoveryStep::Quarantine => RecoveryFiles {
            source: Content::Nothing,
            quarantine: f.source,
            ..f
        },
        RecoveryStep::Reopen | RecoveryStep::ReopenOriginal => RecoveryFiles {
            source: if f.source is Nothing {
                Content::Fresh
            } else {
                f.source
            },
            ..f
        },
        RecoveryStep::RemoveTemporary => RecoveryFiles { temporary: Content::Nothing, ..f },
        _ => f,
    }
}

/// A recovery with the files it works on.
pub ghost struct Run {
    pub view: RecoveryView,
    pub files: RecoveryFiles,
    /// Whether a step failed whose failure is not reported as such: moving a
    /// file back after a failed move to the archive, or finding a name for
    /// the quarantine.
    pub slipped: bool,
}

/// A recovery about to start, on a database with or without sidecar files.
pub open spec fn run_at_start(wal: bool, shm: bool) -> Run {
    Run { view: started(), files: files_at_start(wal, shm), slipped: false }
}

/// A recovery and its files once a step went one way.
pub open spec fn run_step(r: Run, outcome: OutcomeView) -> Run {
    Run {
        view: after_step(r.view, outcome),
        files: if outcome is Failed {
            r.files
        } else {
            files_after(r.view.step, r.files)
        },
        slipped: r.slipped || (outcome is Failed && (r.view.step is UndoWal || r.view.step
            is UndoMain || r.view.step is NameQuarantine)),
    }
}

/// Whether a step can go this way on these files: whether a sidecar was moved
/// is told as it is.
pub open spec fn truthful(r: Run, outcome: OutcomeView) -> bool {
    &&& fits(r.view.step, outcome)
    &&& r.view.step is ArchiveWal && outcome is Moved ==> outcome->Moved_0
        == r.files.wal_at_source
    &&& r.view.step is ArchiveShm && outcome is Moved ==> outcome->Moved_0
        == r.files.shm_at_source
}

/// A recovery and its files after steps that went these ways.
pub open spec fn run_of(r: Run, outcomes: Seq<OutcomeView>) -> Run
    decreases outcomes.len(),
{
    if outcomes.len() == 0 {
        r
    } else {
        run_of(run_step(r, outcomes[0]), outcomes.drop_first())
    }
}

/// Whether each of a number of steps can go the way it is said to.
pub open spec fn all_truthful(r: Run, outcomes: Seq<OutcomeView>) -> bool
    decreases outcomes.len(),
{
    outcomes.len() > 0 ==> truthful(r, outcomes[0]) && all_truthful(
        run_step(r, outcomes[0]),
        outcomes.drop_first(),
    )
}

/// Whether the original stands in its place, with the sidecar files it had.
pub open spec fn original_in_place(f: RecoveryFiles, wal: bool, shm: bool) -> bool {
    f.source is Original && f.wal_at_source == wal && f.shm_at_source == shm
}

/// Whether the original stands in the archive, with the sidecar files it had.
pub open spec fn original_in_archive(f: RecoveryFiles, wal: bool, shm: bool) -> bool {
    f.archive is Original && f.wal_at_archive == wal && f.shm_at_archive == shm
        && !f.wal_at_source && !f.shm_at_source
}

/// Whether the original database is complete in one place.
pub open spec fn original_kept(f: RecoveryFiles) -> bool {
    f.source is Original || f.archive is Original
}

/// What holds of a recovery and its files before each step.
pub open spec fn sound(r: Run, wal: bool, shm: bool) -> bool {
    let v = r.view;
    let f = r.files;
    &&& recovery_wf(v)
    &&& original_kept(f)
    &&& match v.step {
        RecoveryStep::Lock | RecoveryStep::Rebuild => original_in_place(f, wal, shm)
            && f.archive is Nothing,
        RecoveryStep::Unlock => original_in_place(f, wal, shm) && (v.error is None
            ==> f.temporary is Recovered),
        RecoveryStep::SyncTemporary
        | RecoveryStep::Close
        | RecoveryStep::ArchiveMain => original_in_place(f, wal, shm) && f.temporary
            is Recovered,
        RecoveryStep::ArchiveWal => f.archive is Original && f.source is Nothing && f.temporary
            is Recovered && f.wal_at_source == wal && f.shm_at_source == shm,
        RecoveryStep::ArchiveShm => f.archive is Original && f.source is Nothing && f.temporary
            is Recovered && !f.wal_at_source && f.wal_at_archive == wal && v.moved_wal == wal
            && f.shm_at_source == shm,
        RecoveryStep::UndoWal => f.archive is Original && f.wal_at_archive == wal
            && f.shm_at_source == shm && v.cause is Archiving,
        RecoveryStep::UndoMain => f.archive is Original && v.cause is Archiving && (!r.slipped
            ==> f.wal_at_source == wal && f.shm_at_source == shm),
        RecoveryStep::SyncArchive | RecoveryStep::Activate => original_in_archive(f, wal, shm)
            && f.source is Nothing && f.temporary is Recovered && v.moved_wal == wal
            && v.moved_shm == shm,
        RecoveryStep::SyncDirectory
        | RecoveryStep::Reopen
        | RecoveryStep::NameQuarantine
        | RecoveryStep::CloseRecovered
        | RecoveryStep::Quarantine => original_in_archive(f, wal, shm) && f.source is Recovered
            && v.moved_wal == wal && v.moved_shm == shm,
        RecoveryStep::RestoreMain => original_in_archive(f, wal, shm) && v.moved_wal == wal
            && v.moved_shm == shm,
        RecoveryStep::RestoreWal => f.source is Original && f.wal_at_archive == wal
            && f.shm_at_archive == shm && !f.shm_at_source && v.moved_wal == wal && v.moved_shm == shm,
        RecoveryStep::RestoreShm => f.source is Original && f.wal_at_source == wal
            && f.shm_at_archive == shm && v.moved_wal == wal && v.moved_shm == shm,
        RecoveryStep::ReopenOriginal => !r.slipped ==> original_in_place(f, wal, shm),
        RecoveryStep::RemoveTemporary | RecoveryStep::Failed => r.slipped || original_in_place(
            f,
            wal,
            shm,
        ) || v.error->Some_0.code() == Some("recovery_rollback_failed"@),
        RecoveryStep::Finished => original_in_archive(f, wal, shm) && f.source is Recovered,
    }
}

proof fn lemma_step_is_sound(r: Run, outcome: OutcomeView, wal: bool, shm: bool)
    requires
        sound(r, wal, shm),
        truthful(r, outcome),
    ensures
        sound(run_step(r, outcome), wal, shm),
{
}

proof fn lemma_run_is_sound(r: Run, outcomes: Seq<OutcomeView>, wal: bool, shm: bool)
    requires
        sound(r, wal, shm),
        all_truthful(r, outcomes),
    ensures
        sound(run_of(r, outcomes), wal, shm),
    decreases outcomes.len(),
{
    if outcomes.len() > 0 {
        lemma_step_is_sound(r, outcomes[0], wal, shm);
        lemma_run_is_sound(run_step(r, outcomes[0]), outcomes.drop_first(), wal, shm);
    }
}

/// A recovery never loses the original: whichever steps fail, the original
/// database is complete at its own path or in the archive.
pub proof fn lemma_recovery_keeps_the_original(wal: bool, shm: bool, outcomes: Seq<OutcomeView>)
    requires
        all_truthful(run_at_start(wal, shm), outcomes),
    ensures
        original_kept(run_of(run_at_start(wal, shm), outcomes).files),
{
    lemma_run_is_sound(run_at_start(wal, shm), outcomes, wal, shm);
}

/// A recovery that succeeds leaves the rebuilt database at the path, and the
/// original with its sidecar files in the archive.
pub proof fn lemma_recovery_activates_the_rebuilt(wal: bool, shm: bool, outcomes: Seq<OutcomeView>)
    requires
        all_truthful(run_at_start(wal, shm), outcomes),
        run_of(run_at_start(wal, shm), outcomes).view.step is Finished,
    ensures
        run_of(run_at_start(wal, shm), outcomes).files.source is Recovered,
        original_in_archive(run_of(run_at_start(wal, shm), outcomes).files, wal, shm),
        run_of(run_at_start(wal, shm), outcomes).view.rebuilt is Some,
{
    lemma_run_is_sound(run_at_start(wal, shm), outcomes, wal, shm);
}

/// A recovery that fails puts the original and its sidecar files back, or
/// reports that it could not; unless moving a file back after a failed move to
/// the archive, or finding a name for the quarantine, failed.
pub proof fn lemma_failed_recovery_restores_the_original(
    wal: bool,
    shm: bool,
    outcomes: Seq<OutcomeView>,
)
    requires
        all_truthful(run_at_start(wal, shm), outcomes),
        run_of(run_at_start(wal, shm), outcomes).view.step is Failed,
        !run_of(run_at_start(wal, shm), outcomes).slipped,
    ensures
        run_of(run_at_start(wal, shm), outcomes).view.error is Some,
        original_in_place(run_of(run_at_start(wal, shm), outcomes).files, wal, shm) || run_of(
            run_at_start(wal, shm),
            outcomes,
        ).view.error->Some_0.code() == Some("recovery_rollback_failed"@),
{
    lemma_run_is_sound(run_at_start(wal, shm), outcomes, wal, shm);
}

/// How many steps are left at most.
pub open spec fn steps_left(step: RecoveryStep) -> int {
    match step {
        RecoveryStep::Lock => 23,
        RecoveryStep::Rebuild => 22,
        RecoveryStep::Unlock => 21,
        RecoveryStep::SyncTemporary => 20,
        RecoveryStep::Close => 19,
        RecoveryStep::ArchiveMain => 18,
        RecoveryStep::ArchiveWal => 17,
        RecoveryStep::ArchiveShm => 16,
        RecoveryStep::UndoWal => 15,
        RecoveryStep::UndoMain => 14,
        RecoveryStep::SyncArchive => 13,
        RecoveryStep::Activate => 12,
        RecoveryStep::SyncDirectory => 11,
        RecoveryStep::Reopen => 10,
        RecoveryStep::NameQuarantine => 9,
        RecoveryStep::CloseRecovered => 8,
        RecoveryStep::Quarantine => 7,
        RecoveryStep::RestoreMain => 6,
        RecoveryStep::RestoreWal => 5,
        RecoveryStep::RestoreShm => 4,
        RecoveryStep::ReopenOriginal => 3,
        RecoveryStep::RemoveTemporary => 2,
        RecoveryStep::Failed => 0,
        RecoveryStep::Finished => 0,
    }
}

/// A recovery ends: each step leaves fewer to do, whichever way it went.
pub proof fn lemma_recovery_ends(v: RecoveryView, outcome: OutcomeView)
    requires
        !(v.step is Finished || v.step is Failed),
    ensures
        0 <= steps_left(after_step(v, outcome).step) < steps_left(v.step),
{
}

// ---------------------------------------------------------------------------
// How a recovery goes
// ---------------------------------------------------------------------------

/// A recovery may start on a database file that is open for writing here and
/// nowhere else, with an archive that is another path in its directory. Each
/// of the other requests is refused for the first thing that is wrong with it.
pub proof fn lemma_recoveries_are_admitted(
    mode: AccessMode,
    others_open: bool,
    path: Seq<char>,
    same_parent: bool,
    same_path: bool,
)
    ensures
        ({
            let refusal = recovery_refusal(mode, others_open, path, same_parent, same_path);
            let e = refusal->Some_0;
            &&& refusal is None <==> mode is ReadWrite && !others_open && path != ":memory:"@
                && same_parent && !same_path
            &&& mode is ReadOnly ==> e.kind() == Some(AdapterErrorKind::ReadOnly) && e.code()
                == Some("read_only"@)
            &&& mode is ReadWrite && others_open ==> e.kind() == Some(AdapterErrorKind::Conflict)
                && e.code() == Some("open_connections"@)
            &&& mode is ReadWrite && !others_open && path == ":memory:"@ ==> e.kind() == Some(
                AdapterErrorKind::Capability,
            ) && e.code() == Some("unsupported_memory_recovery"@)
            &&& mode is ReadWrite && !others_open && path != ":memory:"@ && !(same_parent
                && !same_path) ==> e.kind() == Some(AdapterErrorKind::InvalidOperation) && e.code()
                == Some("recovery_paths_must_share_parent"@)
        }),
{
}

/// A recovery in which every step succeeds: the database is rebuilt under a
/// lock, the copy is made durable, the connection is closed, the database, its
/// log and its shared memory go to the archive, the archive is made durable,
/// the copy takes the database's place, the directory is made durable and the
/// copy is opened. The result tells the versions that were read while
/// rebuilding, and both paths.
pub proof fn lemma_successful_recovery(
    result: RebuildResult,
    wal: bool,
    shm: bool,
    active_path: Seq<char>,
    archive_path: Seq<char>,
)
    ensures
        ({
            let done = OutcomeView::Done;
            let v0 = started();
            let v1 = after_step(v0, done);
            let v2 = after_step(v1, OutcomeView::Rebuilt(result));
            let v3 = after_step(v2, done);
            let v4 = after_step(v3, done);
            let v5 = after_step(v4, done);
            let v6 = after_step(v5, done);
            let v7 = after_step(v6, OutcomeView::Moved(wal));
            let v8 = after_step(v7, OutcomeView::Moved(shm));
            let v9 = after_step(v8, done);
            let v10 = after_step(v9, done);
            let v11 = after_step(v10, done);
            let end = after_step(v11, done);
            let told = recovered(end, active_path, archive_path);
            &&& v0.step is Lock && v1.step is Rebuild && v2.step is Unlock
            &&& v3.step is SyncTemporary && v4.step is Close && v5.step is ArchiveMain
            &&& v6.step is ArchiveWal && v7.step is ArchiveShm && v8.step is SyncArchive
            &&& v9.step is Activate && v10.step is SyncDirectory && v11.step is Reopen
            &&& end.step is Finished
            &&& told is Ok
            &&& told->Ok_0.active_path == active_path
            &&& told->Ok_0.preserved_original_path == archive_path
            &&& told->Ok_0.journal_mode is Delete
            &&& told->Ok_0.user_version == result.user_version
            &&& told->Ok_0.application_id == result.application_id
        }),
{
}

/// Whether a recovery removes the temporary file and then fails with an error,
/// whichever way the removal goes.
pub open spec fn fails_with(v: RecoveryView, e: ErrorView) -> bool {
    &&& v.step is RemoveTemporary
    &&& forall|removed: OutcomeView, active: Seq<char>, archive: Seq<char>|
        #![trigger recovered(after_step(v, removed), active, archive)]
        after_step(v, removed).step is Failed && recovered(after_step(v, removed), active, archive)
            == Err::<RecoveredView, ErrorView>(e)
}

/// Where locking the database, making the copy durable, closing the connection
/// or finding a name for the quarantine fails, the recovery fails with that
/// error.
pub proof fn lemma_plain_failures(v: RecoveryView, e: ErrorView)
    requires
        v.step is Lock || v.step is SyncTemporary || v.step is Close || v.step is NameQuarantine,
    ensures
        fails_with(after_step(v, OutcomeView::Failed(e)), e),
{
}

/// Where the rebuild fails, the lock is given back and the recovery fails with
/// the rebuild's error; where giving the lock back fails too, both are told.
/// Where only giving the lock back fails, that is told.
pub proof fn lemma_failed_rebuilds(
    v: RecoveryView,
    result: RebuildResult,
    e: ErrorView,
    f: ErrorView,
)
    requires
        v.step is Rebuild,
        v.error is None,
    ensures
        ({
            let unlocking = after_step(v, OutcomeView::Failed(e));
            &&& unlocking.step is Unlock
            &&& fails_with(after_step(unlocking, OutcomeView::Done), e)
            &&& fails_with(
                after_step(unlocking, OutcomeView::Failed(f)),
                ErrorView::Adapter {
                    kind: AdapterErrorKind::Storage,
                    code: Some("recovery_rollback_failed"@),
                    message: "SQLite recovery failed: "@ + e.text() + "; rollback failed: "@
                        + f.text(),
                },
            )
        }),
        fails_with(
            after_step(after_step(v, OutcomeView::Rebuilt(result)), OutcomeView::Failed(f)),
            ErrorView::Adapter {
                kind: AdapterErrorKind::Storage,
                code: Some("recovery_rollback_failed"@),
                message: "rollback SQLite recovery snapshot: "@ + f.text(),
            },
        ),
{
}

/// Where moving a file to the archive fails, what was moved is moved back, the
/// log before the database, whichever way that goes. Then the original is
/// opened again, and the recovery fails with the error of the move.
pub proof fn lemma_failed_archiving(
    v: RecoveryView,
    e: ErrorView,
    f: ErrorView,
    back: OutcomeView,
)
    requires
        v.step is ArchiveMain || v.step is ArchiveWal || v.step is ArchiveShm,
        back is Done || back is Failed,
    ensures
        ({
            let failed = after_step(v, OutcomeView::Failed(e));
            let main = if v.step is ArchiveShm && v.moved_wal {
                after_step(failed, back)
            } else {
                failed
            };
            let opening = if v.step is ArchiveMain {
                main
            } else {
                after_step(main, back)
            };
            &&& v.step is ArchiveShm && v.moved_wal ==> failed.step is UndoWal
            &&& !(v.step is ArchiveMain) ==> main.step is UndoMain
            &&& opening.step is ReopenOriginal
            &&& fails_with(after_step(opening, OutcomeView::Done), e)
            &&& fails_with(
                after_step(opening, OutcomeView::Failed(f)),
                ErrorView::Adapter {
                    kind: AdapterErrorKind::Storage,
                    code: Some("recovery_rollback_failed"@),
                    message: "SQLite recovery failed: "@ + e.text() + "; rollback failed: "@
                        + f.text(),
                },
            )
        }),
{
}

/// A recovery once the database and the sidecar files that were moved are
/// moved back from the archive.
pub open spec fn put_back(v: RecoveryView) -> RecoveryView {
    let main = after_step(v, OutcomeView::Done);
    let wal = if v.moved_wal {
        after_step(main, OutcomeView::Done)
    } else {
        main
    };
    if v.moved_shm {
        after_step(wal, OutcomeView::Done)
    } else {
        wal
    }
}

/// What was moved to the archive is moved back in order: the database, the log
/// if there was one, the shared memory if there was one. Then the original is
/// opened again. Where a move fails, that is told beside the error that is
/// being undone.
pub proof fn lemma_files_are_put_back(v: RecoveryView, e: ErrorView, f: ErrorView)
    requires
        v.step is RestoreMain,
        v.error == Some(e),
    ensures
        ({
            let main = after_step(v, OutcomeView::Done);
            let wal = if v.moved_wal {
                after_step(main, OutcomeView::Done)
            } else {
                main
            };
            let both = ErrorView::Adapter {
                kind: AdapterErrorKind::Storage,
                code: Some("recovery_rollback_failed"@),
                message: "SQLite recovery failed: "@ + e.text() + "; rollback failed: "@ + f.text(),
            };
            &&& v.moved_wal ==> main.step is RestoreWal
            &&& v.moved_shm ==> wal.step is RestoreShm
            &&& put_back(v).step is ReopenOriginal
            &&& fails_with(after_step(v, OutcomeView::Failed(f)), both)
            &&& v.moved_wal ==> fails_with(after_step(main, OutcomeView::Failed(f)), both)
            &&& v.moved_shm ==> fails_with(after_step(wal, OutcomeView::Failed(f)), both)
        }),
{
}

/// Where the archive cannot be made durable, or the copy cannot take the
/// database's place, the files are put back, the original is opened again, and
/// the recovery fails with that error. Where the original cannot be opened
/// again, that is told: beside the error if the archive was the reason.
pub proof fn lemma_failed_activation(v: RecoveryView, e: ErrorView, f: ErrorView)
    requires
        v.step is SyncArchive || v.step is Activate,
    ensures
        ({
            let restoring = after_step(v, OutcomeView::Failed(e));
            let opening = put_back(restoring);
            &&& restoring.step is RestoreMain && restoring.error == Some(e)
            &&& restoring.moved_wal == v.moved_wal && restoring.moved_shm == v.moved_shm
            &&& opening.step is ReopenOriginal
            &&& fails_with(after_step(opening, OutcomeView::Done), e)
            &&& fails_with(
                after_step(opening, OutcomeView::Failed(f)),
                if v.step is SyncArchive {
                    ErrorView::Adapter {
                        kind: AdapterErrorKind::Storage,
                        code: Some("recovery_rollback_failed"@),
                        message: "SQLite recovery failed: "@ + e.text() + "; rollback failed: "@
                            + f.text(),
                    }
                } else {
                    f
                },
            )
        }),
{
}

/// Where the recovered database is in place and its directory cannot be made
/// durable, or it cannot be opened, it goes to the quarantine, the files are
/// put back, the original is opened again, and the recovery fails with what
/// went wrong. What was opened of the recovered database is closed first.
pub proof fn lemma_failed_opening(v: RecoveryView, e: ErrorView, f: ErrorView)
    requires
        v.step is SyncDirectory || v.step is Reopen,
    ensures
        ({
            let naming = after_step(v, OutcomeView::Failed(e));
            let named = after_step(naming, OutcomeView::Done);
            let leaving = if v.step is Reopen {
                after_step(named, OutcomeView::Done)
            } else {
                named
            };
            let restoring = after_step(leaving, OutcomeView::Done);
            let opening = put_back(restoring);
            let both = ErrorView::Adapter {
                kind: AdapterErrorKind::Storage,
                code: Some("recovery_rollback_failed"@),
                message: "SQLite recovery failed: "@ + e.text() + "; rollback failed: "@ + f.text(),
            };
            &&& naming.step is NameQuarantine && naming.error == Some(e)
            &&& v.step is Reopen ==> named.step is CloseRecovered && fails_with(
                after_step(named, OutcomeView::Failed(f)),
                both,
            )
            &&& leaving.step is Quarantine
            &&& fails_with(after_step(leaving, OutcomeView::Failed(f)), both)
            &&& restoring.step is RestoreMain && restoring.error == Some(e)
            &&& restoring.moved_wal == v.moved_wal && restoring.moved_shm == v.moved_shm
            &&& opening.step is ReopenOriginal
            &&& fails_with(after_step(opening, OutcomeView::Failed(f)), f)
            &&& fails_with(
                after_step(opening, OutcomeView::Done),
                if v.step is SyncDirectory {
                    ErrorView::Adapter {
                        kind: AdapterErrorKind::Storage,
                        code: Some("recovery_sync_failed"@),
                        message: "sync recovered SQLite database before activation: "@ + e.text(),
                    }
                } else {
                    ErrorView::Adapter {
                        kind: AdapterErrorKind::Unavailable,
                        code: Some("recovery_reopen_failed"@),
                        message: "reopen recovered SQLite database: "@ + e.text(),
                    }
                },
            )
        }),
{
}

/// A refusal by the file system is told with what was being done.
pub proof fn lemma_refused_moves(reason: String, cause: Cause)
    ensures
        ({
            let told = |step: RecoveryStep|
                outcome_view(StepOutcome::Io(reason), step, cause)->Failed_0;
            let said = |label: Seq<char>| maintenance::filesystem_failure(label, reason@);
            &&& told(RecoveryStep::ArchiveMain) == said("preserve original SQLite database"@)
            &&& told(RecoveryStep::ArchiveWal) == said("preserve original SQLite WAL sidecar"@)
            &&& told(RecoveryStep::ArchiveShm) == said("preserve original SQLite SHM sidecar"@)
            &&& told(RecoveryStep::Activate) == said("activate recovered SQLite database"@)
            &&& told(RecoveryStep::SyncDirectory) == said("sync SQLite database directory"@)
            &&& cause is DirectorySync ==> told(RecoveryStep::Quarantine) == said(
                "quarantine unsynced recovered SQLite database"@,
            )
            &&& cause is Reopening ==> told(RecoveryStep::Quarantine) == said(
                "quarantine unreopenable recovered SQLite database"@,
            )
            &&& told(RecoveryStep::RestoreMain) == said("rollback original SQLite database"@)
            &&& told(RecoveryStep::RestoreWal) == said("rollback original SQLite WAL sidecar"@)
            &&& told(RecoveryStep::RestoreShm) == said("rollback original SQLite SHM sidecar"@)
        }),
        forall|step: RecoveryStep|
            outcome_view(StepOutcome::Io(reason), step, cause) is Failed,
{
}

/// A refusal by SQLite is told with what was being done, an error is told as
/// it is, and a success is no failure.
pub proof fn lemma_refused_statements(
    failure: SqliteFailure,
    e: DactylError,
    step: RecoveryStep,
    cause: Cause,
)
    ensures
        outcome_view(StepOutcome::Sqlite(failure), RecoveryStep::Lock, cause)
            == OutcomeView::Failed(statement::failure_error("begin SQLite recovery"@, failure)),
        outcome_view(StepOutcome::Sqlite(failure), RecoveryStep::Unlock, cause)
            == OutcomeView::Failed(
            statement::failure_error("rollback SQLite recovery snapshot"@, failure),
        ),
        outcome_view(StepOutcome::Sqlite(failure), RecoveryStep::Close, cause)
            == OutcomeView::Failed(statement::failure_error("close SQLite database"@, failure)),
        outcome_view(StepOutcome::Refused(e), step, cause) == OutcomeView::Failed(e@),
        outcome_view(StepOutcome::Done, step, cause) == OutcomeView::Done,
        forall|moved: bool|
            outcome_view(StepOutcome::Moved(moved), step, cause) == OutcomeView::Moved(moved),
        forall|result: RebuildResult|
            outcome_view(StepOutcome::Rebuilt(result), step, cause) == OutcomeView::Rebuilt(result),
{
}

} // verus!
