//! Replacing a database file by its converted snapshot.
//!
//! The replacement is written beside the file, the file is moved aside as a
//! backup, and the replacement takes its place. The steps are decided here;
//! the caller performs each on the file system and reports how it went.

use vstd::prelude::*;

use crate::error::{AdapterErrorKind, DactylError, ErrorView};
use crate::sqlite::bytes;

verus! {

/// What is to be done next.
#[derive(Debug, Clone, Copy, PartialEq, Eq, Structural)]
pub enum PublishAction {
    /// Remove a temporary file that an earlier run left. How it goes does not
    /// matter.
    ClearTemporary,
    /// Write the converted snapshot to the temporary file.
    WriteTemporary,
    /// Remove the backup of an earlier conversion.
    RemoveOldBackup,
    /// Move the source aside as the backup.
    MoveSourceToBackup,
    /// Move the temporary file into the source's place.
    MoveTemporaryToSource,
    /// Move the backup back into the source's place. How it goes does not
    /// matter.
    RestoreSource,
    /// Remove the temporary file. How it goes does not matter.
    DropTemporary,
    /// Nothing: the snapshot is published.
    Finished,
    /// Nothing: the source is as it was.
    Failed,
}

/// What a file holds.
pub ghost enum Content {
    Nothing,
    /// The database that is being converted.
    Source,
    /// The converted snapshot.
    Snapshot,
    /// What an earlier run left.
    Leftover,
}

/// What the three files hold.
pub ghost struct Files {
    pub source: Content,
    pub temporary: Content,
    pub backup: Content,
}

/// What the files hold once an action has succeeded.
pub open spec fn performed(action: PublishAction, files: Files) -> Files {
    match action {
        PublishAction::ClearTemporary | PublishAction::DropTemporary => Files {
            temporary: Content::Nothing,
            ..files
        },
        PublishAction::WriteTemporary => Files { temporary: Content::Snapshot, ..files },
        PublishAction::RemoveOldBackup => Files { backup: Content::Nothing, ..files },
        PublishAction::MoveSourceToBackup => Files {
            source: Content::Nothing,
            backup: files.source,
            ..files
        },
        PublishAction::MoveTemporaryToSource => Files {
            source: files.temporary,
            temporary: Content::Nothing,
            ..files
        },
        PublishAction::RestoreSource => Files {
            source: files.backup,
            backup: Content::Nothing,
            ..files
        },
        _ => files,
    }
}

/// The action that follows an action that went this way.
pub open spec fn following(
    action: PublishAction,
    succeeded: bool,
    backup_exists: bool,
) -> PublishAction {
    match action {
        PublishAction::ClearTemporary => PublishAction::WriteTemporary,
        PublishAction::WriteTemporary => if !succeeded {
            PublishAction::DropTemporary
        } else if backup_exists {
            PublishAction::RemoveOldBackup
        } else {
            PublishAction::MoveSourceToBackup
        },
        PublishAction::RemoveOldBackup => if succeeded {
            PublishAction::MoveSourceToBackup
        } else {
            PublishAction::DropTemporary
        },
        PublishAction::MoveSourceToBackup => if succeeded {
            PublishAction::MoveTemporaryToSource
        } else {
            PublishAction::DropTemporary
        },
        PublishAction::MoveTemporaryToSource => if succeeded {
            PublishAction::Finished
        } else {
            PublishAction::RestoreSource
        },
        PublishAction::RestoreSource => PublishAction::DropTemporary,
        PublishAction::DropTemporary => PublishAction::Failed,
        PublishAction::Finished => PublishAction::Finished,
        PublishAction::Failed => PublishAction::Failed,
    }
}

/// What a failed action is reported as, where a failure matters.
pub open spec fn failure_label(action: PublishAction) -> Option<Seq<char>> {
    match action {
        PublishAction::WriteTemporary => Some("write import temp: "@),
        PublishAction::RemoveOldBackup => Some("replace previous backup: "@),
        PublishAction::MoveSourceToBackup => Some("backup source: "@),
        PublishAction::MoveTemporaryToSource => Some("replace destination: "@),
        _ => None,
    }
}

/// The error for a replacement that failed.
pub open spec fn replacement_failed(message: Seq<char>) -> ErrorView {
    crate::error::coded(AdapterErrorKind::Storage, "replacement_failed"@, message)
}

/// The error for a replacement that failed.
pub fn replacement_error(label: &str, reason: &str) -> (r: DactylError)
    ensures
        r@ == replacement_failed(label@ + reason@),
{
    bytes::coded(
        AdapterErrorKind::Storage,
        "replacement_failed",
        label.to_string().concat(reason).as_str(),
    )
}

/// What holds of the files before each action: the source is complete in one
/// place at any time.
pub open spec fn sound(action: PublishAction, files: Files) -> bool {
    match action {
        PublishAction::ClearTemporary
        | PublishAction::WriteTemporary
        | PublishAction::Failed => files.source is Source,
        PublishAction::RemoveOldBackup | PublishAction::MoveSourceToBackup => files.source is Source
            && files.temporary is Snapshot,
        PublishAction::MoveTemporaryToSource => files.backup is Source && files.temporary
            is Snapshot && files.source is Nothing,
        PublishAction::RestoreSource => files.backup is Source,
        PublishAction::DropTemporary => files.source is Source,
        PublishAction::Finished => files.source is Snapshot && files.backup is Source,
    }
}

/// How a replacement goes on.
pub ghost struct Progress {
    pub action: PublishAction,
    pub files: Files,
    /// Whether moving the source back failed.
    pub stranded: bool,
}

/// How an action went.
pub ghost struct Event {
    pub succeeded: bool,
    /// Whether the backup of an earlier conversion stands in the way.
    pub backup_exists: bool,
}

/// A replacement once its action went one way.
pub open spec fn progressed(p: Progress, event: Event) -> Progress {
    Progress {
        action: following(p.action, event.succeeded, event.backup_exists),
        files: if event.succeeded {
            performed(p.action, p.files)
        } else {
            p.files
        },
        stranded: p.stranded || (p.action is RestoreSource && !event.succeeded),
    }
}

/// A replacement about to start.
pub open spec fn replacement_started(files: Files) -> Progress {
    Progress { action: PublishAction::ClearTemporary, files, stranded: false }
}

/// A replacement after actions that went these ways.
pub open spec fn progress(p: Progress, events: Seq<Event>) -> Progress
    decreases events.len(),
{
    if events.len() == 0 {
        p
    } else {
        progress(progressed(p, events[0]), events.drop_first())
    }
}

proof fn lemma_progress_is_sound(p: Progress, events: Seq<Event>)
    requires
        p.files.source is Source || p.files.backup is Source,
        !p.stranded ==> sound(p.action, p.files),
        p.stranded ==> p.files.backup is Source && (p.action is DropTemporary || p.action
            is Failed),
    ensures
        progress(p, events).files.source is Source || progress(p, events).files.backup is Source,
        !progress(p, events).stranded ==> sound(
            progress(p, events).action,
            progress(p, events).files,
        ),
        progress(p, events).stranded ==> progress(p, events).action is DropTemporary || progress(
            p,
            events,
        ).action is Failed,
    decreases events.len(),
{
    if events.len() > 0 {
        lemma_progress_is_sound(progressed(p, events[0]), events.drop_first());
    }
}

/// A replacement leaves the source authoritative until the snapshot is in
/// place. Whichever actions fail, the source stays complete, in its place or
/// as the backup; a replacement that succeeds ends with the snapshot in place
/// and the source as the backup; and one that fails ends with the source in
/// its place, unless moving it back failed too.
pub proof fn lemma_replacement_keeps_the_source(files: Files, events: Seq<Event>)
    requires
        files.source is Source,
    ensures
        ({
            let end = progress(replacement_started(files), events);
            &&& end.files.source is Source || end.files.backup is Source
            &&& end.action is Finished ==> end.files.source is Snapshot && end.files.backup
                is Source
            &&& end.action is Failed ==> end.files.source is Source || end.stranded
        }),
{
    lemma_progress_is_sound(replacement_started(files), events);
}

/// A replacement in progress.
pub struct Publisher {
    action: PublishAction,
    failure: Option<DactylError>,
}

/// What a [`Publisher`] says.
#[verifier::ext_equal]
pub ghost struct PublisherView {
    pub action: PublishAction,
    pub failure: Option<ErrorView>,
}

/// A replacement after an action went one way. The first failure that matters
/// is the one that is reported.
pub open spec fn after_publish(
    p: PublisherView,
    outcome: Result<(), Seq<char>>,
    backup_exists: bool,
) -> PublisherView {
    PublisherView {
        action: following(p.action, outcome is Ok, backup_exists),
        failure: if p.failure is None && outcome is Err && failure_label(p.action) is Some {
            Some(replacement_failed(failure_label(p.action)->Some_0 + outcome->Err_0))
        } else {
            p.failure
        },
    }
}

/// Whether a replacement that is being undone knows why.
pub open spec fn explained(p: PublisherView) -> bool {
    p.action is RestoreSource || p.action is DropTemporary || p.action is Failed
        ==> p.failure is Some
}

/// A replacement that fails reports why.
pub proof fn lemma_failure_is_explained(
    p: PublisherView,
    outcome: Result<(), Seq<char>>,
    backup_exists: bool,
)
    requires
        explained(p),
    ensures
        explained(after_publish(p, outcome, backup_exists)),
{
}

impl Publisher {
    pub closed spec fn view(self) -> PublisherView {
        PublisherView {
            action: self.action,
            failure: match self.failure {
                Some(e) => Some(e@),
                None => None,
            },
        }
    }

    /// A replacement about to start.
    pub fn new() -> (r: Self)
        ensures
            r@ == (PublisherView { action: PublishAction::ClearTemporary, failure: None }),
    {
        Publisher { action: PublishAction::ClearTemporary, failure: None }
    }

    /// What is to be done next.
    pub fn action(&self) -> (r: PublishAction)
        ensures
            r == self@.action,
    {
        self.action
    }

    /// Take note of how the action went. `backup_exists` says whether the
    /// backup of an earlier conversion stands in the way.
    pub fn advance(&mut self, outcome: Result<(), String>, backup_exists: bool)
        ensures
            final(self)@ == after_publish(
                old(self)@,
                match outcome {
                    Ok(()) => Ok(()),
                    Err(reason) => Err(reason@),
                },
                backup_exists,
            ),
    {
        let action: PublishAction = self.action;
        let succeeded: bool = outcome.is_ok();
        if self.failure.is_none() {
            if let Err(reason) = outcome {
                self.failure = match action {
                    PublishAction::WriteTemporary => Some(
                        replacement_error("write import temp: ", reason.as_str()),
                    ),
                    PublishAction::RemoveOldBackup => Some(
                        replacement_error("replace previous backup: ", reason.as_str()),
                    ),
                    PublishAction::MoveSourceToBackup => Some(
                        replacement_error("backup source: ", reason.as_str()),
                    ),
                    PublishAction::MoveTemporaryToSource => Some(
                        replacement_error("replace destination: ", reason.as_str()),
                    ),
                    _ => None,
                };
            }
        }
        self.action = match action {
            PublishAction::ClearTemporary => PublishAction::WriteTemporary,
            PublishAction::WriteTemporary => if !succeeded {
                PublishAction::DropTemporary
            } else if backup_exists {
                PublishAction::RemoveOldBackup
            } else {
                PublishAction::MoveSourceToBackup
            },
            PublishAction::RemoveOldBackup => if succeeded {
                PublishAction::MoveSourceToBackup
            } else {
                PublishAction::DropTemporary
            },
            PublishAction::MoveSourceToBackup => if succeeded {
                PublishAction::MoveTemporaryToSource
            } else {
                PublishAction::DropTemporary
            },
            PublishAction::MoveTemporaryToSource => if succeeded {
                PublishAction::Finished
            } else {
                PublishAction::RestoreSource
            },
            PublishAction::RestoreSource => PublishAction::DropTemporary,
            PublishAction::DropTemporary => PublishAction::Failed,
            PublishAction::Finished => PublishAction::Finished,
            PublishAction::Failed => PublishAction::Failed,
        };
    }

    /// Why the replacement failed, if it did.
    pub fn into_failure(self) -> (r: Option<DactylError>)
        ensures
            match self@.failure {
                Some(e) => r is Some && r->Some_0@ == e,
                None => r is None,
            },
    {
        self.failure
    }
}

/// The path of the temporary file for a replacement.
pub fn temporary_name(path: &str) -> (r: String)
    ensures
        r@ == temporary_path(path@),
{
    path.to_string().concat(".import.tmp")
}

/// The path of the backup of a replaced file.
pub fn backup_name(path: &str) -> (r: String)
    ensures
        r@ == backup_path(path@),
{
    path.to_string().concat(".legacy-sqlite")
}

// ---------------------------------------------------------------------------
// How a replacement goes
// ---------------------------------------------------------------------------

/// A replacement in which every move succeeds: the snapshot is written beside
/// the source, the backup of an earlier conversion is removed if one stands in
/// the way, the source becomes the backup, and the snapshot takes its place.
/// Whether an old temporary file could be cleared does not matter, and nothing
/// is reported.
pub proof fn lemma_successful_replacement(
    p: PublisherView,
    cleared: Result<(), Seq<char>>,
    backup_exists: bool,
)
    requires
        p.action is ClearTemporary,
        p.failure is None,
    ensures
        ({
            let done = Ok::<(), Seq<char>>(());
            let writing = after_publish(p, cleared, backup_exists);
            let written = after_publish(writing, done, backup_exists);
            let moving = if backup_exists {
                after_publish(written, done, backup_exists)
            } else {
                written
            };
            let replacing = after_publish(moving, done, backup_exists);
            let end = after_publish(replacing, done, backup_exists);
            &&& writing.action is WriteTemporary
            &&& backup_exists ==> written.action is RemoveOldBackup
            &&& moving.action is MoveSourceToBackup
            &&& replacing.action is MoveTemporaryToSource
            &&& end.action is Finished
            &&& end.failure is None
        }),
{
}

/// A replacement that fails while the source is still in its place drops the
/// temporary file and ends, and one that fails once the source was moved puts
/// it back first. What is reported is what failed and the reason for it,
/// whichever way the clearing up goes.
pub proof fn lemma_failed_replacement(
    p: PublisherView,
    reason: Seq<char>,
    cleared: Result<(), Seq<char>>,
    backup_exists: bool,
)
    requires
        p.failure is None,
        p.action is WriteTemporary || p.action is RemoveOldBackup || p.action is MoveSourceToBackup
            || p.action is MoveTemporaryToSource,
    ensures
        ({
            let failed = after_publish(p, Err(reason), backup_exists);
            let dropping = if p.action is MoveTemporaryToSource {
                after_publish(failed, cleared, backup_exists)
            } else {
                failed
            };
            let end = after_publish(dropping, cleared, backup_exists);
            &&& p.action is MoveTemporaryToSource ==> failed.action is RestoreSource
            &&& dropping.action is DropTemporary
            &&& end.action is Failed
            &&& end.failure == failed.failure
            &&& failed.failure is Some
            &&& failed.failure->Some_0.kind() == Some(AdapterErrorKind::Storage)
            &&& failed.failure->Some_0.code() == Some("replacement_failed"@)
            &&& p.action is WriteTemporary ==> failed.failure->Some_0->Adapter_message
                == "write import temp: "@ + reason
            &&& p.action is RemoveOldBackup ==> failed.failure->Some_0->Adapter_message
                == "replace previous backup: "@ + reason
            &&& p.action is MoveSourceToBackup ==> failed.failure->Some_0->Adapter_message
                == "backup source: "@ + reason
            &&& p.action is MoveTemporaryToSource ==> failed.failure->Some_0->Adapter_message
                == "replace destination: "@ + reason
        }),
{
}

/// A replacement that is over stays as it ended.
pub proof fn lemma_ended_replacement(
    p: PublisherView,
    outcome: Result<(), Seq<char>>,
    backup_exists: bool,
)
    requires
        p.action is Finished || p.action is Failed,
    ensures
        after_publish(p, outcome, backup_exists) == p,
{
}

/// The path of the temporary file for a replacement.
pub open spec fn temporary_path(path: Seq<char>) -> Seq<char> {
    path + ".import.tmp"@
}

/// The path of the backup of a replaced file.
pub open spec fn backup_path(path: Seq<char>) -> Seq<char> {
    path + ".legacy-sqlite"@
}

/// The three files of a replacement are different files beside each other:
/// each of the other two has the path of the first with an ending.
pub proof fn lemma_replacement_paths(path: Seq<char>)
    ensures
        temporary_path(path) == path + ".import.tmp"@,
        backup_path(path) == path + ".legacy-sqlite"@,
        temporary_path(path) != path && backup_path(path) != path,
        temporary_path(path) != backup_path(path),
{
    reveal_strlit(".import.tmp");
    reveal_strlit(".legacy-sqlite");
    assert(".import.tmp"@.len() == 11);
    assert(".legacy-sqlite"@.len() == 14);
}

} // verus!
