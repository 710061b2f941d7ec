//! What every backend adapter decides alike.

use vstd::prelude::*;

use crate::contract::{AccessMode, Operation};
use crate::error::{AdapterErrorKind, DactylError, ErrorView};

verus! {

/// The error for a change on a read-only route.
pub open spec fn read_only() -> ErrorView {
    crate::error::plain(AdapterErrorKind::ReadOnly, "route is read-only"@)
}

/// Refuse a change on a read-only route.
pub fn ensure_writable(mode: AccessMode) -> (r: Result<(), DactylError>)
    ensures
        mode is ReadOnly ==> r is Err && r->Err_0@ == read_only(),
        mode is ReadWrite ==> r is Ok,
{
    if mode == AccessMode::ReadOnly {
        Err(DactylError::adapter(AdapterErrorKind::ReadOnly, "route is read-only"))
    } else {
        Ok(())
    }
}

/// How an atomic batch runs.
#[derive(Debug, Clone, Copy, PartialEq, Eq, Structural)]
pub enum BatchStart {
    /// The batch is empty: there is nothing to do.
    Nothing,
    /// Every operation is a read.
    ReadOnly,
    /// An operation may change the store.
    Mutating,
}

/// How a batch runs, or why it is refused.
pub open spec fn batch_start(
    operations: Seq<crate::contract::OperationView>,
    mode: AccessMode,
) -> Result<BatchStart, ErrorView> {
    if operations.len() == 0 {
        Ok(BatchStart::Nothing)
    } else if !crate::contract::mutates(operations) {
        Ok(BatchStart::ReadOnly)
    } else if mode is ReadOnly {
        Err(read_only())
    } else {
        Ok(BatchStart::Mutating)
    }
}

/// Decide how a batch runs.
pub fn begin_batch(operations: &[Operation], mode: AccessMode) -> (r: Result<
    BatchStart,
    DactylError,
>)
    ensures
        match batch_start(crate::contract::operation_views(operations@), mode) {
            Ok(start) => r is Ok && r->Ok_0 == start,
            Err(e) => r is Err && r->Err_0@ == e,
        },
{
    if operations.len() == 0 {
        return Ok(BatchStart::Nothing);
    }
    if !crate::contract::batch_mutates(operations) {
        return Ok(BatchStart::ReadOnly);
    }
    match ensure_writable(mode) {
        Ok(()) => Ok(BatchStart::Mutating),
        Err(e) => Err(e),
    }
}

/// A read-only route refuses every batch that holds an operation other than a
/// read, and runs every other batch.
pub proof fn lemma_read_only_route_refuses_changes(
    operations: Seq<crate::contract::OperationView>,
)
    ensures
        batch_start(operations, AccessMode::ReadOnly) is Err <==> crate::contract::mutates(
            operations,
        ),
        batch_start(operations, AccessMode::ReadOnly) is Err ==> batch_start(
            operations,
            AccessMode::ReadOnly,
        )->Err_0 == read_only(),
{
    if operations.len() == 0 {
        assert(!crate::contract::mutates(operations));
    }
}

/// The error for a local-store operation on another backend.
pub open spec fn local_only(code: Seq<char>, message: Seq<char>) -> ErrorView {
    crate::error::coded(AdapterErrorKind::Capability, code, message)
}

/// The answer of a backend that cannot inspect its schema.
pub fn unsupported_schema_inspection() -> (r: DactylError)
    ensures
        r@ == local_only(
            "unsupported_schema_inspection"@,
            "schema inspection is a local-store operation"@,
        ),
{
    DactylError::adapter_with_code(
        AdapterErrorKind::Capability,
        "unsupported_schema_inspection",
        "schema inspection is a local-store operation",
    )
}

/// The answer of a backend that cannot verify its integrity.
pub fn unsupported_integrity_verification() -> (r: DactylError)
    ensures
        r@ == local_only(
            "unsupported_integrity_verification"@,
            "integrity verification is a local SQLite operation"@,
        ),
{
    DactylError::adapter_with_code(
        AdapterErrorKind::Capability,
        "unsupported_integrity_verification",
        "integrity verification is a local SQLite operation",
    )
}

/// The answer of a backend that cannot be backed up.
pub fn unsupported_backup() -> (r: DactylError)
    ensures
        r@ == local_only(
            "unsupported_backup"@,
            "SQLite backup is unavailable for this datastore"@,
        ),
{
    DactylError::adapter_with_code(
        AdapterErrorKind::Capability,
        "unsupported_backup",
        "SQLite backup is unavailable for this datastore",
    )
}

/// The answer of a backend that cannot be recovered.
pub fn unsupported_recovery() -> (r: DactylError)
    ensures
        r@ == local_only(
            "unsupported_recovery"@,
            "SQLite dump-reload recovery is unavailable for this datastore"@,
        ),
{
    DactylError::adapter_with_code(
        AdapterErrorKind::Capability,
        "unsupported_recovery",
        "SQLite dump-reload recovery is unavailable for this datastore",
    )
}

/// How a batch starts, case by case: an empty one not at all; one of reads
/// alone without changing the store, over any route; any other as a change,
/// and only over a route that may be written to.
pub proof fn lemma_batches_start(
    operations: Seq<crate::contract::OperationView>,
    mode: AccessMode,
)
    ensures
        ({
            let start = batch_start(operations, mode);
            let reads = forall|i: int|
                0 <= i < operations.len() ==> (#[trigger] operations[i]).kind
                    == crate::contract::OperationKind::Read;
            &&& operations.len() == 0 ==> start == Ok::<BatchStart, ErrorView>(BatchStart::Nothing)
            &&& operations.len() > 0 && reads ==> start == Ok::<BatchStart, ErrorView>(
                BatchStart::ReadOnly,
            )
            &&& !reads && mode == AccessMode::ReadWrite ==> start == Ok::<BatchStart, ErrorView>(
                BatchStart::Mutating,
            )
            &&& !reads && mode == AccessMode::ReadOnly ==> start is Err && start->Err_0.kind()
                == Some(AdapterErrorKind::ReadOnly) && start->Err_0.code() is None
        }),
{
    crate::contract::lemma_changing_batches(operations);
}

} // verus!
