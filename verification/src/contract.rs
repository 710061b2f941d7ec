//! Backend-neutral physical operations.
//!
//! These types deliberately stop at the storage boundary. Callers own schema
//! policy, migration ordering, retry policy, and domain meaning; the driver
//! owns only execution, atomicity, access mode, and result normalization.

use vstd::prelude::*;

use crate::error::{AdapterErrorKind, DactylError, ErrorView};
use crate::parameter::{Parameter, ParameterView};
use crate::rows::{Rows, RowView};
use crate::value::{Value, ValueView};

verus! {

/// The first version of the opaque storage-context envelope.
pub const STORAGE_CONTEXT_VERSION: u16 = 1;

/// Caller-owned context forwarded to a remote storage service.
///
/// Only the envelope is validated: the version must be non-zero and the
/// payload must be a JSON object. The payload's fields and meaning belong to
/// the caller and the remote service.
#[derive(Debug, Clone, PartialEq, Eq)]
pub struct StorageContext {
    version: u16,
    payload: Value,
}

/// What a [`StorageContext`] says.
#[verifier::ext_equal]
pub ghost struct ContextView {
    pub version: u16,
    pub payload: ValueView,
}

impl ContextView {
    /// Why an envelope is refused, if it is.
    pub open spec fn fault(self) -> Option<ErrorView> {
        if self.version == 0 {
            Some(
                crate::error::coded(
                    AdapterErrorKind::Protocol,
                    "invalid_context"@,
                    "storage context version must be non-zero"@,
                ),
            )
        } else if !(self.payload is Object) {
            Some(
                crate::error::coded(
                    AdapterErrorKind::Protocol,
                    "invalid_context"@,
                    "storage context payload must be a JSON object"@,
                ),
            )
        } else {
            None
        }
    }
}

impl StorageContext {
    pub closed spec fn view(self) -> ContextView {
        ContextView { version: self.version, payload: self.payload@ }
    }

    /// Build a versioned opaque context without adopting its domain schema.
    pub fn new(version: u16, payload: Value) -> (r: Result<Self, DactylError>)
        ensures
            match (ContextView { version, payload: payload@ }).fault() {
                Some(e) => r is Err && r->Err_0@ == e,
                None => r is Ok && r->Ok_0@ == (ContextView { version, payload: payload@ }),
            },
    {
        let context = StorageContext { version, payload };
        match context.validate() {
            Ok(()) => Ok(context),
            Err(e) => Err(e),
        }
    }

    /// An envelope as it was received, before it is validated.
    pub fn received(version: u16, payload: Value) -> (r: Self)
        ensures
            r@ == (ContextView { version, payload: payload@ }),
    {
        StorageContext { version, payload }
    }

    pub fn version(&self) -> (r: u16)
        ensures
            r == self@.version,
    {
        self.version
    }

    /// Return the untouched caller-owned payload.
    pub fn payload(&self) -> (r: &Value)
        ensures
            r@ == self@.payload,
    {
        &self.payload
    }

    /// Check the envelope.
    pub fn validate(&self) -> (r: Result<(), DactylError>)
        ensures
            match self@.fault() {
                Some(e) => r is Err && r->Err_0@ == e,
                None => r is Ok,
            },
    {
        if self.version == 0 {
            return Err(
                DactylError::adapter_with_code(
                    AdapterErrorKind::Protocol,
                    "invalid_context",
                    "storage context version must be non-zero",
                ),
            );
        }
        if !self.payload.is_object() {
            return Err(
                DactylError::adapter_with_code(
                    AdapterErrorKind::Protocol,
                    "invalid_context",
                    "storage context payload must be a JSON object",
                ),
            );
        }
        Ok(())
    }
}

/// Whether an opened route may mutate durable state.
#[derive(Debug, Clone, Copy, PartialEq, Eq, Structural)]
pub enum AccessMode {
    ReadWrite,
    ReadOnly,
}

impl Default for AccessMode {
    fn default() -> (r: Self)
        ensures
            r == AccessMode::ReadWrite,
    {
        AccessMode::ReadWrite
    }
}

/// The physical kind of an operation. Schema operations are caller-supplied
/// and are not migrations: they get neither ids nor an order.
#[derive(Debug, Clone, Copy, PartialEq, Eq, Structural)]
pub enum OperationKind {
    Read,
    Write,
    Schema,
}

/// An opaque, backend-neutral operation.
#[derive(Debug, Clone, PartialEq, Eq)]
pub struct Operation {
    kind: OperationKind,
    sql: String,
    params: Vec<Parameter>,
}

/// What an [`Operation`] says.
#[verifier::ext_equal]
pub ghost struct OperationView {
    pub kind: OperationKind,
    pub sql: Seq<char>,
    pub params: Seq<ParameterView>,
}

/// What a sequence of operations says.
pub open spec fn operation_views(operations: Seq<Operation>) -> Seq<OperationView> {
    operations.map_values(|o: Operation| o@)
}

/// Whether an operation of the sequence is not a read.
pub open spec fn mutates(operations: Seq<OperationView>) -> bool {
    exists|i: int| 0 <= i < operations.len() && !((#[trigger] operations[i]).kind is Read)
}

impl Operation {
    pub closed spec fn view(self) -> OperationView {
        OperationView {
            kind: self.kind,
            sql: self.sql@,
            params: crate::parameter::parameter_views(self.params@),
        }
    }

    /// The operation that these three make.
    pub open spec fn made_of(
        self,
        kind: OperationKind,
        sql: String,
        params: Vec<Parameter>,
    ) -> bool {
        self@ == (OperationView {
            kind,
            sql: sql@,
            params: crate::parameter::parameter_views(params@),
        })
    }

    pub fn read<S: Into<String>, P: Into<Vec<Parameter>>>(sql: S, params: P) -> (r: Self)
        ensures
            exists|s: String, p: Vec<Parameter>|
                #![trigger r.made_of(OperationKind::Read, s, p)]
                call_ensures(<S as Into<String>>::into, (sql,), s) && call_ensures(
                    <P as Into<Vec<Parameter>>>::into,
                    (params,),
                    p,
                ) && r.made_of(OperationKind::Read, s, p),
    {
        let s: String = sql.into();
        let p: Vec<Parameter> = params.into();
        let operation = Operation { kind: OperationKind::Read, sql: s, params: p };
        assert(operation.made_of(OperationKind::Read, s, p));
        operation
    }

    pub fn write<S: Into<String>, P: Into<Vec<Parameter>>>(sql: S, params: P) -> (r: Self)
        ensures
            exists|s: String, p: Vec<Parameter>|
                #![trigger r.made_of(OperationKind::Write, s, p)]
                call_ensures(<S as Into<String>>::into, (sql,), s) && call_ensures(
                    <P as Into<Vec<Parameter>>>::into,
                    (params,),
                    p,
                ) && r.made_of(OperationKind::Write, s, p),
    {
        let s: String = sql.into();
        let p: Vec<Parameter> = params.into();
        let operation = Operation { kind: OperationKind::Write, sql: s, params: p };
        assert(operation.made_of(OperationKind::Write, s, p));
        operation
    }

    pub fn schema<S: Into<String>, P: Into<Vec<Parameter>>>(sql: S, params: P) -> (r: Self)
        ensures
            exists|s: String, p: Vec<Parameter>|
                #![trigger r.made_of(OperationKind::Schema, s, p)]
                call_ensures(<S as Into<String>>::into, (sql,), s) && call_ensures(
                    <P as Into<Vec<Parameter>>>::into,
                    (params,),
                    p,
                ) && r.made_of(OperationKind::Schema, s, p),
    {
        let s: String = sql.into();
        let p: Vec<Parameter> = params.into();
        let operation = Operation { kind: OperationKind::Schema, sql: s, params: p };
        assert(operation.made_of(OperationKind::Schema, s, p));
        operation
    }

    /// An operation of a given kind.
    pub fn of_kind(kind: OperationKind, sql: String, params: Vec<Parameter>) -> (r: Self)
        ensures
            r.made_of(kind, sql, params),
    {
        Operation { kind, sql, params }
    }

    pub fn kind(&self) -> (r: OperationKind)
        ensures
            r == self@.kind,
    {
        self.kind
    }

    pub fn sql(&self) -> (r: &str)
        ensures
            r@ == self@.sql,
    {
        self.sql.as_str()
    }

    pub fn params(&self) -> (r: &[Parameter])
        ensures
            crate::parameter::parameter_views(r@) == self@.params,
    {
        self.params.as_slice()
    }
}

/// Whether an operation of the batch is not a read.
pub fn batch_mutates(operations: &[Operation]) -> (r: bool)
    ensures
        r == mutates(operation_views(operations@)),
{
    let ghost all = operation_views(operations@);
    let mut i: usize = 0;
    while i < operations.len()
        invariant
            i <= operations@.len(),
            all == operation_views(operations@),
            forall|k: int| 0 <= k < i ==> (#[trigger] all[k]).kind is Read,
        decreases operations@.len() - i,
    {
        assert(all[i as int] == operations@[i as int]@);
        if operations[i].kind() != OperationKind::Read {
            return true;
        }
        i = i + 1;
    }
    false
}

/// A generated key explicitly returned by a write, never an ambient handle.
#[derive(Debug, Clone, PartialEq, Eq)]
pub enum GeneratedKey {
    Integer(i64),
    Text(String),
}

/// What a [`GeneratedKey`] says.
#[verifier::ext_equal]
pub ghost enum KeyView {
    Integer(i64),
    Text(Seq<char>),
}

impl GeneratedKey {
    pub open spec fn view(self) -> KeyView {
        match self {
            GeneratedKey::Integer(n) => KeyView::Integer(n),
            GeneratedKey::Text(s) => KeyView::Text(s@),
        }
    }
}

/// The normalized result of one physical write.
#[derive(Debug, Clone, PartialEq, Eq)]
pub struct WriteResult {
    pub affected_rows: u64,
    pub generated_keys: Vec<GeneratedKey>,
}

/// What a [`WriteResult`] says.
#[verifier::ext_equal]
pub ghost struct WriteView {
    pub affected_rows: u64,
    pub generated_keys: Seq<KeyView>,
}

impl Default for WriteResult {
    fn default() -> (r: Self)
        ensures
            r@ == (WriteView { affected_rows: 0, generated_keys: Seq::empty() }),
    {
        let r = WriteResult { affected_rows: 0, generated_keys: Vec::new() };
        assert(r@.generated_keys =~= Seq::<KeyView>::empty());
        r
    }
}

impl WriteResult {
    pub open spec fn view(self) -> WriteView {
        WriteView {
            affected_rows: self.affected_rows,
            generated_keys: self.generated_keys@.map_values(|k: GeneratedKey| k@),
        }
    }

    /// The first generated key.
    pub fn generated_key(&self) -> (r: Option<&GeneratedKey>)
        ensures
            match r {
                Some(key) => self.generated_keys@.len() > 0 && *key == self.generated_keys@[0]
                    && Some(key@) == first_key(self@.generated_keys),
                None => self.generated_keys@.len() == 0 && first_key(self@.generated_keys) is None,
            },
    {
        if self.generated_keys.len() == 0 {
            None
        } else {
            Some(&self.generated_keys[0])
        }
    }
}

/// A result in an atomic batch, preserving operation order.
#[derive(Debug, Clone, PartialEq, Eq)]
pub enum OperationResult {
    Rows(Rows),
    Write(WriteResult),
}

/// What an [`OperationResult`] says.
#[verifier::ext_equal]
pub ghost enum ResultView {
    Rows(Seq<RowView>),
    Write(WriteView),
}

impl OperationResult {
    pub open spec fn view(self) -> ResultView {
        match self {
            OperationResult::Rows(rows) => ResultView::Rows(crate::rows::row_views(rows.0@)),
            OperationResult::Write(write) => ResultView::Write(write@),
        }
    }
}

/// What a sequence of results says.
pub open spec fn result_views(results: Seq<OperationResult>) -> Seq<ResultView> {
    results.map_values(|r: OperationResult| r@)
}

/// The result of an opaque atomic batch.
#[derive(Debug, Clone, PartialEq, Eq)]
pub struct AtomicResult {
    pub results: Vec<OperationResult>,
}

impl Default for AtomicResult {
    fn default() -> (r: Self)
        ensures
            r.results@.len() == 0,
    {
        AtomicResult { results: Vec::new() }
    }
}

/// Options that affect physical opening, not migration or application policy.
#[derive(Debug, Clone, Copy, PartialEq, Eq, Structural)]
pub struct OpenOptions {
    pub access_mode: AccessMode,
    /// How long to wait for a lock, in milliseconds.
    pub lock_timeout_millis: u128,
}

impl Default for OpenOptions {
    fn default() -> (r: Self)
        ensures
            r == (OpenOptions { access_mode: AccessMode::ReadWrite, lock_timeout_millis: 250 }),
    {
        OpenOptions { access_mode: AccessMode::ReadWrite, lock_timeout_millis: 250 }
    }
}

/// The journal mode selected for a recovered SQLite database.
///
/// Logical dump/reload recovery activates the replacement in rollback-journal
/// mode. Re-enabling WAL is a separate, explicit caller operation after the
/// recovered connection has been reopened.
#[derive(Debug, Clone, Copy, PartialEq, Eq, Structural)]
pub enum RecoveryJournalMode {
    Delete,
}

/// Explicit operator input for logical SQLite recovery.
#[derive(Debug, Clone, PartialEq, Eq)]
pub struct RecoveryOptions {
    /// A new path at which the original database file and any `-wal`/`-shm`
    /// sidecars are preserved before the replacement is activated.
    pub preserve_original_at: String,
    /// The journal mode used by the replacement.
    pub journal_mode: RecoveryJournalMode,
}

impl RecoveryOptions {
    pub fn new<S: Into<String>>(
        preserve_original_at: S,
        journal_mode: RecoveryJournalMode,
    ) -> (r: Self)
        ensures
            call_ensures(
                <S as Into<String>>::into,
                (preserve_original_at,),
                r.preserve_original_at,
            ),
            r.journal_mode == journal_mode,
    {
        RecoveryOptions { preserve_original_at: preserve_original_at.into(), journal_mode }
    }
}

/// A successful SQLite integrity verification.
#[derive(Debug, Clone, PartialEq, Eq)]
pub struct IntegrityReport {
    pub journal_mode: String,
    pub user_version: i64,
    pub application_id: i64,
}

/// The result of an online SQLite backup.
#[derive(Debug, Clone, PartialEq, Eq)]
pub struct BackupResult {
    pub destination: String,
    pub source_journal_mode: String,
    pub destination_journal_mode: String,
    pub bytes: u64,
}

/// The result of a verified, atomically activated logical recovery.
#[derive(Debug, Clone, PartialEq, Eq)]
pub struct RecoveryResult {
    pub active_path: String,
    pub preserved_original_path: String,
    pub journal_mode: RecoveryJournalMode,
    pub user_version: i64,
    pub application_id: i64,
}

/// Which contexts may be sent: those with a version from 1 on whose payload is
/// a JSON object. Any other is refused as an invalid context.
pub proof fn lemma_valid_contexts(context: ContextView)
    ensures
        context.fault() is None <==> 1 <= context.version && match context.payload {
            ValueView::Object(_) => true,
            ValueView::Null => false,
            ValueView::Bool(_) => false,
            ValueView::Number(_) => false,
            ValueView::Text(_) => false,
            ValueView::Array(_) => false,
        },
        context.fault() is Some ==> context.fault()->Some_0.kind() == Some(
            AdapterErrorKind::Protocol,
        ) && context.fault()->Some_0.code() == Some("invalid_context"@),
{
}

/// A batch changes the store unless every operation of it is a read.
pub proof fn lemma_changing_batches(operations: Seq<OperationView>)
    ensures
        !mutates(operations) <==> forall|i: int|
            0 <= i < operations.len() ==> (#[trigger] operations[i]).kind == OperationKind::Read,
{
    if !mutates(operations) {
        assert forall|i: int| 0 <= i < operations.len() implies (#[trigger] operations[i]).kind
            == OperationKind::Read by {}
    }
}

/// The first of generated keys, if there is one.
pub open spec fn first_key(keys: Seq<KeyView>) -> Option<KeyView> {
    if keys.len() == 0 {
        None
    } else {
        Some(keys[0])
    }
}

/// The key that a write tells is the one that was generated first: keys that
/// were generated after it do not change it.
pub proof fn lemma_first_key(key: KeyView, more: Seq<KeyView>)
    ensures
        first_key(Seq::empty()) is None,
        first_key(seq![key] + more) == Some(key),
{
}

} // verus!
