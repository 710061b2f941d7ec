//! Dactyl: a lightweight storage driver for local SQLite and remote Neon
//! routes.
//!
//! The driver owns backend selection, parameter binding, response
//! normalization, physical atomic batches, access mode, and local durability.
//! It does not own schema policy, migration ids or order, retries, analytics,
//! or business logic.

pub mod __private;
pub mod adapter;
pub mod arguments;
pub mod config;
pub mod contract;
pub mod error;
pub mod json;
pub mod literal;
pub mod neon;
pub mod parameter;
pub mod query;
pub mod route;
pub mod rows;
pub mod schema;
pub mod sqlite;
pub mod text;
pub mod value;

pub use crate::config::DactylConfig;
pub use crate::contract::{
    AccessMode, AtomicResult, BackupResult, GeneratedKey, IntegrityReport, OpenOptions, Operation,
    OperationKind, OperationResult, RecoveryJournalMode, RecoveryOptions, RecoveryResult,
    StorageContext, WriteResult, STORAGE_CONTEXT_VERSION,
};
pub use crate::error::{AdapterErrorKind, DactylError};
pub use crate::parameter::Parameter;
pub use crate::route::{Datastore, DatastoreRoute};
pub use crate::rows::{Row, RowIndex, Rows};
pub use crate::schema::{
    ColumnSchema, ForeignKeyAction, ForeignKeySchema, IndexSchema, StoreSchema, TableSchema,
};
pub use crate::value::{Number, Value};
