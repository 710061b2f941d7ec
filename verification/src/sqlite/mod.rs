//! The local SQLite backend.

pub mod backup;
pub mod batch;
pub mod bytes;
pub mod catalog;
pub mod cells;
pub mod damage;
pub mod format;
pub mod import;
pub mod inspect;
pub mod keywords;
pub mod load;
pub mod maintenance;
pub mod open;
pub mod publish;
pub mod reader;
pub mod rebuild;
pub mod recovery;
pub mod statement;
pub mod stores;
pub mod survey;
