[package]
name = "dactyl_db"
version = "0.8.0"
edition = "2021"
publish = false

[dependencies]
serde = { version = "1", features = ["derive"] }
serde_json = "1"
thiserror = "2"
libloading = "0.8"
reqwest = { version = "0.12", default-features = false, features = ["blocking", "json"] }
rusqlite = { version = "0.32", features = ["bundled"] }
syn = { version = "2", features = ["full", "parsing", "printing", "proc-macro"] }
quote = "1"
proc-macro2 = "1"
