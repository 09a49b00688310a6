//! The vault engine behind a password manager: the rules by which a KDBX
//! vault is mirrored into a local database, reconciled with the vaults of
//! other devices, and watched for changes made by others.

pub mod change_laws;
pub mod codec;
pub mod conflict_laws;
pub mod conflict_resolution;
pub mod conflict_rows;
pub mod copying;
pub mod crypto;
pub mod decision_laws;
pub mod details;
pub mod engine;
pub mod engine_access;
pub mod engine_laws;
pub mod error;
pub mod events;
pub mod file_watcher;
pub mod fingerprint;
pub mod history_snapshot;
pub mod ingest;
pub mod key_provider;
pub mod listing_laws;
pub mod message_laws;
pub mod meta;
pub mod meta_laws;
pub mod meta_tables;
pub mod migrations;
pub mod mirror;
pub mod model;
pub mod order;
pub mod peer;
pub mod peer_laws;
pub mod properties;
pub mod pull_laws;
pub mod queries;
pub mod reading;
pub mod reading_laws;
pub mod refusal_laws;
pub mod report_laws;
pub mod row_laws;
pub mod rows;
pub mod settings;
pub mod shown_laws;
pub mod table;
pub mod table_laws;
pub mod text;
pub mod time;
pub mod told_laws;
pub mod value_laws;
pub mod vault;
pub mod vault_laws;
