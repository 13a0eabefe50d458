//! Verified core of ConnectSync, an end-to-end encrypted folder synchroniser
//! for Google Drive: the decision logic of the sync engine, the per-device
//! sync state, conflict bookkeeping, update checks and the helper formats the
//! desktop application relies on.

pub mod text;
pub mod limits;
pub mod codec;
pub mod paths;
pub mod strmap;
pub mod scopes;
pub mod manifest;
pub mod sync_state;
pub mod sync_ctl;
pub mod conflicts;
pub mod drive_missing;
pub mod updater;
pub mod crypto;
pub mod drive;
pub mod chunker;
pub mod engine;
pub mod update_ui;
pub mod progress;
pub mod config;
pub mod auth;
pub mod desktop;
pub mod i18n;
pub mod mobile;
