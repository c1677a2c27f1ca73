//! Sync code and notes over SSH: the verified core of codesync.
pub mod auth;
pub mod browser;
pub mod cli;
pub mod commands;
pub mod config;
pub mod destination;
pub mod dialogs;
pub mod home;
pub mod job;
pub mod discovery;
pub mod endpoint;
pub mod ip;
pub mod jobs;
pub mod merge;
pub mod order;
pub mod platform;
pub mod setup;
pub mod shell;
pub mod standalone;
pub mod store;
pub mod sync_job;
pub mod sync_run;
pub mod tailscale;
pub mod text;
pub mod update;
pub mod viewer;

pub use config::Config;
pub use destination::{rsync_destination, ssh_destination};
pub use shell::quote;
