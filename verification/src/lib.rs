//! The verified core of Workbench: lanes, the pull-request diff engine,
//! notification rules, the daily-note carry-forward, and the poll cadence.

pub mod text;
pub mod db;
pub mod notify;
pub mod notes;
pub mod error;
pub mod github;
pub mod sync;
pub mod config;
pub mod auth;
pub mod state;
pub mod tray;
pub mod keychain;
pub mod commands;
