//! Verified core of a system-tray service supervisor: configuration model,
//! path handling, process bookkeeping, change debouncing and menu planning.

pub mod autostart;
pub mod cli;
pub mod config;
pub mod event;
pub mod log;
pub mod paths;
pub mod process;
pub mod table;
pub mod text;
pub mod tray;
pub mod watcher;
