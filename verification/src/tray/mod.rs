//! Decisions of the tray application: how configuration changes map onto the
//! running processes, what a menu click does, and what the menu shows.

pub mod app;
pub mod menu;
