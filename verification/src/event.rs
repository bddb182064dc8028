//! Events passed between the watchers, the menu and the tray event loop.

use vstd::prelude::*;
use crate::config::AppConfig;

verus! {

/// Events delivered to the tray event loop.
#[derive(Debug)]
pub enum CustomEvent {
    /// The configuration was reloaded; carries the configuration before the reload.
    ConfigUpdated(AppConfig),
    /// A watched file of the named program changed.
    RestartProgramByWatcher(String),
    /// The menu should be rebuilt.
    RefreshMenu,
}

/// What a menu item does when clicked.
#[derive(Debug)]
pub enum MenuAction {
    OpenUrl(String),
    OpenLog(String),
    RestartProgram(String),
    OpenConfig,
    ToggleAutostart,
    Exit,
}

impl Clone for MenuAction {
    fn clone(&self) -> (r: Self)
        ensures
            r == *self,
    {
        match self {
            MenuAction::OpenUrl(u) => MenuAction::OpenUrl(u.clone()),
            MenuAction::OpenLog(p) => MenuAction::OpenLog(p.clone()),
            MenuAction::RestartProgram(n) => MenuAction::RestartProgram(n.clone()),
            MenuAction::OpenConfig => MenuAction::OpenConfig,
            MenuAction::ToggleAutostart => MenuAction::ToggleAutostart,
            MenuAction::Exit => MenuAction::Exit,
        }
    }
}

} // verus!
