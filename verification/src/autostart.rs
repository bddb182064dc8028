//! Start at login: where each platform keeps the entry that launches the tray,
//! and what the entry says.

use vstd::prelude::*;
use vstd::string::*;
use crate::paths::{PathStyle, spec_push_path, push_path};

verus! {

/// `<home>/.config/autostart`, the directory of login entries on Linux.
pub open spec fn spec_linux_autostart_dir(home: Seq<char>) -> Seq<char> {
    spec_push_path(PathStyle::Unix, spec_push_path(PathStyle::Unix, home, ".config"@), "autostart"@)
}

/// `<home>/.config/autostart/servicetray.desktop`.
pub open spec fn spec_linux_desktop_file(home: Seq<char>) -> Seq<char> {
    spec_push_path(PathStyle::Unix, spec_linux_autostart_dir(home), "servicetray.desktop"@)
}

/// The directory that holds login entries on Linux.
pub fn linux_autostart_dir(home: &str) -> (r: String)
    ensures
        r@ == spec_linux_autostart_dir(home@),
{
    let config = push_path(PathStyle::Unix, home, ".config");
    push_path(PathStyle::Unix, config.as_str(), "autostart")
}

/// The login entry of the tray on Linux.
pub fn linux_desktop_file(home: &str) -> (r: String)
    ensures
        r@ == spec_linux_desktop_file(home@),
{
    let dir = linux_autostart_dir(home);
    push_path(PathStyle::Unix, dir.as_str(), "servicetray.desktop")
}

/// The desktop entry that launches `exe` at login.
pub open spec fn spec_desktop_entry(exe: Seq<char>) -> Seq<char> {
    "[Desktop Entry]\nType=Application\nName=Service Tray\nExec="@ + exe
        + " \nX-GNOME-Autostart-enabled=true\nNoDisplay=false\n"@
}

/// The desktop entry that launches `exe` at login.
pub fn linux_desktop_entry(exe: &str) -> (r: String)
    ensures
        r@ == spec_desktop_entry(exe@),
{
    let mut r = "[Desktop Entry]\nType=Application\nName=Service Tray\nExec=".to_string();
    r.append(exe);
    r.append(" \nX-GNOME-Autostart-enabled=true\nNoDisplay=false\n");
    r
}

/// `<home>/Library/LaunchAgents`, the directory of login agents on macOS.
pub open spec fn spec_macos_launch_agents_dir(home: Seq<char>) -> Seq<char> {
    spec_push_path(PathStyle::Unix, spec_push_path(PathStyle::Unix, home, "Library"@), "LaunchAgents"@)
}

/// `<home>/Library/LaunchAgents/com.servicetray.startup.plist`.
pub open spec fn spec_macos_plist_file(home: Seq<char>) -> Seq<char> {
    spec_push_path(PathStyle::Unix, spec_macos_launch_agents_dir(home), "com.servicetray.startup.plist"@)
}

/// The directory that holds login agents on macOS.
pub fn macos_launch_agents_dir(home: &str) -> (r: String)
    ensures
        r@ == spec_macos_launch_agents_dir(home@),
{
    let library = push_path(PathStyle::Unix, home, "Library");
    push_path(PathStyle::Unix, library.as_str(), "LaunchAgents")
}

/// The login agent of the tray on macOS.
pub fn macos_plist_file(home: &str) -> (r: String)
    ensures
        r@ == spec_macos_plist_file(home@),
{
    let dir = macos_launch_agents_dir(home);
    push_path(PathStyle::Unix, dir.as_str(), "com.servicetray.startup.plist")
}

/// The launch agent that runs `exe` at load.
pub open spec fn spec_launch_agent_plist(exe: Seq<char>) -> Seq<char> {
    "<?xml version=\"1.0\" encoding=\"UTF-8\"?>\n<!DOCTYPE plist PUBLIC \"-//Apple//DTD PLIST 1.0//EN\" \"http://www.apple.com/DTDs/PropertyList-1.0.dtd\">\n<plist version=\"1.0\">\n<dict>\n  <key>Label</key>\n  <string>com.servicetray.startup</string>\n  <key>ProgramArguments</key>\n  <array>\n    <string>"@
        + exe + "</string>\n  </array>\n  <key>RunAtLoad</key>\n  <true/>\n</dict>\n</plist>"@
}

/// The launch agent that runs `exe` at load.
pub fn macos_launch_agent_plist(exe: &str) -> (r: String)
    ensures
        r@ == spec_launch_agent_plist(exe@),
{
    let mut r = "<?xml version=\"1.0\" encoding=\"UTF-8\"?>\n<!DOCTYPE plist PUBLIC \"-//Apple//DTD PLIST 1.0//EN\" \"http://www.apple.com/DTDs/PropertyList-1.0.dtd\">\n<plist version=\"1.0\">\n<dict>\n  <key>Label</key>\n  <string>com.servicetray.startup</string>\n  <key>ProgramArguments</key>\n  <array>\n    <string>".to_string();
    r.append(exe);
    r.append("</string>\n  </array>\n  <key>RunAtLoad</key>\n  <true/>\n</dict>\n</plist>");
    r
}

/// `<appdata>\Microsoft\Windows\Start Menu\Programs\Startup`, the per-user
/// startup folder on Windows.
pub open spec fn spec_windows_startup_dir(appdata: Seq<char>) -> Seq<char> {
    let w = PathStyle::Windows;
    spec_push_path(
        w,
        spec_push_path(
            w,
            spec_push_path(w, spec_push_path(w, spec_push_path(w, appdata, "Microsoft"@), "Windows"@), "Start Menu"@),
            "Programs"@,
        ),
        "Startup"@,
    )
}

/// `<startup folder>\servicetray.lnk`.
pub open spec fn spec_windows_shortcut_file(appdata: Seq<char>) -> Seq<char> {
    spec_push_path(PathStyle::Windows, spec_windows_startup_dir(appdata), "servicetray.lnk"@)
}

/// The per-user startup folder on Windows.
pub fn windows_startup_dir(appdata: &str) -> (r: String)
    ensures
        r@ == spec_windows_startup_dir(appdata@),
{
    let a = push_path(PathStyle::Windows, appdata, "Microsoft");
    let b = push_path(PathStyle::Windows, a.as_str(), "Windows");
    let c = push_path(PathStyle::Windows, b.as_str(), "Start Menu");
    let d = push_path(PathStyle::Windows, c.as_str(), "Programs");
    push_path(PathStyle::Windows, d.as_str(), "Startup")
}

/// The startup shortcut of the tray on Windows.
pub fn windows_shortcut_file(appdata: &str) -> (r: String)
    ensures
        r@ == spec_windows_shortcut_file(appdata@),
{
    let dir = windows_startup_dir(appdata);
    push_path(PathStyle::Windows, dir.as_str(), "servicetray.lnk")
}

/// The PowerShell command that saves a shortcut at `shortcut` to `exe`,
/// started in `working_dir`.
pub open spec fn spec_shortcut_script(shortcut: Seq<char>, exe: Seq<char>, working_dir: Seq<char>) -> Seq<char> {
    "$s=(New-Object -ComObject WScript.Shell).CreateShortcut('"@ + shortcut + "');$s.TargetPath='"@
        + exe + "';$s.WorkingDirectory='"@ + working_dir + "';$s.Save()"@
}

/// The PowerShell command that creates the startup shortcut.
pub fn windows_shortcut_script(shortcut: &str, exe: &str, working_dir: &str) -> (r: String)
    ensures
        r@ == spec_shortcut_script(shortcut@, exe@, working_dir@),
{
    let mut r = "$s=(New-Object -ComObject WScript.Shell).CreateShortcut('".to_string();
    r.append(shortcut);
    r.append("');$s.TargetPath='");
    r.append(exe);
    r.append("';$s.WorkingDirectory='");
    r.append(working_dir);
    r.append("';$s.Save()");
    r
}

} // verus!
