use servicetray::autostart::{
    linux_autostart_dir, linux_desktop_entry, linux_desktop_file, macos_launch_agent_plist,
    macos_launch_agents_dir, macos_plist_file, windows_shortcut_file, windows_shortcut_script,
    windows_startup_dir,
};

#[test]
fn linux_entry_location_and_content() {
    assert_eq!(linux_autostart_dir("/home/u"), "/home/u/.config/autostart");
    assert_eq!(linux_desktop_file("/home/u"), "/home/u/.config/autostart/servicetray.desktop");
    assert_eq!(
        linux_desktop_entry("/opt/servicetray"),
        "[Desktop Entry]\nType=Application\nName=Service Tray\nExec=/opt/servicetray \nX-GNOME-Autostart-enabled=true\nNoDisplay=false\n"
    );
}

#[test]
fn macos_agent_location_and_content() {
    assert_eq!(macos_launch_agents_dir("/Users/u"), "/Users/u/Library/LaunchAgents");
    assert_eq!(
        macos_plist_file("/Users/u"),
        "/Users/u/Library/LaunchAgents/com.servicetray.startup.plist"
    );
    let plist = macos_launch_agent_plist("/Applications/st");
    assert!(plist.starts_with("<?xml version=\"1.0\" encoding=\"UTF-8\"?>\n"));
    assert!(plist.contains("  <array>\n    <string>/Applications/st</string>\n  </array>\n"));
    assert!(plist.ends_with("<key>RunAtLoad</key>\n  <true/>\n</dict>\n</plist>"));
}

#[test]
fn windows_shortcut_location_and_script() {
    assert_eq!(
        windows_startup_dir("C:\\Users\\u\\AppData\\Roaming"),
        "C:\\Users\\u\\AppData\\Roaming\\Microsoft\\Windows\\Start Menu\\Programs\\Startup"
    );
    assert_eq!(
        windows_shortcut_file("C:\\R\\"),
        "C:\\R\\Microsoft\\Windows\\Start Menu\\Programs\\Startup\\servicetray.lnk"
    );
    assert_eq!(
        windows_shortcut_script("C:\\s.lnk", "C:\\st.exe", "C:\\"),
        "$s=(New-Object -ComObject WScript.Shell).CreateShortcut('C:\\s.lnk');$s.TargetPath='C:\\st.exe';$s.WorkingDirectory='C:\\';$s.Save()"
    );
}
