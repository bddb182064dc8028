use std::path::PathBuf;

use servicetray::config::{
    default_working_dir, expand_tilde, expand_tilde_arg, AppConfig, ProgramConfig,
};
use servicetray::paths::{is_absolute, push_path, PathStyle, PathStyle::Unix, PathStyle::Windows};
use servicetray::watcher::resolve_watch_path;

const HOME: &str = "/home/tester";

#[test]
fn working_dir_priority() {
    let mut app_config = AppConfig::default();
    app_config.working_dir = "~/global".to_string();
    let mut p1 = ProgramConfig {
        name: "p1".to_string(),
        path: "p1.exe".to_string(),
        args: None,
        service_url: None,
        watch_paths: None,
        working_dir: None,
    };
    let p2 = p1.clone();
    p1.working_dir = Some("~/p1_cwd".to_string());
    app_config.programs = vec![p1, p2];
    assert_eq!(
        app_config.programs[0].effective_working_dir(&app_config.working_dir),
        "~/p1_cwd"
    );
    assert_eq!(
        app_config.programs[1].effective_working_dir(&app_config.working_dir),
        "~/global"
    );
    assert_eq!(AppConfig::default().working_dir, "~");
}

#[test]
fn test_expand_tilde() {
    let home = PathBuf::from(HOME);
    assert_eq!(PathBuf::from(expand_tilde(Unix, "~", Some(HOME))), home);
    let expected = home.join("bin").join("app");
    assert_eq!(PathBuf::from(expand_tilde(Unix, "~/bin/app", Some(HOME))), expected);
    assert_eq!(PathBuf::from(expand_tilde(Unix, "~\\bin\\app", Some(HOME))), expected);
    assert_eq!(
        PathBuf::from(expand_tilde(Unix, "custom_bin", Some(HOME))),
        PathBuf::from("custom_bin")
    );
}

#[test]
fn test_expand_tilde_arg() {
    let home = PathBuf::from(HOME);
    assert_eq!(expand_tilde_arg(Unix, "--flag", Some(HOME)), "--flag");
    let expected_path = home.join("data").to_string_lossy().into_owned();
    assert_eq!(expand_tilde_arg(Unix, "~/data", Some(HOME)), expected_path);
    let expected_opt = format!("--dir={expected_path}");
    assert_eq!(expand_tilde_arg(Unix, "--dir=~/data", Some(HOME)), expected_opt);
    assert_eq!(expand_tilde_arg(Unix, "--foo=bar", Some(HOME)), "--foo=bar");
}

#[test]
fn test_program_config_log_path() {
    let exe_dir = "/opt/servicetray";
    let prog = ProgramConfig {
        name: "test-app".to_string(),
        path: "test.exe".to_string(),
        args: None,
        service_url: None,
        watch_paths: None,
        working_dir: None,
    };
    let expected = PathBuf::from(exe_dir).join("logs").join("test-app.log");
    assert_eq!(PathBuf::from(prog.log_path(Unix, exe_dir)), expected);
}

#[test]
fn test_resolve_watch_path() {
    let home = PathBuf::from(HOME);
    let base = "/base/dir";
    assert_eq!(
        PathBuf::from(resolve_watch_path(Unix, "~/my_watch", base, Some(HOME))),
        home.join("my_watch")
    );
    assert_eq!(
        PathBuf::from(resolve_watch_path(Unix, "relative_watch", base, Some(HOME))),
        PathBuf::from(base).join("relative_watch")
    );
}

#[test]
fn expand_tilde_edge_cases() {
    // Without a home directory `~` stands for `.`.
    assert_eq!(expand_tilde(Unix, "~", None), ".");
    assert_eq!(expand_tilde(Unix, "~/x", None), "./x");
    assert_eq!(PathBuf::from(expand_tilde(Unix, "~/bin/app", None)), PathBuf::from(".").join("bin").join("app"));
    // A leading `.` component is kept, as path components keep it.
    assert_eq!(expand_tilde(Unix, "~/./a", Some(HOME)), "/home/tester/./a");
    assert_eq!(expand_tilde(Unix, "~/.", Some(HOME)), "/home/tester/.");
    // Empty and `.` components are dropped; a rooted rest starts over at `/`.
    assert_eq!(expand_tilde(Unix, "~/a//./b/", Some(HOME)), "/home/tester/a/b");
    assert_eq!(expand_tilde(Unix, "~/", Some(HOME)), "/home/tester");
    assert_eq!(expand_tilde(Unix, "~//etc", Some(HOME)), "/etc");
    // A home ending in a separator gets none added.
    assert_eq!(expand_tilde(Unix, "~/x", Some("/")), "/x");
    // `~user` is not a tilde path.
    assert_eq!(expand_tilde(Unix, "~user/x", Some(HOME)), "~user/x");
}

#[test]
fn expand_tilde_arg_edge_cases() {
    assert_eq!(expand_tilde_arg(Unix, "~", Some(HOME)), HOME);
    // Only the first `=` splits the argument.
    assert_eq!(expand_tilde_arg(Unix, "a=~/b=c", Some(HOME)), "a=/home/tester/b=c");
    assert_eq!(expand_tilde_arg(Unix, "a=b=~/c", Some(HOME)), "a=b=~/c");
    assert_eq!(expand_tilde_arg(Unix, "--dir=~", Some(HOME)), "--dir=/home/tester");
    assert_eq!(expand_tilde_arg(Unix, "--dir=~", None), "--dir=.");
    // Expanding twice changes nothing more.
    let once = expand_tilde_arg(Unix, "--dir=~/data", Some(HOME));
    assert_eq!(expand_tilde_arg(Unix, &once, Some(HOME)), once);
}

#[test]
fn config_path_prefers_portable_file() {
    assert_eq!(
        AppConfig::get_config_path(Unix, "/opt/st", Some(HOME), true),
        "/opt/st/config.json"
    );
    assert_eq!(
        AppConfig::get_config_path(Unix, "/opt/st", Some(HOME), false),
        "/home/tester/.config/servicetray.json"
    );
    assert_eq!(
        AppConfig::get_config_path(Unix, "/opt/st", None, false),
        "./.config/servicetray.json"
    );
    assert_eq!(AppConfig::portable_config_path(Unix, "/opt/st/"), "/opt/st/config.json");
}

#[test]
fn default_and_fallback_configuration() {
    let d = AppConfig::default();
    assert!(d.programs.is_empty());
    assert!(!d.autostart);
    assert_eq!(d.log_level, None);
    assert!(!d.save_log_file);
    assert_eq!(default_working_dir(), "~");

    let fallback = AppConfig::loaded_or_default(None);
    assert_eq!(fallback.working_dir, "~");
    let mut custom = AppConfig::default();
    custom.autostart = true;
    let kept = AppConfig::loaded_or_default(Some(custom));
    assert!(kept.autostart);
}

#[test]
fn program_equality_and_copy() {
    let p = ProgramConfig {
        name: "a".to_string(),
        path: "a.exe".to_string(),
        args: Some(vec!["-v".to_string()]),
        service_url: Some("http://localhost:1".to_string()),
        watch_paths: None,
        working_dir: Some("~".to_string()),
    };
    let q = p.clone();
    assert_eq!(p, q);
    assert!(p.same_as(&q));
    let mut r = p.copy();
    r.args = Some(vec!["-q".to_string()]);
    assert_ne!(p, r);
    assert!(!p.same_as(&r));
}

#[test]
fn log_path_with_absolute_name_replaces_directory() {
    let prog = ProgramConfig {
        name: "/tmp/x".to_string(),
        path: "x".to_string(),
        args: None,
        service_url: None,
        watch_paths: None,
        working_dir: None,
    };
    assert_eq!(prog.log_path(Unix, "/opt/st"), "/tmp/x.log");
}

#[test]
fn windows_absolute_watch_path_is_kept() {
    let base = "C:\\Users\\u\\.config";
    assert_eq!(resolve_watch_path(Windows, "C:\\proj\\src", base, None), "C:\\proj\\src");
    assert_eq!(resolve_watch_path(Windows, "D:/data", base, None), "D:/data");
    assert_eq!(resolve_watch_path(Windows, "\\\\srv\\share\\w", base, None), "\\\\srv\\share\\w");
    assert_eq!(resolve_watch_path(Windows, "src", base, None), "C:\\Users\\u\\.config\\src");
    // A rooted path keeps only the drive of the base.
    assert_eq!(resolve_watch_path(Windows, "\\proj", base, None), "C:\\proj");
    // On Unix a drive is an ordinary name.
    assert_eq!(resolve_watch_path(Unix, "C:\\proj", "/base", None), "/base/C:\\proj");
}

#[test]
fn windows_path_rules() {
    assert!(is_absolute(Windows, "C:\\x"));
    assert!(is_absolute(Windows, "c:/x"));
    assert!(!is_absolute(Windows, "C:x"));
    assert!(!is_absolute(Windows, "\\x"));
    assert!(is_absolute(Windows, "\\\\server\\share"));
    assert!(!is_absolute(Windows, "\\\\server"));
    assert!(!is_absolute(Unix, "C:\\x"));
    assert!(is_absolute(Unix, "/x"));
    // A bare drive gets no separator; a drive-relative path replaces the base.
    assert_eq!(push_path(Windows, "C:", "x"), "C:x");
    assert_eq!(push_path(Windows, "C:\\a", "D:x"), "D:x");
    assert_eq!(push_path(Windows, "C:\\a", "b"), "C:\\a\\b");
    assert_eq!(push_path(Windows, "C:\\a\\", "b"), "C:\\a\\b");
    assert_eq!(push_path(Windows, "\\\\srv\\share\\a", "\\b"), "\\\\srv\\share\\b");
    assert_eq!(push_path(Unix, "/a", "b"), "/a/b");
    assert_eq!(push_path(Unix, "/a", "/b"), "/b");
    assert_eq!(push_path(PathStyle::Unix, "", "b"), "b");
}

#[test]
fn windows_tilde_expansion() {
    let home = Some("C:\\Users\\u");
    assert_eq!(expand_tilde(Windows, "~\\bin\\app", home), "C:\\Users\\u\\bin\\app");
    assert_eq!(expand_tilde(Windows, "~/bin/app", home), "C:\\Users\\u\\bin\\app");
    // A rooted rest keeps the drive of the home directory.
    assert_eq!(expand_tilde(Windows, "~\\\\etc", home), "C:\\etc");
    assert_eq!(expand_tilde_arg(Windows, "--dir=~/d", home), "--dir=C:\\Users\\u\\d");
    assert_eq!(
        AppConfig::get_config_path(Windows, "C:\\st", home, false),
        "C:\\Users\\u\\.config\\servicetray.json"
    );
}
