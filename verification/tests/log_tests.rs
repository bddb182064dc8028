use servicetray::cli::Args;
use servicetray::config::AppConfig;
use servicetray::log::{log_settings, LogLevel};
use std::str::FromStr;
use tracing::level_filters::LevelFilter;

fn level_for(setting: &str) -> LogLevel {
    let args = Args { log_level: Some(setting.to_string()), save_log_file: None };
    log_settings(&args, &AppConfig::default()).level
}

#[test]
fn parse_level_names_and_numbers() {
    assert_eq!(level_for("info"), LogLevel::Info);
    assert_eq!(level_for("Debug"), LogLevel::Debug);
    assert_eq!(level_for("wArN"), LogLevel::Warn);
    assert_eq!(level_for("TRACE"), LogLevel::Trace);
    assert_eq!(level_for("OFF"), LogLevel::Off);
    assert_eq!(level_for("error"), LogLevel::Error);
    assert_eq!(level_for(""), LogLevel::Error);
    assert_eq!(level_for("0"), LogLevel::Off);
    assert_eq!(level_for("+5"), LogLevel::Trace);
    assert_eq!(level_for("0004"), LogLevel::Debug);
    assert_eq!(level_for("1"), LogLevel::Error);
    // Settings that name no level fall back to info.
    assert_eq!(level_for("6"), LogLevel::Info);
    assert_eq!(level_for("verbose"), LogLevel::Info);
    assert_eq!(level_for("-1"), LogLevel::Info);
}

#[test]
fn parse_level_agrees_with_tracing() {
    let to_filter = |l: LogLevel| match l {
        LogLevel::Off => LevelFilter::OFF,
        LogLevel::Error => LevelFilter::ERROR,
        LogLevel::Warn => LevelFilter::WARN,
        LogLevel::Info => LevelFilter::INFO,
        LogLevel::Debug => LevelFilter::DEBUG,
        LogLevel::Trace => LevelFilter::TRACE,
    };
    for s in [
        "", "0", "1", "2", "3", "4", "5", "6", "+3", "+", "-0", "007", "error", "ERROR", "Warn",
        "info", "DEBUG", "trace", "off", "Off", "x", "inf", "infoo", " info", "é",
    ] {
        let ours = to_filter(level_for(s));
        let theirs = LevelFilter::from_str(s).unwrap_or(LevelFilter::INFO);
        assert_eq!(ours, theirs, "input {s:?}");
    }
}

#[test]
fn command_line_overrides_configuration() {
    let mut config = AppConfig::default();
    config.log_level = Some("debug".to_string());
    config.save_log_file = true;
    let none = Args { log_level: None, save_log_file: None };
    let s = log_settings(&none, &config);
    assert_eq!(s.level, LogLevel::Debug);
    assert!(s.save_log_file);
    let given = Args { log_level: Some("warn".to_string()), save_log_file: Some(false) };
    let s = log_settings(&given, &config);
    assert_eq!(s.level, LogLevel::Warn);
    assert!(!s.save_log_file);
    let bad = Args { log_level: Some("loud".to_string()), save_log_file: None };
    assert_eq!(log_settings(&bad, &config).level, LogLevel::Info);
    let s = log_settings(&none, &AppConfig::default());
    assert_eq!(s.level, LogLevel::Info);
    assert!(!s.save_log_file);
}
