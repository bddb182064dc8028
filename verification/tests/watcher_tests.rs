use servicetray::config::{AppConfig, ProgramConfig};
use servicetray::event::CustomEvent;
use servicetray::watcher::{desired_watches, ConfigWatcher, Debouncer, WatchTable, DEBOUNCE_MS, IDLE_WAIT_MS};

fn watched(name: &str, paths: &[&str]) -> ProgramConfig {
    ProgramConfig {
        name: name.to_string(),
        path: "cmd.exe".to_string(),
        args: None,
        service_url: None,
        watch_paths: Some(paths.iter().map(|p| p.to_string()).collect()),
        working_dir: None,
    }
}

#[test]
fn test_program_watcher_debounce_triggers_once() {
    let mut debouncer = Debouncer::new();
    // Five rapid changes, 50 ms apart.
    let mut now = 1_000u64;
    for _ in 0..5 {
        debouncer.record("test-prog".to_string(), now);
        assert!(debouncer.take_due(now).is_empty());
        now += 50;
    }
    let last = now - 50;
    assert_eq!(debouncer.timeout(now), last + DEBOUNCE_MS - now);
    assert!(debouncer.take_due(last + DEBOUNCE_MS - 1).is_empty());
    let fired = debouncer.take_due(last + DEBOUNCE_MS);
    assert_eq!(fired, vec!["test-prog"]);
    // No duplicate afterwards.
    assert!(debouncer.take_due(last + DEBOUNCE_MS + 200).is_empty());
    assert_eq!(debouncer.timeout(last + 1_000), IDLE_WAIT_MS);
}

#[test]
fn debouncer_timeout_follows_earliest_change() {
    let mut d = Debouncer::new();
    assert_eq!(d.timeout(0), 100);
    d.record("a".to_string(), 1_000);
    d.record("b".to_string(), 1_100);
    assert_eq!(d.timeout(1_150), 150);
    assert_eq!(d.timeout(2_000), 0);
    let mut fired = d.take_due(1_350);
    fired.sort();
    assert_eq!(fired, vec!["a"]);
    assert_eq!(d.timeout(1_350), 50);
    assert_eq!(d.take_due(1_400), vec!["b"]);
}

#[test]
fn desired_watches_skip_empty_and_keep_last() {
    let mut none = watched("none", &[]);
    none.watch_paths = None;
    let programs = vec![watched("a", &["x"]), watched("e", &[]), none, watched("a", &["y", "z"])];
    let d = desired_watches(&programs);
    assert_eq!(d, vec![("a".to_string(), vec!["y".to_string(), "z".to_string()])]);
}

#[test]
fn watch_table_update_keeps_matching_and_reports_missing() {
    let mut table: WatchTable<u32> = WatchTable::new();
    let first = vec![watched("a", &["x"]), watched("b", &["y"])];
    let mut missing = table.update(&first);
    missing.sort();
    assert_eq!(
        missing,
        vec![("a".to_string(), vec!["x".to_string()]), ("b".to_string(), vec!["y".to_string()])]
    );
    for (i, (name, paths)) in missing.into_iter().enumerate() {
        assert!(table.insert(name, paths, i as u32).is_ok());
    }
    assert!(table.contains("a") && table.contains("b"));
    // Unchanged: nothing to add, nothing dropped.
    assert!(table.update(&first).is_empty());
    assert!(table.contains("a") && table.contains("b"));
    // `a` changes its paths, `b` disappears, `c` appears.
    let second = vec![watched("a", &["x", "w"]), watched("c", &["z"])];
    let mut missing = table.update(&second);
    missing.sort();
    assert_eq!(
        missing,
        vec![
            ("a".to_string(), vec!["x".to_string(), "w".to_string()]),
            ("c".to_string(), vec!["z".to_string()])
        ]
    );
    assert!(!table.contains("a") && !table.contains("b"));
    assert!(table.insert("c".to_string(), vec![], 9).is_ok());
    assert!(table.insert("c".to_string(), vec![], 10).is_err());
}

#[test]
fn config_reload_outcome() {
    let previous = AppConfig::default();
    let mut reloaded = AppConfig::default();
    reloaded.autostart = true;
    match ConfigWatcher::on_reload(previous, Some(reloaded)) {
        Some((current, CustomEvent::ConfigUpdated(old))) => {
            assert!(current.autostart);
            assert!(!old.autostart);
        }
        other => panic!("unexpected {:?}", other),
    }
    assert!(ConfigWatcher::on_reload(AppConfig::default(), None).is_none());
}

#[test]
fn config_events_are_filtered_by_file_name() {
    let changed = vec!["other.json".to_string(), "servicetray.json".to_string()];
    assert!(ConfigWatcher::concerns_config(&changed, "servicetray.json"));
    assert!(!ConfigWatcher::concerns_config(&changed, "config.json"));
    assert!(!ConfigWatcher::concerns_config(&Vec::new(), "config.json"));
}
