use servicetray::config::{AppConfig, ProgramConfig};
use servicetray::event::MenuAction;
use servicetray::process::ProcessManager;
use servicetray::tray::app::{
    lookup_action, plan_process_updates, restart_or_start_program, toggle_autostart, RestartPlan,
};
use servicetray::tray::menu::{autostart_label, menu_entries, status_icon_rgba, MenuEntry};

fn program(name: &str, path: &str) -> ProgramConfig {
    ProgramConfig {
        name: name.to_string(),
        path: path.to_string(),
        args: None,
        service_url: None,
        watch_paths: None,
        working_dir: None,
    }
}

fn config(programs: Vec<ProgramConfig>) -> AppConfig {
    let mut c = AppConfig::default();
    c.programs = programs;
    c
}

#[test]
fn update_plan_stops_starts_and_restarts() {
    let old = config(vec![program("keep", "k"), program("gone", "g"), program("changed", "c1")]);
    let new = config(vec![program("changed", "c2"), program("keep", "k"), program("added", "a")]);
    let plan = plan_process_updates(&old, &new);
    assert_eq!(plan.stop, vec!["gone"]);
    assert_eq!(plan.start, vec![2]);
    assert_eq!(plan.restart, vec![0]);
}

#[test]
fn update_plan_restarts_on_working_dir_change() {
    let mut old = config(vec![program("p", "p")]);
    old.working_dir = "/a".to_string();
    let mut new = config(vec![program("p", "p")]);
    new.working_dir = "/b".to_string();
    let plan = plan_process_updates(&old, &new);
    assert!(plan.stop.is_empty());
    assert!(plan.start.is_empty());
    assert_eq!(plan.restart, vec![0]);
    // A program with its own working directory is unaffected by the global one.
    old.programs[0].working_dir = Some("/w".to_string());
    new.programs[0].working_dir = Some("/w".to_string());
    let plan = plan_process_updates(&old, &new);
    assert!(plan.restart.is_empty());
}

#[test]
fn update_plan_for_unchanged_config_is_empty() {
    let c = config(vec![program("a", "a"), program("b", "b")]);
    let plan = plan_process_updates(&c, &c.clone());
    assert!(plan.stop.is_empty() && plan.start.is_empty() && plan.restart.is_empty());
}

#[test]
fn update_plan_stops_each_removed_name_once() {
    let old = config(vec![program("x", "1"), program("x", "2"), program("y", "y")]);
    let new = config(vec![]);
    let mut plan = plan_process_updates(&old, &new);
    plan.stop.sort();
    assert_eq!(plan.stop, vec!["x", "y"]);
}

#[test]
fn restart_plan_depends_on_running_state() {
    let programs = vec![program("a", "a"), program("b", "b")];
    let mut manager: ProcessManager<u32> = ProcessManager::new();
    assert_eq!(restart_or_start_program(&programs, "zzz", &manager), RestartPlan::NotConfigured);
    assert_eq!(restart_or_start_program(&programs, "b", &manager), RestartPlan::Start(1));
    manager.register("b".to_string(), 3).unwrap();
    assert_eq!(restart_or_start_program(&programs, "b", &manager), RestartPlan::StopThenStart(1));
}

#[test]
fn lookup_action_finds_first_match() {
    let actions = vec![
        ("1".to_string(), MenuAction::OpenConfig),
        ("2".to_string(), MenuAction::Exit),
        ("2".to_string(), MenuAction::ToggleAutostart),
    ];
    assert!(matches!(lookup_action(&actions, "2"), Some(MenuAction::Exit)));
    assert!(matches!(lookup_action(&actions, "1"), Some(MenuAction::OpenConfig)));
    assert!(lookup_action(&actions, "3").is_none());
}

#[test]
fn toggle_autostart_twice_restores() {
    let mut c = config(vec![program("a", "a")]);
    let before = toggle_autostart(&mut c);
    assert!(!before.autostart);
    assert!(c.autostart);
    let middle = toggle_autostart(&mut c);
    assert!(middle.autostart);
    assert!(!c.autostart);
    assert_eq!(c.programs, before.programs);
}

#[test]
fn menu_lists_service_links_then_fixed_entries() {
    let mut a = program("a", "a");
    a.service_url = Some("http://localhost:8384".to_string());
    let b = program("b", "b");
    let mut c = program("c", "c");
    c.service_url = Some("http://c".to_string());
    let mut cfg = config(vec![a, b, c]);
    cfg.autostart = true;
    let mut manager: ProcessManager<()> = ProcessManager::new();
    manager.register("c".to_string(), ()).unwrap();
    let entries = menu_entries(&cfg, &manager);
    assert_eq!(entries.len(), 6);
    match &entries[0] {
        MenuEntry::ServiceLink { name, url, running } => {
            assert_eq!(name, "a");
            assert_eq!(url, "http://localhost:8384");
            assert!(!running);
        }
        other => panic!("unexpected {:?}", other),
    }
    match &entries[1] {
        MenuEntry::ServiceLink { name, running, .. } => {
            assert_eq!(name, "c");
            assert!(running);
        }
        other => panic!("unexpected {:?}", other),
    }
    assert!(matches!(entries[2], MenuEntry::Separator));
    assert!(matches!(entries[3], MenuEntry::Autostart { enabled: true }));
    assert!(matches!(entries[4], MenuEntry::OpenConfig));
    assert!(matches!(entries[5], MenuEntry::Exit));
    assert!(matches!(entries[0].action(), Some(MenuAction::OpenUrl(u)) if u == "http://localhost:8384"));
    assert!(entries[2].action().is_none());
    assert!(matches!(entries[3].action(), Some(MenuAction::ToggleAutostart)));
    assert!(matches!(entries[5].action(), Some(MenuAction::Exit)));
}

#[test]
fn autostart_label_marks_enabled() {
    assert_eq!(autostart_label(true, "Autostart"), "\u{2713} Autostart");
    assert_eq!(autostart_label(false, "Autostart"), "Autostart");
}

#[test]
fn status_icon_matches_float_circle() {
    for running in [true, false] {
        let rgba = status_icon_rgba(running);
        assert_eq!(rgba.len(), 12 * 12 * 4);
        let color: [u8; 4] = if running { [34, 197, 94, 255] } else { [239, 68, 68, 255] };
        for y in 0..12u32 {
            for x in 0..12u32 {
                let dx = x as f32 - 5.5;
                let dy = y as f32 - 5.5;
                let inside = dx * dx + dy * dy <= 4.0 * 4.0;
                let offset = ((y * 12 + x) * 4) as usize;
                let expected = if inside { color } else { [0, 0, 0, 0] };
                assert_eq!(&rgba[offset..offset + 4], &expected[..], "pixel {x},{y}");
            }
        }
    }
    // The centre is inside, the corner outside.
    let rgba = status_icon_rgba(true);
    assert_eq!(rgba[(5 * 12 + 5) * 4], 34);
    assert_eq!(rgba[0], 0);
}
