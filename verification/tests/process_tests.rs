use servicetray::config::{AppConfig, ProgramConfig};
use servicetray::paths::PathStyle::Unix;
use servicetray::process::{ProcessError, ProcessManager};

fn program(name: &str, path: &str) -> ProgramConfig {
    ProgramConfig {
        name: name.to_string(),
        path: path.to_string(),
        args: None,
        service_url: None,
        watch_paths: None,
        working_dir: None,
    }
}

#[test]
fn start_plans_launch_with_expanded_paths() {
    let manager: ProcessManager<u32> = ProcessManager::new();
    let mut config = program("tilde_test_prog", "~/servicetray_tilde_test.sh");
    config.args = Some(vec!["~/dummy_arg".to_string(), "--out=~/o".to_string(), "-x".to_string()]);
    let plan = manager.start(Unix, &config, "~", Some("/home/u"), "/opt/st").unwrap();
    assert_eq!(plan.program, "/home/u/servicetray_tilde_test.sh");
    assert_eq!(plan.working_dir, "/home/u");
    assert_eq!(plan.args, vec!["/home/u/dummy_arg", "--out=/home/u/o", "-x"]);
    assert_eq!(plan.log_path, "/opt/st/logs/tilde_test_prog.log");
}

#[test]
fn start_uses_program_working_dir_over_global() {
    let manager: ProcessManager<u32> = ProcessManager::new();
    let mut config = program("cwd", "sh");
    let plan = manager.start(Unix, &config, "/nonexistent", Some("/home/u"), "/opt").unwrap();
    assert_eq!(plan.working_dir, "/nonexistent");
    config.working_dir = Some("~".to_string());
    let plan = manager.start(Unix, &config, "/nonexistent", Some("/home/u"), "/opt").unwrap();
    assert_eq!(plan.working_dir, "/home/u");
    assert!(plan.args.is_empty());
}

#[test]
fn start_refused_while_running() {
    let mut manager: ProcessManager<u32> = ProcessManager::new();
    let config = program("svc", "svc");
    assert!(manager.start(Unix, &config, "~", None, "/opt").is_ok());
    assert!(manager.register("svc".to_string(), 7).is_ok());
    assert!(manager.is_running("svc"));
    match manager.start(Unix, &config, "~", None, "/opt") {
        Err(ProcessError::AlreadyRunning(name)) => assert_eq!(name, "svc"),
        other => panic!("expected refusal, got {:?}", other),
    }
    assert_eq!(manager.register("svc".to_string(), 8), Err(8));
}

#[test]
fn stop_hands_back_handle_and_refuses_unknown() {
    let mut manager: ProcessManager<u32> = ProcessManager::new();
    manager.register("a".to_string(), 1).unwrap();
    manager.register("b".to_string(), 2).unwrap();
    assert_eq!(manager.stop("a").unwrap(), 1);
    assert!(!manager.is_running("a"));
    assert!(manager.is_running("b"));
    match manager.stop("a") {
        Err(ProcessError::NotRunning(name)) => assert_eq!(name, "a"),
        other => panic!("expected NotRunning, got {:?}", other),
    }
}

#[test]
fn running_processes_and_stop_all() {
    let mut manager: ProcessManager<u32> = ProcessManager::new();
    manager.register("x".to_string(), 1).unwrap();
    manager.register("y".to_string(), 2).unwrap();
    let mut names = manager.running_processes();
    names.sort();
    assert_eq!(names, vec!["x", "y"]);
    let mut all = manager.stop_all();
    all.sort();
    assert_eq!(all, vec![("x".to_string(), 1), ("y".to_string(), 2)]);
    assert!(manager.running_processes().is_empty());
    assert!(!manager.is_running("x"));
}

#[test]
fn launch_plan_respects_config_default_dir() {
    let manager: ProcessManager<()> = ProcessManager::new();
    let app = AppConfig::default();
    let config = program("p", "p");
    let plan = manager.start(Unix, &config, &app.working_dir, Some("/h"), "/e").unwrap();
    assert_eq!(plan.working_dir, "/h");
    assert_eq!(plan.program, "p");
}
