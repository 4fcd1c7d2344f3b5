use watch_rust_errors::watcher::{ConfigError, TriggerAction, Watcher, DEBOUNCE_MS};

fn watcher() -> Watcher {
    Watcher::new("/tmp/project", "cargo check").unwrap()
}

#[test]
fn new_checks_its_inputs() {
    assert!(matches!(Watcher::new("", "cargo check"), Err(ConfigError::InvalidRoot)));
    assert!(matches!(Watcher::new("/p", " \t"), Err(ConfigError::EmptyCommand)));
    assert!(matches!(Watcher::new("/p", ""), Err(ConfigError::EmptyCommand)));
    let w = watcher();
    assert!(!w.is_watching());
    assert!(!w.is_running());
}

#[test]
fn start_twice_fails() {
    let mut w = watcher();
    assert_eq!(w.start(), Ok(1));
    assert_eq!(w.start(), Err(ConfigError::AlreadyWatching));
    assert!(w.is_watching());
}

#[test]
fn stop_when_idle_fails() {
    let mut w = watcher();
    assert_eq!(w.try_stop(), Err(ConfigError::NotWatching));
    assert_eq!(w.start(), Ok(1));
    assert_eq!(w.try_stop(), Ok(()));
    assert_eq!(w.try_stop(), Err(ConfigError::NotWatching));
    assert!(!w.is_watching());
}

#[test]
fn runs_are_serialized() {
    let mut w = watcher();
    let s = w.start().unwrap();
    assert_eq!(w.on_trigger(s), TriggerAction::Run);
    assert_eq!(w.on_trigger(s), TriggerAction::Busy);
    w.finish_run();
    assert_eq!(w.on_trigger(s), TriggerAction::Run);
}

#[test]
fn no_run_after_stop() {
    let mut w = watcher();
    let s = w.start().unwrap();
    assert_eq!(w.on_trigger(s), TriggerAction::Run);
    w.finish_run();
    w.try_stop().unwrap();
    assert_eq!(w.on_trigger(s), TriggerAction::Exit);
    assert_eq!(w.on_trigger(s), TriggerAction::Exit);
}

#[test]
fn run_in_progress_at_stop_completes() {
    let mut w = watcher();
    let s = w.start().unwrap();
    assert_eq!(w.on_trigger(s), TriggerAction::Run);
    w.try_stop().unwrap();
    assert!(w.is_running());
    w.finish_run();
    assert!(!w.is_running());
    assert_eq!(w.on_trigger(s), TriggerAction::Exit);
}

#[test]
fn old_session_stays_stopped_after_restart() {
    let mut w = watcher();
    let s1 = w.start().unwrap();
    w.try_stop().unwrap();
    let s2 = w.start().unwrap();
    assert_ne!(s1, s2);
    assert_eq!(w.on_trigger(s1), TriggerAction::Exit);
    assert_eq!(w.on_trigger(s2), TriggerAction::Run);
}

#[test]
fn settings_of_a_session() {
    let w = watcher();
    let s = w.settings();
    assert_eq!(s.paths, vec!["/tmp/project".to_string()]);
    assert_eq!(s.command, "cargo check");
    assert_eq!(s.filters, vec!["**/*.toml".to_string(), "**/*.rs".to_string()]);
    assert_eq!(s.debounce_ms, DEBOUNCE_MS);
    assert_eq!(s.debounce_ms, 500);
    assert!(s.run_initially);
}

#[test]
fn new_session_waits_for_the_last_run_of_the_old_one() {
    let mut w = watcher();
    let s1 = w.start().unwrap();
    assert_eq!(w.on_trigger(s1), TriggerAction::Run);
    w.try_stop().unwrap();
    let s2 = w.start().unwrap();
    assert_eq!(w.on_trigger(s2), TriggerAction::Busy);
    w.finish_run();
    assert_eq!(w.on_trigger(s2), TriggerAction::Run);
}

#[test]
fn failed_stop_leaves_start_possible() {
    let mut w = watcher();
    assert_eq!(w.try_stop(), Err(ConfigError::NotWatching));
    let s = w.start().unwrap();
    assert_eq!(w.on_trigger(s), TriggerAction::Run);
}
