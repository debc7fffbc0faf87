use emcomm_launcher::console::ConsoleVisibility;
use emcomm_launcher::launch::{
    launch_arguments, launched_message, start_launch, LaunchEvent, LaunchSession,
};
use emcomm_launcher::settings::Settings;

fn session(target: &str) -> LaunchSession {
    match start_launch(target, Ok(())) {
        Ok(s) => s,
        Err(_) => panic!("session expected"),
    }
}

#[test]
fn terminal_arguments() {
    let a = launch_arguments(&Settings::default(), "et-mode");
    assert_eq!(a, vec!["-e".to_string(), "et-mode".to_string()]);
}

#[test]
fn spawn_failure_is_returned_at_once() {
    match start_launch("et-radio", Err("No such file or directory".to_string())) {
        Err(e) => {
            assert_eq!(e.target, "et-radio");
            assert_eq!(e.describe(), "Failed to spawn et-radio: No such file or directory");
        },
        Ok(_) => panic!("spawn error expected"),
    }
}

#[test]
fn started_launch_is_pending() {
    let s = session("et-mode");
    assert!(s.pending);
    assert_eq!(s.target, "et-mode");
    assert_eq!(launched_message("et-mode"), "et-mode launched");
}

#[test]
fn completed_launch_notifies_once() {
    let mut s = session("et-mode");
    match s.finish(true) {
        Some(e) => {
            assert!(matches!(e, LaunchEvent::Completed(_)));
            assert_eq!(e.name(), "app-exited");
            assert_eq!(e.target(), "et-mode");
        },
        None => panic!("one notification expected"),
    }
    assert!(s.finish(true).is_none());
    assert!(s.finish(false).is_none());
}

#[test]
fn failed_wait_notifies_once() {
    let mut s = session("et-radio");
    match s.finish(false) {
        Some(e) => {
            assert_eq!(e.name(), "app-exited-error");
            assert_eq!(e.target(), "et-radio");
        },
        None => panic!("one notification expected"),
    }
    assert!(s.finish(true).is_none());
}

#[test]
fn concurrent_sessions_are_independent() {
    let mut a = session("et-mode");
    let mut b = session("et-mode");
    assert!(a.finish(true).is_some());
    assert!(b.pending);
    assert!(b.finish(false).is_some());
    assert!(a.finish(true).is_none());
}

#[test]
fn console_toggle() {
    let mut c = ConsoleVisibility::new();
    assert!(!c.visible);
    assert!(c.toggle());
    assert!(c.visible);
    assert!(!c.toggle());
    assert!(!c.visible);
}
