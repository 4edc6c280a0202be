use std::time::Duration;

use memsol_core::learning::{transition_key, transition_target, FocusTracker, KEY_SEPARATOR};

#[test]
fn transition_keys_join_with_the_separator() {
    assert_eq!(transition_key("dev", "web"), format!("dev{KEY_SEPARATOR}web"));
    assert_eq!(transition_key("", ""), KEY_SEPARATOR.to_string());
}

#[test]
fn transition_target_undoes_transition_key() {
    let key = transition_key("dev", "web");
    assert_eq!(transition_target(&key, "dev"), Some("web".to_owned()));
    assert_eq!(transition_target(&key, "de"), None);
    assert_eq!(transition_target(&key, "web"), None);
    assert_eq!(transition_target("dev", "dev"), None);
    assert_eq!(transition_target(&transition_key("dev", ""), "dev"), Some(String::new()));
}

#[test]
fn first_focus_records_no_transition() {
    let mut tracker = FocusTracker::new();
    let change = tracker.observe("dev".to_owned(), Duration::from_secs(3)).expect("focus moved");
    assert!(change.ended.is_none());
    assert!(change.transition.is_none());
    let current = tracker.current().expect("something has focus");
    assert_eq!(current.name, "dev");
    assert_eq!(current.started_at, Duration::from_secs(3));
}

#[test]
fn repeated_same_focus_records_nothing() {
    let mut tracker = FocusTracker::new();
    tracker.observe("dev".to_owned(), Duration::from_secs(0));
    assert!(tracker.observe("dev".to_owned(), Duration::from_secs(5)).is_none());
    assert_eq!(tracker.current().expect("focus").started_at, Duration::from_secs(0));

    let change = tracker.observe("web".to_owned(), Duration::from_secs(10)).expect("focus moved");
    let ended = change.ended.expect("dev ended");
    assert_eq!(ended.name, "dev");
    assert_eq!(ended.started_at, Duration::from_secs(0));
    assert_eq!(change.transition, Some(transition_key("dev", "web")));
    assert_eq!(tracker.current().expect("focus").name, "web");
}

#[test]
fn finishing_hands_back_the_focus() {
    let mut tracker = FocusTracker::new();
    assert!(tracker.finish().is_none());
    tracker.observe("chat".to_owned(), Duration::from_secs(7));
    let ended = tracker.finish().expect("chat had focus");
    assert_eq!(ended.name, "chat");
    assert_eq!(ended.started_at, Duration::from_secs(7));
    assert!(tracker.current().is_none());
}
