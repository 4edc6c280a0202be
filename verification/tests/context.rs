use memsol_core::context::{contextual_keys, outcome_key, outcome_target, AttentionContext, ContextEvent};
use memsol_core::learning::KEY_SEPARATOR;

#[test]
fn event_key_includes_source() {
    let with_source = ContextEvent { kind: "notification".to_owned(), source: Some("discord".to_owned()) };
    assert_eq!(with_source.key(), "notification:discord");
    let without = ContextEvent { kind: "build_finished".to_owned(), source: None };
    assert_eq!(without.key(), "build_finished");
}

#[test]
fn contextual_keys_go_from_general_to_specific() {
    let s = KEY_SEPARATOR;
    let full = AttentionContext { workspace: Some("dev".to_owned()), app_class: Some("zed".to_owned()) };
    assert_eq!(
        contextual_keys("ev", &full),
        vec![format!("ev{s}*{s}*"), format!("ev{s}dev{s}*"), format!("ev{s}dev{s}zed")]
    );
    let workspace_only = AttentionContext { workspace: Some("dev".to_owned()), app_class: None };
    assert_eq!(contextual_keys("ev", &workspace_only), vec![format!("ev{s}*{s}*"), format!("ev{s}dev{s}*")]);
    let app_only = AttentionContext { workspace: None, app_class: Some("zed".to_owned()) };
    assert_eq!(contextual_keys("ev", &app_only), vec![format!("ev{s}*{s}*")]);
    assert_eq!(contextual_keys("ev", &AttentionContext::default()), vec![format!("ev{s}*{s}*")]);
}

#[test]
fn outcome_keys_round_trip() {
    let key = outcome_key("ev\u{1f}dev\u{1f}*", "chat");
    assert_eq!(key, "ev\u{1f}dev\u{1f}*\u{1f}chat");
    assert_eq!(outcome_target(&key, "ev\u{1f}dev\u{1f}*"), Some("chat".to_owned()));
    assert_eq!(outcome_target(&key, "ev\u{1f}*\u{1f}*"), None);
}
