use memsol_core::attention::{AttentionGraph, AttentionState, WindowState};

fn window(address: &str, workspace: &str) -> WindowState {
    WindowState {
        address: address.to_owned(),
        workspace: workspace.to_owned(),
        class: "kitty".to_owned(),
        title: "shell".to_owned(),
        monitor: Some("DP-1".to_owned()),
        mapped: true,
        hidden: false,
        fullscreen: false,
        attention: AttentionState::Hidden,
    }
}

#[test]
fn active_workspace_windows_are_visible() {
    let mut graph = AttentionGraph::default();
    graph.upsert_workspace(1, "dev", Some("DP-1".to_owned()));
    graph.upsert_window(window("0x1", "dev"));
    graph.set_active_workspace("DP-1".to_owned(), "dev".to_owned());

    assert_eq!(graph.window("0x1").unwrap().attention, AttentionState::Visible);
}

#[test]
fn focused_window_overrides_visibility() {
    let mut graph = AttentionGraph::default();
    graph.upsert_workspace(1, "dev", Some("DP-1".to_owned()));
    graph.upsert_window(window("0x1", "dev"));
    graph.set_active_workspace("DP-1".to_owned(), "dev".to_owned());
    graph.set_focused_window(Some("0x1".to_owned()));

    assert_eq!(graph.window("0x1").unwrap().attention, AttentionState::Focused);
}

#[test]
fn new_graph_is_empty() {
    let graph = AttentionGraph::new();
    assert!(graph.windows().is_empty());
    assert!(graph.workspaces().is_empty());
    assert_eq!(graph.focused_window(), None);
    assert_eq!(graph.focused_count() + graph.visible_count() + graph.hidden_count(), 0);
}

#[test]
fn counts_partition_the_windows() {
    let mut graph = AttentionGraph::new();
    graph.upsert_workspace(1, "dev", None);
    graph.upsert_workspace(2, "web", None);
    graph.set_active_workspace("DP-1".to_owned(), "dev".to_owned());
    graph.upsert_window(window("0x1", "dev"));
    graph.upsert_window(window("0x2", "dev"));
    graph.upsert_window(window("0x3", "web"));
    let mut hidden = window("0x4", "dev");
    hidden.hidden = true;
    graph.upsert_window(hidden);
    graph.set_focused_window(Some("0x3".to_owned()));

    assert_eq!(graph.focused_count(), 1);
    assert_eq!(graph.visible_count(), 2);
    assert_eq!(graph.hidden_count(), 1);
    assert_eq!(graph.windows().len(), 4);
    assert_eq!(graph.workspace("dev").unwrap().window_count, 3);
    assert_eq!(graph.workspace("web").unwrap().window_count, 1);
    assert!(graph.workspace("dev").unwrap().active);
    assert!(!graph.workspace("web").unwrap().active);
}

#[test]
fn focus_on_unknown_window_is_cleared() {
    let mut graph = AttentionGraph::new();
    graph.upsert_window(window("0x1", "dev"));
    graph.set_focused_window(Some("0x9".to_owned()));
    assert_eq!(graph.focused_window(), None);
    graph.set_focused_window(Some("0x1".to_owned()));
    assert_eq!(graph.focused_window(), Some("0x1"));
    graph.set_focused_window(None);
    assert_eq!(graph.focused_window(), None);
}

#[test]
fn upserting_a_window_replaces_it_and_resets_attention() {
    let mut graph = AttentionGraph::new();
    graph.set_active_workspace("DP-1".to_owned(), "dev".to_owned());
    graph.upsert_window(window("0x1", "dev"));
    let mut moved = window("0x1", "web");
    moved.attention = AttentionState::Focused;
    graph.upsert_window(moved);
    assert_eq!(graph.windows().len(), 1);
    assert_eq!(graph.window("0x1").unwrap().workspace, "web");
    assert_eq!(graph.window("0x1").unwrap().attention, AttentionState::Hidden);
}

#[test]
fn upserting_a_workspace_keeps_its_monitor_without_a_new_one() {
    let mut graph = AttentionGraph::new();
    graph.upsert_workspace(1, "dev", Some("DP-1".to_owned()));
    graph.upsert_workspace(5, "dev", None);
    assert_eq!(graph.workspace("dev").unwrap().id, 5);
    assert_eq!(graph.workspace("dev").unwrap().monitor.as_deref(), Some("DP-1"));
    graph.upsert_workspace(6, "dev", Some("HDMI-A-1".to_owned()));
    assert_eq!(graph.workspace("dev").unwrap().monitor.as_deref(), Some("HDMI-A-1"));
    assert_eq!(graph.workspaces().len(), 1);
}

#[test]
fn window_without_monitor_takes_its_workspace_monitor() {
    let mut graph = AttentionGraph::new();
    graph.upsert_workspace(1, "dev", Some("DP-2".to_owned()));
    let mut w = window("0x1", "dev");
    w.monitor = None;
    graph.upsert_window(w);
    assert_eq!(graph.window("0x1").unwrap().monitor.as_deref(), Some("DP-2"));
}

#[test]
fn removing_a_workspace_hides_its_monitor() {
    let mut graph = AttentionGraph::new();
    graph.upsert_workspace(1, "dev", None);
    graph.set_active_workspace("DP-1".to_owned(), "dev".to_owned());
    graph.upsert_window(window("0x1", "dev"));
    assert_eq!(graph.window("0x1").unwrap().attention, AttentionState::Visible);
    graph.remove_workspace("dev");
    assert!(graph.workspace("dev").is_none());
    assert_eq!(graph.window("0x1").unwrap().attention, AttentionState::Hidden);
}

#[test]
fn removing_the_focused_window_clears_focus() {
    let mut graph = AttentionGraph::new();
    graph.upsert_window(window("0x1", "dev"));
    graph.set_focused_window(Some("0x1".to_owned()));
    graph.remove_window("0x1");
    assert_eq!(graph.focused_window(), None);
    assert!(graph.windows().is_empty());
}

#[test]
fn title_and_fullscreen_changes_touch_only_known_windows() {
    let mut graph = AttentionGraph::new();
    graph.upsert_window(window("0x1", "dev"));
    graph.set_window_title("0x9", "ignored".to_owned());
    graph.set_window_title("0x1", "vim".to_owned());
    assert_eq!(graph.window("0x1").unwrap().title, "vim");
    graph.set_fullscreen(true);
    assert!(!graph.window("0x1").unwrap().fullscreen);
    graph.set_focused_window(Some("0x1".to_owned()));
    graph.set_fullscreen(true);
    assert!(graph.window("0x1").unwrap().fullscreen);
}

#[test]
fn moving_a_window_updates_counts() {
    let mut graph = AttentionGraph::new();
    graph.upsert_workspace(1, "dev", None);
    graph.upsert_workspace(2, "web", None);
    graph.upsert_window(window("0x1", "dev"));
    graph.move_window("0x1", "web".to_owned());
    assert_eq!(graph.workspace("dev").unwrap().window_count, 0);
    assert_eq!(graph.workspace("web").unwrap().window_count, 1);
    graph.move_window("0x9", "dev".to_owned());
    assert_eq!(graph.workspace("dev").unwrap().window_count, 0);
}

#[test]
fn renaming_carries_windows_and_monitors() {
    let mut graph = AttentionGraph::new();
    graph.upsert_workspace(7, "dev", Some("DP-1".to_owned()));
    graph.set_active_workspace("DP-1".to_owned(), "dev".to_owned());
    graph.upsert_window(window("0x1", "dev"));
    graph.rename_workspace(7, "code");
    assert!(graph.workspace("dev").is_none());
    let code = graph.workspace("code").unwrap();
    assert_eq!(code.id, 7);
    assert!(code.active);
    assert_eq!(code.window_count, 1);
    assert_eq!(graph.window("0x1").unwrap().workspace, "code");
    assert_eq!(graph.window("0x1").unwrap().attention, AttentionState::Visible);
}
