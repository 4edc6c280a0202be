use memsol_core::attention::{AttentionGraph, AttentionState};
use memsol_core::hyprland::{
    apply_event, build_attention, focused_address, normalize_address, parse_event, parse_workspace_event,
    snapshot_from_replies, ClientSnapshot, HyprlandEvent, MonitorSnapshot, WorkspaceRef, WorkspaceSnapshot,
};

#[test]
fn parses_open_window_titles_with_commas() {
    let event = parse_event("openwindow>>abc,dev,firefox,Docs, API reference").expect("valid openwindow event");

    assert_eq!(
        event,
        HyprlandEvent::WindowOpened {
            address: "0xabc".to_owned(),
            workspace: "dev".to_owned(),
            class: "firefox".to_owned(),
            title: "Docs, API reference".to_owned(),
        }
    );
}

#[test]
fn parses_empty_active_window_as_no_focus() {
    assert_eq!(parse_event("activewindowv2>>"), Some(HyprlandEvent::ActiveWindow { address: None }));
}

#[test]
fn parses_window_move() {
    assert_eq!(
        parse_event("movewindowv2>>abc,4,name:docs"),
        Some(HyprlandEvent::WindowMoved { address: "0xabc".to_owned(), workspace: "name:docs".to_owned() })
    );
}

#[test]
fn parses_each_known_event() {
    assert_eq!(
        parse_event("workspacev2>>3,web"),
        Some(HyprlandEvent::WorkspaceChanged { id: 3, name: "web".to_owned() })
    );
    assert_eq!(
        parse_event("focusedmon>>DP-1,web"),
        Some(HyprlandEvent::FocusedMonitor { monitor: "DP-1".to_owned(), workspace: "web".to_owned() })
    );
    assert_eq!(
        parse_event("activewindowv2>>55aa"),
        Some(HyprlandEvent::ActiveWindow { address: Some("0x55aa".to_owned()) })
    );
    assert_eq!(parse_event("closewindow>>0x55aa"), Some(HyprlandEvent::WindowClosed { address: "0x55aa".to_owned() }));
    assert_eq!(
        parse_event("createworkspacev2>>-7,special:scratch"),
        Some(HyprlandEvent::WorkspaceCreated { id: -7, name: "special:scratch".to_owned() })
    );
    assert_eq!(
        parse_event("destroyworkspacev2>>+7,old"),
        Some(HyprlandEvent::WorkspaceDestroyed { id: 7, name: "old".to_owned() })
    );
    assert_eq!(
        parse_event("renameworkspace>>2,notes,draft"),
        Some(HyprlandEvent::WorkspaceRenamed { id: 2, name: "notes,draft".to_owned() })
    );
    assert_eq!(
        parse_event("windowtitlev2>>abc,a, b"),
        Some(HyprlandEvent::WindowTitle { address: "0xabc".to_owned(), title: "a, b".to_owned() })
    );
    assert_eq!(parse_event("fullscreen>>1"), Some(HyprlandEvent::Fullscreen(true)));
    assert_eq!(parse_event("fullscreen>>0"), Some(HyprlandEvent::Fullscreen(false)));
}

#[test]
fn open_window_without_title_gets_empty_title() {
    assert_eq!(
        parse_event("openwindow>>abc,dev,kitty"),
        Some(HyprlandEvent::WindowOpened {
            address: "0xabc".to_owned(),
            workspace: "dev".to_owned(),
            class: "kitty".to_owned(),
            title: String::new(),
        })
    );
}

#[test]
fn rejects_unknown_and_malformed_events() {
    assert_eq!(parse_event("no separator here"), None);
    assert_eq!(parse_event("monitoradded>>HDMI-A-1"), None);
    assert_eq!(parse_event("workspacev2>>x,web"), None);
    assert_eq!(parse_event("workspacev2>>3"), None);
    assert_eq!(parse_event("workspacev2>>99999999999999999999,web"), None);
    assert_eq!(parse_event("openwindow>>abc,dev"), None);
    assert_eq!(parse_event("movewindowv2>>abc,4"), None);
    assert_eq!(parse_event("fullscreen>>2"), None);
    assert_eq!(parse_event("focusedmon>>DP-1"), None);
    assert_eq!(parse_event("windowtitlev2>>abc"), None);
    assert_eq!(parse_event("Workspacev2>>3,web"), None);
}

#[test]
fn event_name_ends_at_first_separator() {
    assert_eq!(
        parse_event("windowtitlev2>>abc,a>>b"),
        Some(HyprlandEvent::WindowTitle { address: "0xabc".to_owned(), title: "a>>b".to_owned() })
    );
}

#[test]
fn normalizes_addresses() {
    assert_eq!(normalize_address("abc"), "0xabc");
    assert_eq!(normalize_address("0xabc"), "0xabc");
    assert_eq!(normalize_address(""), "");
    assert_eq!(normalize_address("0"), "0x0");
    assert_eq!(normalize_address(&normalize_address("x1")), "0xx1");
}

#[test]
fn parses_workspace_events_directly() {
    assert_eq!(
        parse_workspace_event("4,docs", true),
        Some(HyprlandEvent::WorkspaceCreated { id: 4, name: "docs".to_owned() })
    );
    assert_eq!(
        parse_workspace_event("4,docs", false),
        Some(HyprlandEvent::WorkspaceDestroyed { id: 4, name: "docs".to_owned() })
    );
    assert_eq!(parse_workspace_event("docs", true), None);
}

fn apply_line(graph: &mut AttentionGraph, line: &str) {
    let event = parse_event(line).expect("known event");
    apply_event(graph, event);
}

#[test]
fn events_drive_the_graph() {
    let mut graph = AttentionGraph::new();
    apply_line(&mut graph, "createworkspacev2>>1,dev");
    apply_line(&mut graph, "focusedmon>>DP-1,dev");
    apply_line(&mut graph, "openwindow>>a1,dev,kitty,shell");
    apply_line(&mut graph, "openwindow>>b2,web,firefox,docs");
    assert_eq!(graph.window("0xa1").unwrap().attention, AttentionState::Visible);
    assert_eq!(graph.window("0xb2").unwrap().attention, AttentionState::Hidden);

    apply_line(&mut graph, "activewindowv2>>b2");
    assert_eq!(graph.focused_window(), Some("0xb2"));
    assert_eq!(graph.window("0xb2").unwrap().attention, AttentionState::Focused);

    apply_line(&mut graph, "fullscreen>>1");
    assert!(graph.window("0xb2").unwrap().fullscreen);

    apply_line(&mut graph, "windowtitlev2>>b2,manual");
    assert_eq!(graph.window("0xb2").unwrap().title, "manual");

    apply_line(&mut graph, "movewindowv2>>b2,1,dev");
    assert_eq!(graph.workspace("dev").unwrap().window_count, 2);

    apply_line(&mut graph, "renameworkspace>>1,code");
    assert!(graph.workspace("dev").is_none());
    assert_eq!(graph.workspace("code").unwrap().window_count, 2);
    assert_eq!(graph.window("0xa1").unwrap().workspace, "code");
    assert_eq!(graph.window("0xa1").unwrap().attention, AttentionState::Visible);

    apply_line(&mut graph, "closewindow>>b2");
    assert_eq!(graph.focused_window(), None);
    assert!(graph.window("0xb2").is_none());

    apply_line(&mut graph, "destroyworkspacev2>>1,code");
    assert!(graph.workspace("code").is_none());
    assert_eq!(graph.window("0xa1").unwrap().attention, AttentionState::Hidden);
}

#[test]
fn renaming_an_unknown_id_changes_nothing() {
    let mut graph = AttentionGraph::new();
    apply_line(&mut graph, "workspacev2>>1,dev");
    apply_line(&mut graph, "renameworkspace>>9,other");
    assert!(graph.workspace("dev").is_some());
    assert!(graph.workspace("other").is_none());
}

fn monitor(id: i64, name: &str, ws_id: i64, ws_name: &str) -> MonitorSnapshot {
    MonitorSnapshot {
        id,
        name: name.to_owned(),
        active_workspace: WorkspaceRef { id: ws_id, name: ws_name.to_owned() },
    }
}

fn client(address: &str, ws_id: i64, ws_name: &str, monitor: i64) -> ClientSnapshot {
    ClientSnapshot {
        address: address.to_owned(),
        mapped: true,
        hidden: false,
        class: "kitty".to_owned(),
        title: "shell".to_owned(),
        monitor,
        workspace: WorkspaceRef { id: ws_id, name: ws_name.to_owned() },
        fullscreen: 0,
    }
}

#[test]
fn builds_graph_from_compositor_lists() {
    let monitors = vec![monitor(0, "DP-1", 1, "dev"), monitor(1, "HDMI-A-1", 2, "web")];
    let workspaces = vec![
        WorkspaceSnapshot { id: 1, name: "dev".to_owned(), monitor: String::new(), monitor_id: 0 },
        WorkspaceSnapshot { id: 3, name: "chat".to_owned(), monitor: "HDMI-A-1".to_owned(), monitor_id: 0 },
    ];
    let clients = vec![client("a1", 1, "dev", 0), client("0xc3", 3, "chat", 1)];
    let graph = build_attention(&monitors, &workspaces, &clients, Some("0xc3".to_owned()));

    assert_eq!(graph.workspace("dev").unwrap().monitor.as_deref(), Some("DP-1"));
    assert_eq!(graph.workspace("chat").unwrap().monitor.as_deref(), Some("HDMI-A-1"));
    assert!(graph.workspace("web").unwrap().active);
    assert!(!graph.workspace("chat").unwrap().active);
    assert_eq!(graph.window("0xa1").unwrap().attention, AttentionState::Visible);
    assert_eq!(graph.window("0xa1").unwrap().monitor.as_deref(), Some("DP-1"));
    assert_eq!(graph.window("0xc3").unwrap().attention, AttentionState::Focused);
    assert_eq!(graph.focused_count(), 1);
    assert_eq!(graph.visible_count(), 1);
    assert_eq!(graph.hidden_count(), 0);
}

#[test]
fn snapshot_reads_active_window_reply() {
    let monitors = vec![monitor(0, "DP-1", 1, "dev")];
    let clients = vec![client("a1", 1, "dev", 0)];
    let graph = snapshot_from_replies(&monitors, &Vec::new(), &clients, "{\"address\":\"a1\",\"class\":\"kitty\"}")
        .expect("active window reply is JSON");
    assert_eq!(graph.focused_window(), Some("0xa1"));

    let graph = snapshot_from_replies(&monitors, &Vec::new(), &clients, "{}").expect("empty object is JSON");
    assert_eq!(graph.focused_window(), None);

    let graph = snapshot_from_replies(&monitors, &Vec::new(), &clients, "{\"address\":\"\"}").expect("JSON");
    assert_eq!(graph.focused_window(), None);

    assert!(snapshot_from_replies(&monitors, &Vec::new(), &clients, "not json").is_none());
}

#[test]
fn focus_from_reply_address() {
    assert_eq!(focused_address(Some("beef".to_owned())), Some("0xbeef".to_owned()));
    assert_eq!(focused_address(Some(String::new())), None);
    assert_eq!(focused_address(None), None);
}
