//! Hyprland's event grammar and how each event changes the attention graph.
use std::path::PathBuf;

use vstd::prelude::*;

use crate::attention::{
    empty_graph, has_workspace_id, same_listing, refresh_window, refreshed, stored_window, upserted_workspace, with_active,
    with_focus, with_windows, with_workspaces, move_window_spec, opt_view, remove_window_spec, remove_workspace_spec,
    rename_workspace_spec, set_active_workspace_spec, set_focused_window_spec, set_fullscreen_spec,
    set_window_title_spec, upsert_window_spec, upsert_workspace_spec, AttentionGraph, AttentionState, GraphView,
    WindowState, WindowView,
};
use crate::text::{
    chars_of, lemma_split_once_concat, parse_i64, parse_i64_spec, same_text, single, split_n, split_n_str, split_once, split_once_char,
    split_once_str, views,
};

verus! {

/// std's `PathBuf`, carried through as an opaque value.
#[verifier::external_type_specification]
#[verifier::external_body]
pub struct ExPathBuf(std::path::PathBuf);

/// `PathBuf`'s `Clone`, which std documents as cloning the path. Trusted: the clone
/// equals the original.
pub assume_specification[ <PathBuf as Clone>::clone ](p: &PathBuf) -> (r: PathBuf)
    ensures
        r == *p,
;

/// The request and event sockets of a Hyprland session.
#[derive(Debug, Clone, PartialEq, Eq)]
pub struct HyprlandPaths {
    pub request_socket: PathBuf,
    pub event_socket: PathBuf,
}

/// One compositor event that memsol understands.
#[derive(Debug, Clone, PartialEq, Eq)]
pub enum HyprlandEvent {
    WorkspaceChanged { id: i64, name: String },
    FocusedMonitor { monitor: String, workspace: String },
    ActiveWindow { address: Option<String> },
    WindowOpened { address: String, workspace: String, class: String, title: String },
    WindowClosed { address: String },
    WindowMoved { address: String, workspace: String },
    WorkspaceCreated { id: i64, name: String },
    WorkspaceDestroyed { id: i64, name: String },
    WorkspaceRenamed { id: i64, name: String },
    WindowTitle { address: String, title: String },
    Fullscreen(bool),
}

/// Abstract compositor event: the same variants, over character sequences.
pub enum HyprlandEventView {
    WorkspaceChanged { id: i64, name: Seq<char> },
    FocusedMonitor { monitor: Seq<char>, workspace: Seq<char> },
    ActiveWindow { address: Option<Seq<char>> },
    WindowOpened { address: Seq<char>, workspace: Seq<char>, class: Seq<char>, title: Seq<char> },
    WindowClosed { address: Seq<char> },
    WindowMoved { address: Seq<char>, workspace: Seq<char> },
    WorkspaceCreated { id: i64, name: Seq<char> },
    WorkspaceDestroyed { id: i64, name: Seq<char> },
    WorkspaceRenamed { id: i64, name: Seq<char> },
    WindowTitle { address: Seq<char>, title: Seq<char> },
    Fullscreen(bool),
}

impl View for HyprlandEvent {
    type V = HyprlandEventView;

    open spec fn view(&self) -> HyprlandEventView {
        match self {
            HyprlandEvent::WorkspaceChanged { id, name } => HyprlandEventView::WorkspaceChanged { id: *id, name: name@ },
            HyprlandEvent::FocusedMonitor { monitor, workspace } => HyprlandEventView::FocusedMonitor {
                monitor: monitor@,
                workspace: workspace@,
            },
            HyprlandEvent::ActiveWindow { address } => HyprlandEventView::ActiveWindow { address: opt_view(*address) },
            HyprlandEvent::WindowOpened { address, workspace, class, title } => HyprlandEventView::WindowOpened {
                address: address@,
                workspace: workspace@,
                class: class@,
                title: title@,
            },
            HyprlandEvent::WindowClosed { address } => HyprlandEventView::WindowClosed { address: address@ },
            HyprlandEvent::WindowMoved { address, workspace } => HyprlandEventView::WindowMoved {
                address: address@,
                workspace: workspace@,
            },
            HyprlandEvent::WorkspaceCreated { id, name } => HyprlandEventView::WorkspaceCreated { id: *id, name: name@ },
            HyprlandEvent::WorkspaceDestroyed { id, name } => HyprlandEventView::WorkspaceDestroyed {
                id: *id,
                name: name@,
            },
            HyprlandEvent::WorkspaceRenamed { id, name } => HyprlandEventView::WorkspaceRenamed { id: *id, name: name@ },
            HyprlandEvent::WindowTitle { address, title } => HyprlandEventView::WindowTitle {
                address: address@,
                title: title@,
            },
            HyprlandEvent::Fullscreen(on) => HyprlandEventView::Fullscreen(*on),
        }
    }
}

/// The view of an optional event.
pub open spec fn opt_event_view(e: Option<HyprlandEvent>) -> Option<HyprlandEventView> {
    match e {
        Some(e) => Some(e@),
        None => None,
    }
}

/// A window address in the `0x…` form: empty and already prefixed addresses stay as
/// they are, others get the prefix.
pub open spec fn normalized(address: Seq<char>) -> Seq<char> {
    if address.len() == 0 || "0x"@.is_prefix_of(address) {
        address
    } else {
        "0x"@ + address
    }
}

/// Normalizing an address twice gives what normalizing it once gives.
pub proof fn lemma_normalized_idempotent(address: Seq<char>)
    ensures
        normalized(normalized(address)) == normalized(address),
{
    reveal_strlit("0x");
    if !(address.len() == 0 || "0x"@.is_prefix_of(address)) {
        let n = "0x"@ + address;
        assert(n.subrange(0, 2) =~= "0x"@);
    }
}

/// Puts a window address in the `0x…` form.
pub fn normalize_address(address: &str) -> (r: String)
    ensures
        r@ == normalized(address@),
{
    proof {
        reveal_strlit("0x");
    }
    let cs = chars_of(address);
    if cs.len() == 0 || (cs.len() >= 2 && cs[0] == '0' && cs[1] == 'x') {
        proof {
            if cs@.len() >= 2 && cs@[0] == '0' && cs@[1] == 'x' {
                assert("0x"@ =~= address@.subrange(0, 2));
            }
        }
        address.to_owned()
    } else {
        proof {
            if "0x"@.is_prefix_of(address@) {
                assert(address@.subrange(0, 2)[0] == address@[0]);
                assert(address@.subrange(0, 2)[1] == address@[1]);
            }
        }
        String::from_str("0x").concat(address)
    }
}

/// `createworkspacev2` (when `created`) or `destroyworkspacev2` data: `id,name`.
pub open spec fn workspace_event_spec(data: Seq<char>, created: bool) -> Option<HyprlandEventView> {
    match split_once(data, single(',')) {
        Some((id, name)) => match parse_i64_spec(id) {
            Some(id) => Some(
                if created {
                    HyprlandEventView::WorkspaceCreated { id, name }
                } else {
                    HyprlandEventView::WorkspaceDestroyed { id, name }
                },
            ),
            None => None,
        },
        None => None,
    }
}

/// An event whose data is `id,name`, the name keeping any further commas.
pub open spec fn id_name_spec(data: Seq<char>) -> Option<(i64, Seq<char>)> {
    match split_once(data, single(',')) {
        Some((id, name)) => match parse_i64_spec(id) {
            Some(id) => Some((id, name)),
            None => None,
        },
        None => None,
    }
}

/// The event named `name` with data `data`, when it is one memsol understands and its
/// data is well formed.
pub open spec fn named_event_spec(name: Seq<char>, data: Seq<char>) -> Option<HyprlandEventView> {
    if name == "workspacev2"@ {
        match id_name_spec(data) {
            Some((id, name)) => Some(HyprlandEventView::WorkspaceChanged { id, name }),
            None => None,
        }
    } else if name == "focusedmon"@ {
        match split_once(data, single(',')) {
            Some((monitor, workspace)) => Some(HyprlandEventView::FocusedMonitor { monitor, workspace }),
            None => None,
        }
    } else if name == "activewindowv2"@ {
        Some(
            HyprlandEventView::ActiveWindow {
                address: if data.len() == 0 {
                    None
                } else {
                    Some(normalized(data))
                },
            },
        )
    } else if name == "openwindow"@ {
        let fields = split_n(data, 4, ',');
        if fields.len() >= 3 {
            Some(
                HyprlandEventView::WindowOpened {
                    address: normalized(fields[0]),
                    workspace: fields[1],
                    class: fields[2],
                    title: if fields.len() >= 4 {
                        fields[3]
                    } else {
                        Seq::empty()
                    },
                },
            )
        } else {
            None
        }
    } else if name == "closewindow"@ {
        Some(HyprlandEventView::WindowClosed { address: normalized(data) })
    } else if name == "movewindowv2"@ {
        let fields = split_n(data, 3, ',');
        if fields.len() >= 3 {
            Some(HyprlandEventView::WindowMoved { address: normalized(fields[0]), workspace: fields[2] })
        } else {
            None
        }
    } else if name == "createworkspacev2"@ {
        workspace_event_spec(data, true)
    } else if name == "destroyworkspacev2"@ {
        workspace_event_spec(data, false)
    } else if name == "renameworkspace"@ {
        match id_name_spec(data) {
            Some((id, name)) => Some(HyprlandEventView::WorkspaceRenamed { id, name }),
            None => None,
        }
    } else if name == "windowtitlev2"@ {
        match split_once(data, single(',')) {
            Some((address, title)) => Some(HyprlandEventView::WindowTitle { address: normalized(address), title }),
            None => None,
        }
    } else if name == "fullscreen"@ {
        if data == "0"@ {
            Some(HyprlandEventView::Fullscreen(false))
        } else if data == "1"@ {
            Some(HyprlandEventView::Fullscreen(true))
        } else {
            None
        }
    } else {
        None
    }
}

/// A line of Hyprland's event socket, `name>>data`, as an event.
pub open spec fn parse_event_spec(line: Seq<char>) -> Option<HyprlandEventView> {
    match split_once(line, ">>"@) {
        Some((name, data)) => named_event_spec(name, data),
        None => None,
    }
}

/// No character of `s` is `c`.
pub open spec fn free_of(s: Seq<char>, c: char) -> bool {
    forall|k: int| 0 <= k < s.len() ==> s[k] != c
}

/// A line is its event name, `>>`, and its data, when the name has no `>`.
proof fn lemma_event_line(name: Seq<char>, data: Seq<char>)
    requires
        free_of(name, '>'),
    ensures
        parse_event_spec(name + ">>"@ + data) == named_event_spec(name, data),
{
    reveal_strlit(">>");
    lemma_split_once_concat(name, ">>"@, data);
}

/// Cutting `first,rest` into pieces gives `first` and then the pieces of `rest`.
proof fn lemma_split_n_comma(first: Seq<char>, rest: Seq<char>, n: nat)
    requires
        free_of(first, ','),
        n >= 2,
    ensures
        split_n(first + seq![','] + rest, n, ',') == seq![first] + split_n(rest, (n - 1) as nat, ','),
{
    lemma_split_once_concat(first, single(','), rest);
}

/// `id,name` data with an id free of commas reads as that id and the whole rest.
proof fn lemma_id_name(id: Seq<char>, name: Seq<char>)
    requires
        free_of(id, ','),
    ensures
        id_name_spec(id + seq![','] + name) == match parse_i64_spec(id) {
            Some(n) => Some((n, name)),
            None => None::<(i64, Seq<char>)>,
        },
{
    lemma_split_once_concat(id, single(','), name);
}

/// The event names memsol understands, all distinct and free of `>`.
proof fn lemma_event_names()
    ensures
        free_of("workspacev2"@, '>'),
        free_of("focusedmon"@, '>'),
        free_of("activewindowv2"@, '>'),
        free_of("openwindow"@, '>'),
        free_of("closewindow"@, '>'),
        free_of("movewindowv2"@, '>'),
        free_of("createworkspacev2"@, '>'),
        free_of("destroyworkspacev2"@, '>'),
        free_of("renameworkspace"@, '>'),
        free_of("windowtitlev2"@, '>'),
        free_of("fullscreen"@, '>'),
        "focusedmon"@ != "workspacev2"@,
        "activewindowv2"@ != "workspacev2"@,
        "activewindowv2"@ != "focusedmon"@,
        "openwindow"@ != "workspacev2"@,
        "openwindow"@ != "focusedmon"@,
        "openwindow"@ != "activewindowv2"@,
        "closewindow"@ != "workspacev2"@,
        "closewindow"@ != "focusedmon"@,
        "closewindow"@ != "activewindowv2"@,
        "closewindow"@ != "openwindow"@,
        "movewindowv2"@ != "workspacev2"@,
        "movewindowv2"@ != "focusedmon"@,
        "movewindowv2"@ != "activewindowv2"@,
        "movewindowv2"@ != "openwindow"@,
        "movewindowv2"@ != "closewindow"@,
        "createworkspacev2"@ != "workspacev2"@,
        "createworkspacev2"@ != "focusedmon"@,
        "createworkspacev2"@ != "activewindowv2"@,
        "createworkspacev2"@ != "openwindow"@,
        "createworkspacev2"@ != "closewindow"@,
        "createworkspacev2"@ != "movewindowv2"@,
        "destroyworkspacev2"@ != "workspacev2"@,
        "destroyworkspacev2"@ != "focusedmon"@,
        "destroyworkspacev2"@ != "activewindowv2"@,
        "destroyworkspacev2"@ != "openwindow"@,
        "destroyworkspacev2"@ != "closewindow"@,
        "destroyworkspacev2"@ != "movewindowv2"@,
        "destroyworkspacev2"@ != "createworkspacev2"@,
        "renameworkspace"@ != "workspacev2"@,
        "renameworkspace"@ != "focusedmon"@,
        "renameworkspace"@ != "activewindowv2"@,
        "renameworkspace"@ != "openwindow"@,
        "renameworkspace"@ != "closewindow"@,
        "renameworkspace"@ != "movewindowv2"@,
        "renameworkspace"@ != "createworkspacev2"@,
        "renameworkspace"@ != "destroyworkspacev2"@,
        "windowtitlev2"@ != "workspacev2"@,
        "windowtitlev2"@ != "focusedmon"@,
        "windowtitlev2"@ != "activewindowv2"@,
        "windowtitlev2"@ != "openwindow"@,
        "windowtitlev2"@ != "closewindow"@,
        "windowtitlev2"@ != "movewindowv2"@,
        "windowtitlev2"@ != "createworkspacev2"@,
        "windowtitlev2"@ != "destroyworkspacev2"@,
        "windowtitlev2"@ != "renameworkspace"@,
        "fullscreen"@ != "workspacev2"@,
        "fullscreen"@ != "focusedmon"@,
        "fullscreen"@ != "activewindowv2"@,
        "fullscreen"@ != "openwindow"@,
        "fullscreen"@ != "closewindow"@,
        "fullscreen"@ != "movewindowv2"@,
        "fullscreen"@ != "createworkspacev2"@,
        "fullscreen"@ != "destroyworkspacev2"@,
        "fullscreen"@ != "renameworkspace"@,
        "fullscreen"@ != "windowtitlev2"@,
{
    reveal_strlit("workspacev2");
    reveal_strlit("focusedmon");
    reveal_strlit("activewindowv2");
    reveal_strlit("openwindow");
    reveal_strlit("closewindow");
    reveal_strlit("movewindowv2");
    reveal_strlit("createworkspacev2");
    reveal_strlit("destroyworkspacev2");
    reveal_strlit("renameworkspace");
    reveal_strlit("windowtitlev2");
    reveal_strlit("fullscreen");
    assert("workspacev2"@.len() == 11);
    assert("focusedmon"@.len() == 10);
    assert("activewindowv2"@.len() == 14);
    assert("openwindow"@.len() == 10);
    assert("closewindow"@.len() == 11);
    assert("movewindowv2"@.len() == 12);
    assert("createworkspacev2"@.len() == 17);
    assert("destroyworkspacev2"@.len() == 18);
    assert("renameworkspace"@.len() == 15);
    assert("windowtitlev2"@.len() == 13);
    assert("fullscreen"@.len() == 10);
    assert("focusedmon"@[0] != "openwindow"@[0]);
    assert("focusedmon"@[0] != "fullscreen"@[1]);
    assert("openwindow"@[0] != "fullscreen"@[0]);
    assert("workspacev2"@[0] != "closewindow"@[0]);
}

/// `workspacev2>>id,name`, `createworkspacev2>>id,name`, `destroyworkspacev2>>id,name` and
/// `renameworkspace>>id,name` carry the parsed id and the whole rest as the name (commas
/// included), and are rejected when the id is not a number.
pub proof fn lemma_parse_workspace_lines(id: Seq<char>, name: Seq<char>)
    requires
        free_of(id, ','),
    ensures
        parse_event_spec("workspacev2"@ + ">>"@ + (id + seq![','] + name)) == match parse_i64_spec(id) {
            Some(n) => Some(HyprlandEventView::WorkspaceChanged { id: n, name }),
            None => None,
        },
        parse_event_spec("createworkspacev2"@ + ">>"@ + (id + seq![','] + name)) == match parse_i64_spec(id) {
            Some(n) => Some(HyprlandEventView::WorkspaceCreated { id: n, name }),
            None => None,
        },
        parse_event_spec("destroyworkspacev2"@ + ">>"@ + (id + seq![','] + name)) == match parse_i64_spec(id) {
            Some(n) => Some(HyprlandEventView::WorkspaceDestroyed { id: n, name }),
            None => None,
        },
        parse_event_spec("renameworkspace"@ + ">>"@ + (id + seq![','] + name)) == match parse_i64_spec(id) {
            Some(n) => Some(HyprlandEventView::WorkspaceRenamed { id: n, name }),
            None => None,
        },
{
    let data = id + seq![','] + name;
    lemma_event_names();
    lemma_id_name(id, name);
    lemma_split_once_concat(id, single(','), name);
    lemma_event_line("workspacev2"@, data);
    lemma_event_line("createworkspacev2"@, data);
    lemma_event_line("destroyworkspacev2"@, data);
    lemma_event_line("renameworkspace"@, data);
}

/// `focusedmon>>monitor,workspace` names the monitor before the first comma and the
/// workspace after it; `windowtitlev2>>address,title` names the window (in `0x…` form)
/// before the first comma and its title after it.
pub proof fn lemma_parse_pair_lines(first: Seq<char>, rest: Seq<char>)
    requires
        free_of(first, ','),
    ensures
        parse_event_spec("focusedmon"@ + ">>"@ + (first + seq![','] + rest)) == Some(
            HyprlandEventView::FocusedMonitor { monitor: first, workspace: rest },
        ),
        parse_event_spec("windowtitlev2"@ + ">>"@ + (first + seq![','] + rest)) == Some(
            HyprlandEventView::WindowTitle { address: normalized(first), title: rest },
        ),
{
    let data = first + seq![','] + rest;
    lemma_event_names();
    lemma_split_once_concat(first, single(','), rest);
    lemma_event_line("focusedmon"@, data);
    lemma_event_line("windowtitlev2"@, data);
}

/// `activewindowv2>>address` focuses the address in `0x…` form, or nothing when it is
/// empty; `closewindow>>address` closes the address in `0x…` form; `fullscreen>>0` and
/// `fullscreen>>1` clear and set full screen.
pub proof fn lemma_parse_single_lines(data: Seq<char>)
    ensures
        parse_event_spec("activewindowv2"@ + ">>"@ + data) == Some(
            HyprlandEventView::ActiveWindow {
                address: if data.len() == 0 {
                    None
                } else {
                    Some(normalized(data))
                },
            },
        ),
        parse_event_spec("closewindow"@ + ">>"@ + data) == Some(HyprlandEventView::WindowClosed { address: normalized(data) }),
        parse_event_spec("fullscreen"@ + ">>"@ + "0"@) == Some(HyprlandEventView::Fullscreen(false)),
        parse_event_spec("fullscreen"@ + ">>"@ + "1"@) == Some(HyprlandEventView::Fullscreen(true)),
{
    lemma_event_names();
    lemma_event_line("activewindowv2"@, data);
    lemma_event_line("closewindow"@, data);
    lemma_event_line("fullscreen"@, "0"@);
    lemma_event_line("fullscreen"@, "1"@);
    reveal_strlit("0");
    reveal_strlit("1");
    assert("1"@[0] != "0"@[0]);
    assert("1"@ != "0"@);
}

/// `openwindow>>address,workspace,class,title` opens the window (address in `0x…` form)
/// on that workspace with that class, the title keeping any further commas; without a
/// title field the title is empty. `movewindowv2>>address,id,workspace` moves the window
/// to the workspace after the second comma.
pub proof fn lemma_parse_window_lines(address: Seq<char>, workspace: Seq<char>, class: Seq<char>, title: Seq<char>)
    requires
        free_of(address, ','),
        free_of(workspace, ','),
        free_of(class, ','),
    ensures
        parse_event_spec(
            "openwindow"@ + ">>"@ + (address + seq![','] + (workspace + seq![','] + (class + seq![','] + title))),
        ) == Some(HyprlandEventView::WindowOpened { address: normalized(address), workspace, class, title }),
        parse_event_spec("openwindow"@ + ">>"@ + (address + seq![','] + (workspace + seq![','] + class))) == Some(
            HyprlandEventView::WindowOpened { address: normalized(address), workspace, class, title: Seq::empty() },
        ),
        parse_event_spec("movewindowv2"@ + ">>"@ + (address + seq![','] + (class + seq![','] + title))) == Some(
            HyprlandEventView::WindowMoved { address: normalized(address), workspace: title },
        ),
{
    lemma_event_names();
    let tail = class + seq![','] + title;
    let mid = workspace + seq![','] + tail;
    let full = address + seq![','] + mid;
    lemma_split_n_comma(address, mid, 4);
    lemma_split_n_comma(workspace, tail, 3);
    lemma_split_n_comma(class, title, 2);
    assert(split_n(title, 1, ',') == seq![title]);
    assert(split_n(full, 4, ',') =~= seq![address, workspace, class, title]);
    lemma_event_line("openwindow"@, full);

    let short_mid = workspace + seq![','] + class;
    let short = address + seq![','] + short_mid;
    lemma_split_n_comma(address, short_mid, 4);
    lemma_split_n_comma(workspace, class, 3);
    assert(split_once(class, single(',')) is None) by {
        if exists|i: int| #[trigger] crate::text::occurs_at(class, single(','), i) {
            let i = choose|i: int| #[trigger] crate::text::occurs_at(class, single(','), i);
            assert(class.subrange(i, i + 1)[0] == class[i]);
        }
    }
    assert(split_n(class, 2, ',') == seq![class]);
    assert(split_n(short, 4, ',') =~= seq![address, workspace, class]);
    lemma_event_line("openwindow"@, short);

    let moved = address + seq![','] + tail;
    lemma_split_n_comma(address, tail, 3);
    lemma_split_n_comma(class, title, 2);
    assert(split_n(moved, 3, ',') =~= seq![address, class, title]);
    lemma_event_line("movewindowv2"@, moved);
}

/// Splits `id,name` data and parses the id.
fn parse_id_name(data: &str) -> (r: Option<(i64, String)>)
    ensures
        match r {
            Some((id, name)) => id_name_spec(data@) == Some((id, name@)),
            None => id_name_spec(data@) is None,
        },
{
    let (id, name) = match split_once_char(data, ',') {
        Some(parts) => parts,
        None => return None,
    };
    match parse_i64(id.as_str()) {
        Some(id) => Some((id, name)),
        None => None,
    }
}

/// Parses the data of a workspace creation (`created`) or destruction event.
pub fn parse_workspace_event(data: &str, created: bool) -> (r: Option<HyprlandEvent>)
    ensures
        opt_event_view(r) == workspace_event_spec(data@, created),
{
    match parse_id_name(data) {
        Some((id, name)) => if created {
            Some(HyprlandEvent::WorkspaceCreated { id, name })
        } else {
            Some(HyprlandEvent::WorkspaceDestroyed { id, name })
        },
        None => None,
    }
}

/// The event named `name` with data `data`.
fn parse_named_event(name: &str, data: &str) -> (r: Option<HyprlandEvent>)
    ensures
        opt_event_view(r) == named_event_spec(name@, data@),
{
    if same_text(name, "workspacev2") {
        match parse_id_name(data) {
            Some((id, name)) => Some(HyprlandEvent::WorkspaceChanged { id, name }),
            None => None,
        }
    } else if same_text(name, "focusedmon") {
        match split_once_char(data, ',') {
            Some((monitor, workspace)) => Some(HyprlandEvent::FocusedMonitor { monitor, workspace }),
            None => None,
        }
    } else if same_text(name, "activewindowv2") {
        let address = if data.is_empty() {
            None
        } else {
            Some(normalize_address(data))
        };
        Some(HyprlandEvent::ActiveWindow { address })
    } else if same_text(name, "openwindow") {
        let fields = split_n_str(data, 4, ',');
        proof {
            assert(views(fields@).len() == fields@.len());
        }
        if fields.len() >= 3 {
            let title = if fields.len() >= 4 {
                fields[3].clone()
            } else {
                String::new()
            };
            proof {
                assert(fields@[0]@ == views(fields@)[0]);
                assert(fields@[1]@ == views(fields@)[1]);
                assert(fields@[2]@ == views(fields@)[2]);
                if fields@.len() >= 4 {
                    assert(fields@[3]@ == views(fields@)[3]);
                }
            }
            Some(
                HyprlandEvent::WindowOpened {
                    address: normalize_address(fields[0].as_str()),
                    workspace: fields[1].clone(),
                    class: fields[2].clone(),
                    title,
                },
            )
        } else {
            None
        }
    } else if same_text(name, "closewindow") {
        Some(HyprlandEvent::WindowClosed { address: normalize_address(data) })
    } else if same_text(name, "movewindowv2") {
        let fields = split_n_str(data, 3, ',');
        proof {
            assert(views(fields@).len() == fields@.len());
        }
        if fields.len() >= 3 {
            proof {
                assert(fields@[0]@ == views(fields@)[0]);
                assert(fields@[2]@ == views(fields@)[2]);
            }
            Some(
                HyprlandEvent::WindowMoved {
                    address: normalize_address(fields[0].as_str()),
                    workspace: fields[2].clone(),
                },
            )
        } else {
            None
        }
    } else if same_text(name, "createworkspacev2") {
        parse_workspace_event(data, true)
    } else if same_text(name, "destroyworkspacev2") {
        parse_workspace_event(data, false)
    } else if same_text(name, "renameworkspace") {
        match parse_id_name(data) {
            Some((id, name)) => Some(HyprlandEvent::WorkspaceRenamed { id, name }),
            None => None,
        }
    } else if same_text(name, "windowtitlev2") {
        match split_once_char(data, ',') {
            Some((address, title)) => Some(
                HyprlandEvent::WindowTitle { address: normalize_address(address.as_str()), title },
            ),
            None => None,
        }
    } else if same_text(name, "fullscreen") {
        if same_text(data, "0") {
            Some(HyprlandEvent::Fullscreen(false))
        } else if same_text(data, "1") {
            Some(HyprlandEvent::Fullscreen(true))
        } else {
            None
        }
    } else {
        None
    }
}

/// Parses one line of Hyprland's event socket; unknown or malformed events give `None`.
pub fn parse_event(line: &str) -> (r: Option<HyprlandEvent>)
    ensures
        opt_event_view(r) == parse_event_spec(line@),
{
    match split_once_str(line, ">>") {
        Some((name, data)) => parse_named_event(name.as_str(), data.as_str()),
        None => None,
    }
}

/// The window a `openwindow` event describes: mapped, shown, not full screen, with no
/// monitor of its own yet.
pub open spec fn opened_window(address: Seq<char>, workspace: Seq<char>, class: Seq<char>, title: Seq<char>) -> WindowView {
    WindowView {
        address,
        workspace,
        class,
        title,
        monitor: None,
        mapped: true,
        hidden: false,
        fullscreen: false,
        attention: AttentionState::Hidden,
    }
}

/// `after` is the graph `before` becomes on event `e`. Every event but a rename has one
/// outcome; a rename renames one of the workspaces that carry its id, or changes nothing
/// when none does.
pub open spec fn event_outcome(before: GraphView, e: HyprlandEventView, after: GraphView) -> bool {
    match e {
        HyprlandEventView::WorkspaceChanged { id, name } => after == upsert_workspace_spec(before, id, name, None),
        HyprlandEventView::WorkspaceCreated { id, name } => after == upsert_workspace_spec(before, id, name, None),
        HyprlandEventView::FocusedMonitor { monitor, workspace } => after == set_active_workspace_spec(
            before,
            monitor,
            workspace,
        ),
        HyprlandEventView::ActiveWindow { address } => after == set_focused_window_spec(before, address),
        HyprlandEventView::WindowOpened { address, workspace, class, title } => after == upsert_window_spec(
            before,
            opened_window(address, workspace, class, title),
        ),
        HyprlandEventView::WindowClosed { address } => after == remove_window_spec(before, address),
        HyprlandEventView::WindowMoved { address, workspace } => after == move_window_spec(before, address, workspace),
        HyprlandEventView::WorkspaceDestroyed { id: _, name } => after == remove_workspace_spec(before, name),
        HyprlandEventView::WorkspaceRenamed { id, name } => if has_workspace_id(before, id) {
            exists|old_name: Seq<char>|
                #[trigger] before.workspaces.contains_key(old_name) && before.workspaces[old_name].id == id && after
                    == rename_workspace_spec(before, old_name, name)
        } else {
            after == before
        },
        HyprlandEventView::WindowTitle { address, title } => after == set_window_title_spec(before, address, title),
        HyprlandEventView::Fullscreen(on) => after == set_fullscreen_spec(before, on),
    }
}

/// Applies one compositor event to the attention graph.
pub fn apply_event(graph: &mut AttentionGraph, event: HyprlandEvent)
    requires
        old(graph).wf(),
    ensures
        final(graph).wf(),
        event_outcome(old(graph)@, event@, final(graph)@),
{
    match event {
        HyprlandEvent::WorkspaceChanged { id, name } => graph.upsert_workspace(id, name.as_str(), None),
        HyprlandEvent::WorkspaceCreated { id, name } => graph.upsert_workspace(id, name.as_str(), None),
        HyprlandEvent::FocusedMonitor { monitor, workspace } => graph.set_active_workspace(monitor, workspace),
        HyprlandEvent::ActiveWindow { address } => graph.set_focused_window(address),
        HyprlandEvent::WindowOpened { address, workspace, class, title } => {
            graph.upsert_window(
                WindowState {
                    address,
                    workspace,
                    class,
                    title,
                    monitor: None,
                    mapped: true,
                    hidden: false,
                    fullscreen: false,
                    attention: AttentionState::Hidden,
                },
            );
        },
        HyprlandEvent::WindowClosed { address } => graph.remove_window(address.as_str()),
        HyprlandEvent::WindowMoved { address, workspace } => graph.move_window(address.as_str(), workspace),
        HyprlandEvent::WorkspaceDestroyed { id: _, name } => graph.remove_workspace(name.as_str()),
        HyprlandEvent::WorkspaceRenamed { id, name } => graph.rename_workspace(id, name.as_str()),
        HyprlandEvent::WindowTitle { address, title } => graph.set_window_title(address.as_str(), title),
        HyprlandEvent::Fullscreen(on) => graph.set_fullscreen(on),
    }
}

/// A workspace as the compositor's monitor and client lists refer to it.
#[derive(Debug, Clone)]
pub struct WorkspaceRef {
    pub id: i64,
    pub name: String,
}

/// One entry of the compositor's monitor list.
#[derive(Debug, Clone)]
pub struct MonitorSnapshot {
    pub id: i64,
    pub name: String,
    pub active_workspace: WorkspaceRef,
}

/// One entry of the compositor's workspace list; `monitor` is empty when the reply
/// named none.
#[derive(Debug, Clone)]
pub struct WorkspaceSnapshot {
    pub id: i64,
    pub name: String,
    pub monitor: String,
    pub monitor_id: i64,
}

/// One entry of the compositor's client (window) list.
#[derive(Debug, Clone)]
pub struct ClientSnapshot {
    pub address: String,
    pub mapped: bool,
    pub hidden: bool,
    pub class: String,
    pub title: String,
    pub monitor: i64,
    pub workspace: WorkspaceRef,
    pub fullscreen: i64,
}

/// The name of the last monitor listed with identifier `id`.
pub open spec fn monitor_name(monitors: Seq<MonitorSnapshot>, id: i64) -> Option<Seq<char>>
    decreases monitors.len(),
{
    if monitors.len() == 0 {
        None
    } else if monitors.last().id == id {
        Some(monitors.last().name@)
    } else {
        monitor_name(monitors.drop_last(), id)
    }
}

/// The monitor of a listed workspace: the one it names, else the one its monitor id names.
pub open spec fn workspace_monitor(monitors: Seq<MonitorSnapshot>, ws: WorkspaceSnapshot) -> Option<Seq<char>> {
    if ws.monitor@.len() > 0 {
        Some(ws.monitor@)
    } else {
        monitor_name(monitors, ws.monitor_id)
    }
}

/// `v` after upserting each listed workspace in turn.
pub open spec fn with_listed_workspaces(v: GraphView, monitors: Seq<MonitorSnapshot>, wss: Seq<WorkspaceSnapshot>) -> GraphView
    decreases wss.len(),
{
    if wss.len() == 0 {
        v
    } else {
        let ws = wss.last();
        upsert_workspace_spec(
            with_listed_workspaces(v, monitors, wss.drop_last()),
            ws.id,
            ws.name@,
            workspace_monitor(monitors, ws),
        )
    }
}

/// `v` after recording that monitor `m` shows its active workspace.
pub open spec fn monitor_step(v: GraphView, m: MonitorSnapshot) -> GraphView {
    set_active_workspace_spec(
        upsert_workspace_spec(v, m.active_workspace.id, m.active_workspace.name@, Some(m.name@)),
        m.name@,
        m.active_workspace.name@,
    )
}

/// `v` after each listed monitor in turn.
pub open spec fn with_listed_monitors(v: GraphView, ms: Seq<MonitorSnapshot>) -> GraphView
    decreases ms.len(),
{
    if ms.len() == 0 {
        v
    } else {
        monitor_step(with_listed_monitors(v, ms.drop_last()), ms.last())
    }
}

/// The window a listed client describes.
pub open spec fn client_window(monitors: Seq<MonitorSnapshot>, c: ClientSnapshot) -> WindowView {
    WindowView {
        address: normalized(c.address@),
        workspace: c.workspace.name@,
        class: c.class@,
        title: c.title@,
        monitor: monitor_name(monitors, c.monitor),
        mapped: c.mapped,
        hidden: c.hidden,
        fullscreen: c.fullscreen != 0,
        attention: AttentionState::Hidden,
    }
}

/// `v` after recording client `c`: its workspace, then the window itself.
pub open spec fn client_step(v: GraphView, monitors: Seq<MonitorSnapshot>, c: ClientSnapshot) -> GraphView {
    upsert_window_spec(
        upsert_workspace_spec(v, c.workspace.id, c.workspace.name@, monitor_name(monitors, c.monitor)),
        client_window(monitors, c),
    )
}

/// `v` after each listed client in turn.
pub open spec fn with_listed_clients(v: GraphView, monitors: Seq<MonitorSnapshot>, cs: Seq<ClientSnapshot>) -> GraphView
    decreases cs.len(),
{
    if cs.len() == 0 {
        v
    } else {
        client_step(with_listed_clients(v, monitors, cs.drop_last()), monitors, cs.last())
    }
}

/// The attention graph that the compositor's lists describe: workspaces first, then what
/// each monitor shows, then the clients, and finally the focus.
pub open spec fn snapshot_spec(
    monitors: Seq<MonitorSnapshot>,
    workspaces: Seq<WorkspaceSnapshot>,
    clients: Seq<ClientSnapshot>,
    focused: Option<Seq<char>>,
) -> GraphView {
    set_focused_window_spec(
        with_listed_clients(
            with_listed_monitors(with_listed_workspaces(empty_graph(), monitors, workspaces), monitors),
            monitors,
            clients,
        ),
        focused,
    )
}

/// The focus that an active-window reply's address gives: none for an empty address.
pub open spec fn focused_spec(address: Option<Seq<char>>) -> Option<Seq<char>> {
    match address {
        Some(a) => if a.len() > 0 {
            Some(normalized(a))
        } else {
            None
        },
        None => None,
    }
}

/// The position of the last listed client whose normalized address is `address`.
pub open spec fn last_client(clients: Seq<ClientSnapshot>, address: Seq<char>) -> Option<int>
    decreases clients.len(),
{
    if clients.len() == 0 {
        None
    } else if normalized(clients.last().address@) == address {
        Some(clients.len() - 1)
    } else {
        last_client(clients.drop_last(), address)
    }
}

/// A window carries what client `c` lists: its workspace, class, title, mapped and
/// hidden flags and full-screen state.
pub open spec fn describes_client(w: WindowView, c: ClientSnapshot) -> bool {
    &&& w.workspace == c.workspace.name@
    &&& w.class == c.class@
    &&& w.title == c.title@
    &&& w.mapped == c.mapped
    &&& w.hidden == c.hidden
    &&& w.fullscreen == (c.fullscreen != 0)
}

/// Recomputing derived fields keeps the set of windows and what each lists.
proof fn lemma_refreshed_listing(v: GraphView)
    ensures
        refreshed(v).windows.dom() == v.windows.dom(),
        forall|a: Seq<char>| #[trigger] v.windows.contains_key(a) ==> same_listing(refreshed(v).windows[a], v.windows[a]),
{
    assert(refreshed(v).windows.dom() =~= v.windows.dom());
    assert forall|a: Seq<char>| #[trigger] v.windows.contains_key(a) implies same_listing(refreshed(v).windows[a], v.windows[a]) by {
        assert(refreshed(v).windows[a] == refresh_window(v, v.windows[a]));
    }
}

/// Upserting a workspace keeps the set of windows and what each lists.
proof fn lemma_upsert_workspace_listing(v: GraphView, id: i64, name: Seq<char>, monitor: Option<Seq<char>>)
    ensures
        upsert_workspace_spec(v, id, name, monitor).windows.dom() == v.windows.dom(),
        forall|a: Seq<char>|
            #[trigger] v.windows.contains_key(a) ==> same_listing(upsert_workspace_spec(v, id, name, monitor).windows[a], v.windows[a]),
{
    lemma_refreshed_listing(with_workspaces(v, v.workspaces.insert(name, upserted_workspace(v, id, name, monitor))));
}

/// Listing workspaces adds no window.
proof fn lemma_listed_workspaces_windows(v: GraphView, monitors: Seq<MonitorSnapshot>, wss: Seq<WorkspaceSnapshot>)
    ensures
        with_listed_workspaces(v, monitors, wss).windows.dom() == v.windows.dom(),
    decreases wss.len(),
{
    if wss.len() > 0 {
        lemma_listed_workspaces_windows(v, monitors, wss.drop_last());
        let ws = wss.last();
        lemma_upsert_workspace_listing(with_listed_workspaces(v, monitors, wss.drop_last()), ws.id, ws.name@, workspace_monitor(monitors, ws));
    }
}

/// Listing monitors adds no window.
proof fn lemma_listed_monitors_windows(v: GraphView, ms: Seq<MonitorSnapshot>)
    ensures
        with_listed_monitors(v, ms).windows.dom() == v.windows.dom(),
    decreases ms.len(),
{
    if ms.len() > 0 {
        lemma_listed_monitors_windows(v, ms.drop_last());
        let prev = with_listed_monitors(v, ms.drop_last());
        let m = ms.last();
        lemma_upsert_workspace_listing(prev, m.active_workspace.id, m.active_workspace.name@, Some(m.name@));
        let up = upsert_workspace_spec(prev, m.active_workspace.id, m.active_workspace.name@, Some(m.name@));
        lemma_refreshed_listing(with_active(up, up.active_workspaces.insert(m.name@, m.active_workspace.name@)));
    }
}

/// After listing clients, the windows are those that were there plus one per listed
/// address, and a listed address carries what its last client lists.
proof fn lemma_listed_clients_windows(v: GraphView, monitors: Seq<MonitorSnapshot>, cs: Seq<ClientSnapshot>, a: Seq<char>)
    ensures
        with_listed_clients(v, monitors, cs).windows.contains_key(a) == (v.windows.contains_key(a) || last_client(cs, a) is Some),
        last_client(cs, a) matches Some(j) ==> 0 <= j < cs.len() && describes_client(with_listed_clients(v, monitors, cs).windows[a], cs[j]),
    decreases cs.len(),
{
    if cs.len() > 0 {
        let prev = with_listed_clients(v, monitors, cs.drop_last());
        lemma_listed_clients_windows(v, monitors, cs.drop_last(), a);
        let c = cs.last();
        let up = upsert_workspace_spec(prev, c.workspace.id, c.workspace.name@, monitor_name(monitors, c.monitor));
        lemma_upsert_workspace_listing(prev, c.workspace.id, c.workspace.name@, monitor_name(monitors, c.monitor));
        let w = client_window(monitors, c);
        let ins = with_windows(up, up.windows.insert(w.address, stored_window(w)));
        lemma_refreshed_listing(ins);
        if w.address == a {
            assert(ins.windows[a] == stored_window(w));
        } else {
            assert(ins.windows.contains_key(a) == up.windows.contains_key(a));
            if let Some(j) = last_client(cs, a) {
                assert(last_client(cs.drop_last(), a) == Some(j));
                assert(cs.drop_last()[j] == cs[j]);
                assert(ins.windows[a] == up.windows[a]);
            }
        }
    }
}

/// The built graph has one window per listed client address and no other, and each such
/// window carries what the last client listed at that address lists: its workspace,
/// class, title, mapped and hidden flags and full-screen state.
pub proof fn lemma_snapshot_windows_follow_clients(
    monitors: Seq<MonitorSnapshot>,
    workspaces: Seq<WorkspaceSnapshot>,
    clients: Seq<ClientSnapshot>,
    focused: Option<Seq<char>>,
    a: Seq<char>,
)
    ensures
        snapshot_spec(monitors, workspaces, clients, focused).windows.contains_key(a) == (last_client(clients, a) is Some),
        last_client(clients, a) matches Some(j) ==> 0 <= j < clients.len() && describes_client(
            snapshot_spec(monitors, workspaces, clients, focused).windows[a],
            clients[j],
        ),
{
    let g0 = with_listed_workspaces(empty_graph(), monitors, workspaces);
    lemma_listed_workspaces_windows(empty_graph(), monitors, workspaces);
    let g1 = with_listed_monitors(g0, monitors);
    lemma_listed_monitors_windows(g0, monitors);
    let g2 = with_listed_clients(g1, monitors, clients);
    lemma_listed_clients_windows(g1, monitors, clients, a);
    let f = match focused {
        Some(x) => if g2.windows.contains_key(x) { Some(x) } else { None },
        None => None,
    };
    lemma_refreshed_listing(with_focus(g2, f));
}

/// Some listed workspace is called `name`.
pub open spec fn lists_workspace(wss: Seq<WorkspaceSnapshot>, name: Seq<char>) -> bool {
    exists|i: int| 0 <= i < wss.len() && #[trigger] wss[i].name@ == name
}

/// Some listed monitor shows a workspace called `name`.
pub open spec fn shows_workspace(ms: Seq<MonitorSnapshot>, name: Seq<char>) -> bool {
    exists|i: int| 0 <= i < ms.len() && #[trigger] ms[i].active_workspace.name@ == name
}

/// Some listed client sits on a workspace called `name`.
pub open spec fn hosts_workspace(cs: Seq<ClientSnapshot>, name: Seq<char>) -> bool {
    exists|i: int| 0 <= i < cs.len() && #[trigger] cs[i].workspace.name@ == name
}

/// The position of the last listed monitor called `name`.
pub open spec fn last_monitor(ms: Seq<MonitorSnapshot>, name: Seq<char>) -> Option<int>
    decreases ms.len(),
{
    if ms.len() == 0 {
        None
    } else if ms.last().name@ == name {
        Some(ms.len() - 1)
    } else {
        last_monitor(ms.drop_last(), name)
    }
}

/// Upserting a workspace adds exactly its name to the workspaces and keeps the monitor
/// assignments.
proof fn lemma_upsert_workspace_names(v: GraphView, id: i64, name: Seq<char>, monitor: Option<Seq<char>>)
    ensures
        upsert_workspace_spec(v, id, name, monitor).workspaces.dom() == v.workspaces.dom().insert(name),
        upsert_workspace_spec(v, id, name, monitor).active_workspaces == v.active_workspaces,
{
    assert(upsert_workspace_spec(v, id, name, monitor).workspaces.dom() =~= v.workspaces.dom().insert(name));
}

/// Listing workspaces adds their names and keeps the monitor assignments.
proof fn lemma_listed_workspaces_names(v: GraphView, monitors: Seq<MonitorSnapshot>, wss: Seq<WorkspaceSnapshot>, n: Seq<char>)
    ensures
        with_listed_workspaces(v, monitors, wss).workspaces.contains_key(n) == (v.workspaces.contains_key(n) || lists_workspace(wss, n)),
        with_listed_workspaces(v, monitors, wss).active_workspaces == v.active_workspaces,
    decreases wss.len(),
{
    if wss.len() > 0 {
        let ws = wss.last();
        lemma_listed_workspaces_names(v, monitors, wss.drop_last(), n);
        lemma_upsert_workspace_names(with_listed_workspaces(v, monitors, wss.drop_last()), ws.id, ws.name@, workspace_monitor(monitors, ws));
        if lists_workspace(wss, n) && !lists_workspace(wss.drop_last(), n) {
            let i = choose|i: int| 0 <= i < wss.len() && #[trigger] wss[i].name@ == n;
            if i < wss.len() - 1 {
                assert(wss.drop_last()[i] == wss[i]);
            }
        }
        if lists_workspace(wss.drop_last(), n) {
            let i = choose|i: int| 0 <= i < wss.drop_last().len() && #[trigger] wss.drop_last()[i].name@ == n;
            assert(wss[i] == wss.drop_last()[i]);
        }
    }
}

/// Listing monitors adds their shown workspaces, and each monitor name ends up showing the
/// workspace of the last monitor listed under it.
#[verifier::spinoff_prover]
proof fn lemma_listed_monitors_names(v: GraphView, ms: Seq<MonitorSnapshot>, n: Seq<char>, m: Seq<char>)
    ensures
        with_listed_monitors(v, ms).workspaces.contains_key(n) == (v.workspaces.contains_key(n) || shows_workspace(ms, n)),
        with_listed_monitors(v, ms).active_workspaces.contains_key(m) == (v.active_workspaces.contains_key(m) || last_monitor(ms, m) is Some),
        last_monitor(ms, m) matches Some(j) ==> 0 <= j < ms.len() && with_listed_monitors(v, ms).active_workspaces[m]
            == ms[j].active_workspace.name@,
        last_monitor(ms, m) is None ==> with_listed_monitors(v, ms).active_workspaces.contains_key(m) ==> with_listed_monitors(v, ms).active_workspaces[m] == v.active_workspaces[m],
    decreases ms.len(),
{
    if ms.len() > 0 {
        let prev = with_listed_monitors(v, ms.drop_last());
        lemma_listed_monitors_names(v, ms.drop_last(), n, m);
        let x = ms.last();
        lemma_upsert_workspace_names(prev, x.active_workspace.id, x.active_workspace.name@, Some(x.name@));
        let up = upsert_workspace_spec(prev, x.active_workspace.id, x.active_workspace.name@, Some(x.name@));
        let act = with_active(up, up.active_workspaces.insert(x.name@, x.active_workspace.name@));
        assert(refreshed(act).workspaces.dom() =~= act.workspaces.dom());
        assert(with_listed_monitors(v, ms) == refreshed(act));
        assert(with_listed_monitors(v, ms).workspaces.dom() == prev.workspaces.dom().insert(x.active_workspace.name@));
        if shows_workspace(ms, n) && !shows_workspace(ms.drop_last(), n) {
            let i = choose|i: int| 0 <= i < ms.len() && #[trigger] ms[i].active_workspace.name@ == n;
            if i < ms.len() - 1 {
                assert(ms.drop_last()[i] == ms[i]);
            }
        }
        if shows_workspace(ms.drop_last(), n) {
            let i = choose|i: int| 0 <= i < ms.drop_last().len() && #[trigger] ms.drop_last()[i].active_workspace.name@ == n;
            assert(ms[i] == ms.drop_last()[i]);
        }
        if let Some(j) = last_monitor(ms.drop_last(), m) {
            assert(ms.drop_last()[j] == ms[j]);
        }
    }
}

/// Listing clients adds their workspaces and keeps the monitor assignments.
proof fn lemma_listed_clients_names(v: GraphView, monitors: Seq<MonitorSnapshot>, cs: Seq<ClientSnapshot>, n: Seq<char>)
    ensures
        with_listed_clients(v, monitors, cs).workspaces.contains_key(n) == (v.workspaces.contains_key(n) || hosts_workspace(cs, n)),
        with_listed_clients(v, monitors, cs).active_workspaces == v.active_workspaces,
    decreases cs.len(),
{
    if cs.len() > 0 {
        let prev = with_listed_clients(v, monitors, cs.drop_last());
        lemma_listed_clients_names(v, monitors, cs.drop_last(), n);
        let c = cs.last();
        lemma_upsert_workspace_names(prev, c.workspace.id, c.workspace.name@, monitor_name(monitors, c.monitor));
        let up = upsert_workspace_spec(prev, c.workspace.id, c.workspace.name@, monitor_name(monitors, c.monitor));
        let w = client_window(monitors, c);
        let ins = with_windows(up, up.windows.insert(w.address, stored_window(w)));
        assert(refreshed(ins).workspaces.dom() =~= ins.workspaces.dom());
        if hosts_workspace(cs, n) && !hosts_workspace(cs.drop_last(), n) {
            let i = choose|i: int| 0 <= i < cs.len() && #[trigger] cs[i].workspace.name@ == n;
            if i < cs.len() - 1 {
                assert(cs.drop_last()[i] == cs[i]);
            }
        }
        if hosts_workspace(cs.drop_last(), n) {
            let i = choose|i: int| 0 <= i < cs.drop_last().len() && #[trigger] cs.drop_last()[i].workspace.name@ == n;
            assert(cs[i] == cs.drop_last()[i]);
        }
    }
}

/// The built graph knows exactly the workspaces that are listed, shown by a monitor or
/// hosting a client; each listed monitor name shows the active workspace of the last
/// monitor listed under that name, and no other monitor shows anything; focus is on the
/// given address exactly when a client is listed there.
pub proof fn lemma_snapshot_workspaces_and_focus(
    monitors: Seq<MonitorSnapshot>,
    workspaces: Seq<WorkspaceSnapshot>,
    clients: Seq<ClientSnapshot>,
    focused: Option<Seq<char>>,
    n: Seq<char>,
    m: Seq<char>,
)
    ensures
        snapshot_spec(monitors, workspaces, clients, focused).workspaces.contains_key(n) == (lists_workspace(workspaces, n)
            || shows_workspace(monitors, n) || hosts_workspace(clients, n)),
        snapshot_spec(monitors, workspaces, clients, focused).active_workspaces.contains_key(m) == (last_monitor(monitors, m) is Some),
        last_monitor(monitors, m) matches Some(j) ==> 0 <= j < monitors.len() && snapshot_spec(monitors, workspaces, clients, focused).active_workspaces[m]
            == monitors[j].active_workspace.name@,
        snapshot_spec(monitors, workspaces, clients, focused).focused_window == (match focused {
            Some(x) => if last_client(clients, x) is Some {
                Some(x)
            } else {
                None
            },
            None => None,
        }),
{
    let g0 = with_listed_workspaces(empty_graph(), monitors, workspaces);
    lemma_listed_workspaces_names(empty_graph(), monitors, workspaces, n);
    let g1 = with_listed_monitors(g0, monitors);
    lemma_listed_monitors_names(g0, monitors, n, m);
    let g2 = with_listed_clients(g1, monitors, clients);
    lemma_listed_clients_names(g1, monitors, clients, n);
    lemma_listed_workspaces_windows(empty_graph(), monitors, workspaces);
    lemma_listed_monitors_windows(g0, monitors);
    if let Some(x) = focused {
        lemma_listed_clients_windows(g1, monitors, clients, x);
    }
    let f = match focused {
        Some(x) => if g2.windows.contains_key(x) { Some(x) } else { None },
        None => None,
    };
    assert(refreshed(with_focus(g2, f)).workspaces.dom() =~= g2.workspaces.dom());
}

/// The name of the last monitor listed with identifier `id`.
fn find_monitor_name(monitors: &Vec<MonitorSnapshot>, id: i64) -> (r: Option<String>)
    ensures
        opt_view(r) == monitor_name(monitors@, id),
{
    let mut i: usize = monitors.len();
    proof {
        assert(monitors@.take(i as int) =~= monitors@);
    }
    while i > 0
        invariant
            i <= monitors@.len(),
            monitor_name(monitors@, id) == monitor_name(monitors@.take(i as int), id),
        decreases i,
    {
        i -= 1;
        proof {
            assert(monitors@.take(i + 1).drop_last() =~= monitors@.take(i as int));
        }
        if monitors[i].id == id {
            return Some(monitors[i].name.clone());
        }
    }
    None
}

/// The focus an active-window address gives: none for an empty address, else the
/// address in `0x…` form.
pub fn focused_address(address: Option<String>) -> (r: Option<String>)
    ensures
        opt_view(r) == focused_spec(opt_view(address)),
{
    match address {
        Some(a) => if a.as_str().is_empty() {
            None
        } else {
            Some(normalize_address(a.as_str()))
        },
        None => None,
    }
}

/// Builds the attention graph from the compositor's monitor, workspace and client lists
/// and the focused window's address.
pub fn build_attention(
    monitors: &Vec<MonitorSnapshot>,
    workspaces: &Vec<WorkspaceSnapshot>,
    clients: &Vec<ClientSnapshot>,
    focused: Option<String>,
) -> (g: AttentionGraph)
    ensures
        g.wf(),
        g@ == snapshot_spec(monitors@, workspaces@, clients@, opt_view(focused)),
{
    let mut graph = AttentionGraph::new();
    let mut i: usize = 0;
    while i < workspaces.len()
        invariant
            i <= workspaces@.len(),
            graph.wf(),
            graph@ == with_listed_workspaces(empty_graph(), monitors@, workspaces@.take(i as int)),
        decreases workspaces@.len() - i,
    {
        let ws = &workspaces[i];
        let monitor = if ws.monitor.as_str().is_empty() {
            find_monitor_name(monitors, ws.monitor_id)
        } else {
            Some(ws.monitor.clone())
        };
        proof {
            assert(workspaces@.take(i + 1).drop_last() =~= workspaces@.take(i as int));
        }
        graph.upsert_workspace(ws.id, ws.name.as_str(), monitor);
        i += 1;
    }
    proof {
        assert(workspaces@.take(workspaces@.len() as int) =~= workspaces@);
    }
    let ghost after_workspaces = graph@;
    let mut j: usize = 0;
    proof {
        assert(monitors@.take(0) =~= Seq::<MonitorSnapshot>::empty());
    }
    while j < monitors.len()
        invariant
            j <= monitors@.len(),
            graph.wf(),
            graph@ == with_listed_monitors(after_workspaces, monitors@.take(j as int)),
        decreases monitors@.len() - j,
    {
        let m = &monitors[j];
        proof {
            assert(monitors@.take(j + 1).drop_last() =~= monitors@.take(j as int));
        }
        graph.upsert_workspace(m.active_workspace.id, m.active_workspace.name.as_str(), Some(m.name.clone()));
        graph.set_active_workspace(m.name.clone(), m.active_workspace.name.clone());
        j += 1;
    }
    proof {
        assert(monitors@.take(monitors@.len() as int) =~= monitors@);
    }
    let ghost after_monitors = graph@;
    let mut k: usize = 0;
    proof {
        assert(clients@.take(0) =~= Seq::<ClientSnapshot>::empty());
    }
    while k < clients.len()
        invariant
            k <= clients@.len(),
            graph.wf(),
            graph@ == with_listed_clients(after_monitors, monitors@, clients@.take(k as int)),
        decreases clients@.len() - k,
    {
        let c = &clients[k];
        proof {
            assert(clients@.take(k + 1).drop_last() =~= clients@.take(k as int));
        }
        let monitor = find_monitor_name(monitors, c.monitor);
        graph.upsert_workspace(c.workspace.id, c.workspace.name.as_str(), monitor.clone());
        graph.upsert_window(
            WindowState {
                address: normalize_address(c.address.as_str()),
                workspace: c.workspace.name.clone(),
                class: c.class.clone(),
                title: c.title.clone(),
                monitor,
                mapped: c.mapped,
                hidden: c.hidden,
                fullscreen: c.fullscreen != 0,
                attention: AttentionState::Hidden,
            },
        );
        k += 1;
    }
    proof {
        assert(clients@.take(clients@.len() as int) =~= clients@);
    }
    graph.set_focused_window(focused);
    graph
}

/// The `address` field of a JSON reply: `None` when the text is not JSON, `Some(None)`
/// when it is JSON without a string `address` field, else `Some(Some(address))`.
pub uninterp spec fn json_address_field(text: Seq<char>) -> Option<Option<Seq<char>>>;

/// The view of an optional optional string.
pub open spec fn opt_opt_view(o: Option<Option<String>>) -> Option<Option<Seq<char>>> {
    match o {
        Some(inner) => Some(opt_view(inner)),
        None => None,
    }
}

/// Reads the `address` field of the compositor's active-window reply with
/// `serde_json::from_str::<serde_json::Value>`, `Value::get("address")` and
/// `Value::as_str`. Trusted: the result is `json_address_field` of the text, that is,
/// it depends on the text alone; what serde_json accepts as JSON is not restated here.
#[verifier::external_body]
fn read_address_field(text: &str) -> (r: Option<Option<String>>)
    ensures
        opt_opt_view(r) == json_address_field(text@),
{
    match serde_json::from_str::<serde_json::Value>(text) {
        Ok(value) => Some(value.get("address").and_then(serde_json::Value::as_str).map(str::to_owned)),
        Err(_) => None,
    }
}

/// Builds the attention graph from the compositor's lists and its raw active-window
/// reply; `None` when that reply is not JSON.
pub fn snapshot_from_replies(
    monitors: &Vec<MonitorSnapshot>,
    workspaces: &Vec<WorkspaceSnapshot>,
    clients: &Vec<ClientSnapshot>,
    active_window: &str,
) -> (r: Option<AttentionGraph>)
    ensures
        match r {
            Some(g) => {
                &&& g.wf()
                &&& json_address_field(active_window@) matches Some(address)
                &&& g@ == snapshot_spec(monitors@, workspaces@, clients@, focused_spec(address))
            },
            None => json_address_field(active_window@) is None,
        },
{
    match read_address_field(active_window) {
        Some(address) => Some(build_attention(monitors, workspaces, clients, focused_address(address))),
        None => None,
    }
}

} // verus!
