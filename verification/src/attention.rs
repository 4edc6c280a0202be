//! The attention graph: which compositor windows exist, on which workspace,
//! which workspaces are shown on a monitor, and which window has focus.
use vstd::prelude::*;

use crate::keyed::{
    lemma_keyed_map_push, lemma_keyed_map_remove, lemma_keyed_map_take_step, lemma_keyed_map_update,
    count_where, find_key, has_key, key_index, keyed_map, lemma_count_where_map, lemma_count_where_step,
    lemma_key_index, lemma_keyed_map_len, lemma_keyed_map_lookup, lemma_keyed_map_pointwise, map_count,
    unique_keys, Keyed,
};

verus! {

/// How much of the user's attention a window currently holds.
#[derive(Debug, Clone, Copy, PartialEq, Eq)]
pub enum AttentionState {
    Focused,
    Visible,
    Hidden,
}

/// One compositor window.
#[derive(Debug, Clone, PartialEq, Eq)]
pub struct WindowState {
    pub address: String,
    pub workspace: String,
    pub class: String,
    pub title: String,
    pub monitor: Option<String>,
    pub mapped: bool,
    pub hidden: bool,
    pub fullscreen: bool,
    pub attention: AttentionState,
}

/// One compositor workspace.
#[derive(Debug, Clone, PartialEq, Eq)]
pub struct WorkspaceState {
    pub id: i64,
    pub name: String,
    pub monitor: Option<String>,
    pub active: bool,
    pub window_count: usize,
}

/// The workspace a monitor currently shows.
#[derive(Debug, Clone)]
struct ActiveWorkspace {
    monitor: String,
    workspace: String,
}

/// The view of an optional string.
pub open spec fn opt_view(o: Option<String>) -> Option<Seq<char>> {
    match o {
        Some(s) => Some(s@),
        None => None,
    }
}

/// Abstract window.
pub struct WindowView {
    pub address: Seq<char>,
    pub workspace: Seq<char>,
    pub class: Seq<char>,
    pub title: Seq<char>,
    pub monitor: Option<Seq<char>>,
    pub mapped: bool,
    pub hidden: bool,
    pub fullscreen: bool,
    pub attention: AttentionState,
}

/// Abstract workspace.
pub struct WorkspaceView {
    pub id: i64,
    pub name: Seq<char>,
    pub monitor: Option<Seq<char>>,
    pub active: bool,
    pub window_count: nat,
}

impl View for WindowState {
    type V = WindowView;

    open spec fn view(&self) -> WindowView {
        WindowView {
            address: self.address@,
            workspace: self.workspace@,
            class: self.class@,
            title: self.title@,
            monitor: opt_view(self.monitor),
            mapped: self.mapped,
            hidden: self.hidden,
            fullscreen: self.fullscreen,
            attention: self.attention,
        }
    }
}

impl Keyed for WindowState {
    open spec fn key(&self) -> Seq<char> {
        self.address@
    }

    fn key_str(&self) -> (k: &String) {
        &self.address
    }
}

impl View for WorkspaceState {
    type V = WorkspaceView;

    open spec fn view(&self) -> WorkspaceView {
        WorkspaceView {
            id: self.id,
            name: self.name@,
            monitor: opt_view(self.monitor),
            active: self.active,
            window_count: self.window_count as nat,
        }
    }
}

impl Keyed for WorkspaceState {
    open spec fn key(&self) -> Seq<char> {
        self.name@
    }

    fn key_str(&self) -> (k: &String) {
        &self.name
    }
}

impl View for ActiveWorkspace {
    type V = Seq<char>;

    closed spec fn view(&self) -> Seq<char> {
        self.workspace@
    }
}

impl Keyed for ActiveWorkspace {
    closed spec fn key(&self) -> Seq<char> {
        self.monitor@
    }

    fn key_str(&self) -> (k: &String) {
        &self.monitor
    }
}

/// Abstract attention graph: windows by address, workspaces by name, the
/// workspace each monitor shows, and the focused window's address.
pub struct GraphView {
    pub windows: Map<Seq<char>, WindowView>,
    pub workspaces: Map<Seq<char>, WorkspaceView>,
    pub active_workspaces: Map<Seq<char>, Seq<char>>,
    pub focused_window: Option<Seq<char>>,
}

/// Some monitor shows the workspace `name`.
pub open spec fn is_active_name(v: GraphView, name: Seq<char>) -> bool {
    exists|m: Seq<char>| #[trigger] v.active_workspaces.contains_key(m) && v.active_workspaces[m] == name
}

/// Focused if it has focus; visible if mapped, not hidden and on a shown workspace; else hidden.
pub open spec fn attention_of(v: GraphView, w: WindowView) -> AttentionState {
    if v.focused_window == Some(w.address) {
        AttentionState::Focused
    } else if w.mapped && !w.hidden && is_active_name(v, w.workspace) {
        AttentionState::Visible
    } else {
        AttentionState::Hidden
    }
}

/// A window without a monitor takes the monitor of its workspace, when that workspace is known.
pub open spec fn filled_monitor(v: GraphView, w: WindowView) -> Option<Seq<char>> {
    if w.monitor is None && v.workspaces.contains_key(w.workspace) {
        v.workspaces[w.workspace].monitor
    } else {
        w.monitor
    }
}

/// A window with its derived fields recomputed.
pub open spec fn refresh_window(v: GraphView, w: WindowView) -> WindowView {
    WindowView {
        address: w.address,
        workspace: w.workspace,
        class: w.class,
        title: w.title,
        monitor: filled_monitor(v, w),
        mapped: w.mapped,
        hidden: w.hidden,
        fullscreen: w.fullscreen,
        attention: attention_of(v, w),
    }
}

/// How many windows sit on workspace `name`.
pub open spec fn windows_on(windows: Map<Seq<char>, WindowView>, name: Seq<char>) -> nat {
    map_count(windows, |w: WindowView| w.workspace == name)
}

/// A workspace with its derived fields recomputed.
pub open spec fn refresh_workspace(v: GraphView, ws: WorkspaceView) -> WorkspaceView {
    WorkspaceView {
        id: ws.id,
        name: ws.name,
        monitor: ws.monitor,
        active: is_active_name(v, ws.name),
        window_count: windows_on(v.windows, ws.name),
    }
}

/// The graph with every derived field (attention, filled monitor, window count,
/// active flag) recomputed from the rest.
pub open spec fn refreshed(v: GraphView) -> GraphView {
    GraphView {
        windows: v.windows.map_values(|w: WindowView| refresh_window(v, w)),
        workspaces: v.workspaces.map_values(|ws: WorkspaceView| refresh_workspace(v, ws)),
        active_workspaces: v.active_workspaces,
        focused_window: v.focused_window,
    }
}

/// Keys agree with the entries' own names, the maps are finite, and a focused
/// window is a known window.
pub open spec fn well_keyed(v: GraphView) -> bool {
    &&& v.windows.dom().finite()
    &&& v.workspaces.dom().finite()
    &&& v.active_workspaces.dom().finite()
    &&& forall|a: Seq<char>| #[trigger] v.windows.contains_key(a) ==> v.windows[a].address == a
    &&& forall|n: Seq<char>| #[trigger] v.workspaces.contains_key(n) ==> v.workspaces[n].name == n
    &&& (v.focused_window matches Some(f) ==> v.windows.contains_key(f))
}

/// Every derived field agrees with the rest of the graph.
pub open spec fn consistent(v: GraphView) -> bool {
    &&& well_keyed(v)
    &&& forall|a: Seq<char>| #[trigger] v.windows.contains_key(a) ==> v.windows[a] == refresh_window(v, v.windows[a])
    &&& forall|n: Seq<char>| #[trigger] v.workspaces.contains_key(n) ==> v.workspaces[n] == refresh_workspace(v, v.workspaces[n])
}

/// Two maps over the same keys whose values agree on `p` count alike.
pub proof fn lemma_map_count_congruent<V>(m1: Map<Seq<char>, V>, m2: Map<Seq<char>, V>, p: spec_fn(V) -> bool)
    requires
        m1.dom() == m2.dom(),
        forall|k: Seq<char>| #[trigger] m1.contains_key(k) ==> p(m1[k]) == p(m2[k]),
    ensures
        map_count(m1, p) == map_count(m2, p),
{
    assert(m1.dom().filter(|k: Seq<char>| p(m1[k])) =~= m2.dom().filter(|k: Seq<char>| p(m2[k])));
}

/// Recomputing derived fields once makes them agree with the rest of the graph.
pub proof fn lemma_refreshed_consistent(v: GraphView)
    requires
        well_keyed(v),
    ensures
        consistent(refreshed(v)),
{
    let r = refreshed(v);
    assert(r.windows.dom() =~= v.windows.dom());
    assert forall|name: Seq<char>| #[trigger] windows_on(r.windows, name) == windows_on(v.windows, name) by {
        lemma_map_count_congruent(r.windows, v.windows, |w: WindowView| w.workspace == name);
    }
    assert(r.active_workspaces == v.active_workspaces);
    assert forall|n: Seq<char>| #[trigger] is_active_name(r, n) == is_active_name(v, n) by {}
    assert(r.windows.dom() =~= v.windows.dom());
    assert(r.workspaces.dom() =~= v.workspaces.dom());
    assert forall|a: Seq<char>| #[trigger] r.windows.contains_key(a) implies r.windows[a] == refresh_window(r, r.windows[a]) by {
        let w = v.windows[a];
        assert(r.windows[a] == refresh_window(v, w));
    }
    assert forall|n: Seq<char>| #[trigger] r.workspaces.contains_key(n) implies r.workspaces[n] == refresh_workspace(r, r.workspaces[n]) by {
        assert(windows_on(r.windows, n) == windows_on(v.windows, n));
    }
}


/// The graph with its windows replaced.
pub open spec fn with_windows(v: GraphView, windows: Map<Seq<char>, WindowView>) -> GraphView {
    GraphView { windows, workspaces: v.workspaces, active_workspaces: v.active_workspaces, focused_window: v.focused_window }
}

/// The graph with its workspaces replaced.
pub open spec fn with_workspaces(v: GraphView, workspaces: Map<Seq<char>, WorkspaceView>) -> GraphView {
    GraphView { windows: v.windows, workspaces, active_workspaces: v.active_workspaces, focused_window: v.focused_window }
}

/// The graph with its monitor assignments replaced.
pub open spec fn with_active(v: GraphView, active_workspaces: Map<Seq<char>, Seq<char>>) -> GraphView {
    GraphView { windows: v.windows, workspaces: v.workspaces, active_workspaces, focused_window: v.focused_window }
}

/// The graph with its focus replaced.
pub open spec fn with_focus(v: GraphView, focused_window: Option<Seq<char>>) -> GraphView {
    GraphView { windows: v.windows, workspaces: v.workspaces, active_workspaces: v.active_workspaces, focused_window }
}

/// The graph with nothing in it.
pub open spec fn empty_graph() -> GraphView {
    GraphView { windows: Map::empty(), workspaces: Map::empty(), active_workspaces: Map::empty(), focused_window: None }
}

/// The workspace `name` after an upsert with `id` and `monitor`: a known workspace
/// takes the new id, and the new monitor when one is given; an unknown one is created
/// inactive and empty.
pub open spec fn upserted_workspace(v: GraphView, id: i64, name: Seq<char>, monitor: Option<Seq<char>>) -> WorkspaceView {
    if v.workspaces.contains_key(name) {
        let old = v.workspaces[name];
        WorkspaceView {
            id,
            name: old.name,
            monitor: if monitor is Some { monitor } else { old.monitor },
            active: old.active,
            window_count: old.window_count,
        }
    } else {
        WorkspaceView { id, name, monitor, active: false, window_count: 0 }
    }
}

/// Graph after inserting or updating a workspace.
pub open spec fn upsert_workspace_spec(v: GraphView, id: i64, name: Seq<char>, monitor: Option<Seq<char>>) -> GraphView {
    refreshed(with_workspaces(v, v.workspaces.insert(name, upserted_workspace(v, id, name, monitor))))
}

/// The monitor assignments that do not show `name`.
pub open spec fn without_workspace(m: Map<Seq<char>, Seq<char>>, name: Seq<char>) -> Map<Seq<char>, Seq<char>> {
    Map::new(|k: Seq<char>| m.contains_key(k) && m[k] != name, |k: Seq<char>| m[k])
}

/// Graph after a workspace is destroyed: it is forgotten, and no monitor shows it any more.
pub open spec fn remove_workspace_spec(v: GraphView, name: Seq<char>) -> GraphView {
    refreshed(
        GraphView {
            windows: v.windows,
            workspaces: v.workspaces.remove(name),
            active_workspaces: without_workspace(v.active_workspaces, name),
            focused_window: v.focused_window,
        },
    )
}

/// A workspace name after `old_name` is renamed to `new_name`.
pub open spec fn renamed(n: Seq<char>, old_name: Seq<char>, new_name: Seq<char>) -> Seq<char> {
    if n == old_name { new_name } else { n }
}

/// A window after its workspace `old_name` is renamed to `new_name`.
pub open spec fn window_renamed(w: WindowView, old_name: Seq<char>, new_name: Seq<char>) -> WindowView {
    WindowView {
        address: w.address,
        workspace: renamed(w.workspace, old_name, new_name),
        class: w.class,
        title: w.title,
        monitor: w.monitor,
        mapped: w.mapped,
        hidden: w.hidden,
        fullscreen: w.fullscreen,
        attention: w.attention,
    }
}

/// Graph after workspace `old_name` is renamed to `new_name`: the workspace moves to the
/// new name (replacing any workspace already called so), and every window and monitor
/// that referred to the old name refers to the new one.
pub open spec fn rename_workspace_spec(v: GraphView, old_name: Seq<char>, new_name: Seq<char>) -> GraphView {
    let ws = v.workspaces[old_name];
    refreshed(
        GraphView {
            windows: v.windows.map_values(|w: WindowView| window_renamed(w, old_name, new_name)),
            workspaces: v.workspaces.remove(old_name).insert(
                new_name,
                WorkspaceView {
                    id: ws.id,
                    name: new_name,
                    monitor: ws.monitor,
                    active: ws.active,
                    window_count: ws.window_count,
                },
            ),
            active_workspaces: v.active_workspaces.map_values(|n: Seq<char>| renamed(n, old_name, new_name)),
            focused_window: v.focused_window,
        },
    )
}

/// Some workspace of the graph has identifier `id`.
pub open spec fn has_workspace_id(v: GraphView, id: i64) -> bool {
    exists|n: Seq<char>| #[trigger] v.workspaces.contains_key(n) && v.workspaces[n].id == id
}

/// A window as stored: its attention starts out hidden.
pub open spec fn stored_window(w: WindowView) -> WindowView {
    WindowView {
        address: w.address,
        workspace: w.workspace,
        class: w.class,
        title: w.title,
        monitor: w.monitor,
        mapped: w.mapped,
        hidden: w.hidden,
        fullscreen: w.fullscreen,
        attention: AttentionState::Hidden,
    }
}

/// Graph after inserting or replacing a window.
pub open spec fn upsert_window_spec(v: GraphView, w: WindowView) -> GraphView {
    refreshed(with_windows(v, v.windows.insert(w.address, stored_window(w))))
}

/// Graph after a window closes: it is forgotten, and loses focus if it had it.
pub open spec fn remove_window_spec(v: GraphView, address: Seq<char>) -> GraphView {
    refreshed(
        GraphView {
            windows: v.windows.remove(address),
            workspaces: v.workspaces,
            active_workspaces: v.active_workspaces,
            focused_window: if v.focused_window == Some(address) { None } else { v.focused_window },
        },
    )
}

/// A window moved to workspace `workspace`.
pub open spec fn window_moved(w: WindowView, workspace: Seq<char>) -> WindowView {
    WindowView {
        address: w.address,
        workspace,
        class: w.class,
        title: w.title,
        monitor: w.monitor,
        mapped: w.mapped,
        hidden: w.hidden,
        fullscreen: w.fullscreen,
        attention: w.attention,
    }
}

/// Graph after a known window moves to another workspace (an unknown window changes nothing
/// but the refresh).
pub open spec fn move_window_spec(v: GraphView, address: Seq<char>, workspace: Seq<char>) -> GraphView {
    refreshed(
        if v.windows.contains_key(address) {
            with_windows(v, v.windows.insert(address, window_moved(v.windows[address], workspace)))
        } else {
            v
        },
    )
}

/// A window with a new title.
pub open spec fn window_retitled(w: WindowView, title: Seq<char>) -> WindowView {
    WindowView {
        address: w.address,
        workspace: w.workspace,
        class: w.class,
        title,
        monitor: w.monitor,
        mapped: w.mapped,
        hidden: w.hidden,
        fullscreen: w.fullscreen,
        attention: w.attention,
    }
}

/// Graph after a known window is retitled (an unknown window changes nothing).
pub open spec fn set_window_title_spec(v: GraphView, address: Seq<char>, title: Seq<char>) -> GraphView {
    if v.windows.contains_key(address) {
        with_windows(v, v.windows.insert(address, window_retitled(v.windows[address], title)))
    } else {
        v
    }
}

/// Graph after focus moves to `address`; focus on an unknown window, or no address, clears it.
pub open spec fn set_focused_window_spec(v: GraphView, address: Option<Seq<char>>) -> GraphView {
    refreshed(
        with_focus(
            v,
            match address {
                Some(a) => if v.windows.contains_key(a) { Some(a) } else { None },
                None => None,
            },
        ),
    )
}

/// Graph after monitor `monitor` starts showing workspace `workspace`.
pub open spec fn set_active_workspace_spec(v: GraphView, monitor: Seq<char>, workspace: Seq<char>) -> GraphView {
    refreshed(with_active(v, v.active_workspaces.insert(monitor, workspace)))
}

/// A window with its full-screen flag set to `fullscreen`.
pub open spec fn window_fullscreen(w: WindowView, fullscreen: bool) -> WindowView {
    WindowView {
        address: w.address,
        workspace: w.workspace,
        class: w.class,
        title: w.title,
        monitor: w.monitor,
        mapped: w.mapped,
        hidden: w.hidden,
        fullscreen,
        attention: w.attention,
    }
}

/// Graph after the focused window's full-screen flag changes (without focus, nothing changes).
pub open spec fn set_fullscreen_spec(v: GraphView, fullscreen: bool) -> GraphView {
    match v.focused_window {
        Some(f) => if v.windows.contains_key(f) {
            with_windows(v, v.windows.insert(f, window_fullscreen(v.windows[f], fullscreen)))
        } else {
            v
        },
        None => v,
    }
}

/// Windows whose attention is `state`.
pub open spec fn windows_with(v: GraphView, state: AttentionState) -> nat {
    map_count(v.windows, |w: WindowView| w.attention == state)
}

/// Two windows that differ at most in class, title and full-screen flag.
pub open spec fn same_but_cosmetic(w1: WindowView, w2: WindowView) -> bool {
    &&& w1.address == w2.address
    &&& w1.workspace == w2.workspace
    &&& w1.monitor == w2.monitor
    &&& w1.mapped == w2.mapped
    &&& w1.hidden == w2.hidden
    &&& w1.attention == w2.attention
}

/// Changing only cosmetic window fields keeps a consistent graph consistent.
pub proof fn lemma_cosmetic_change_consistent(v: GraphView, v2: GraphView)
    requires
        consistent(v),
        v2.workspaces == v.workspaces,
        v2.active_workspaces == v.active_workspaces,
        v2.focused_window == v.focused_window,
        v2.windows.dom() == v.windows.dom(),
        forall|a: Seq<char>| #[trigger] v.windows.contains_key(a) ==> same_but_cosmetic(v.windows[a], v2.windows[a]),
    ensures
        consistent(v2),
{
    assert forall|name: Seq<char>| #[trigger] windows_on(v2.windows, name) == windows_on(v.windows, name) by {
        lemma_map_count_congruent(v2.windows, v.windows, |w: WindowView| w.workspace == name);
    }
    assert forall|n: Seq<char>| #[trigger] is_active_name(v2, n) == is_active_name(v, n) by {}
    assert forall|a: Seq<char>| #[trigger] v2.windows.contains_key(a) implies v2.windows[a] == refresh_window(v2, v2.windows[a]) by {
        assert(v.windows[a] == refresh_window(v, v.windows[a]));
    }
    assert forall|n: Seq<char>| #[trigger] v2.workspaces.contains_key(n) implies v2.workspaces[n] == refresh_workspace(v2, v2.workspaces[n]) by {
        assert(v.workspaces[n] == refresh_workspace(v, v.workspaces[n]));
    }
}

/// A copy of an optional string.
pub fn copy_opt_string(o: &Option<String>) -> (r: Option<String>)
    ensures
        r == *o,
{
    match o {
        Some(s) => Some(s.clone()),
        None => None,
    }
}

/// The number of windows of `windows` on workspace `name`.
fn count_on_workspace(windows: &Vec<WindowState>, name: &String) -> (count: usize)
    ensures
        count == count_where(windows@, |w: WindowView| w.workspace == name@),
{
    let ghost p = |w: WindowView| w.workspace == name@;
    let mut count: usize = 0;
    let mut i: usize = 0;
    while i < windows.len()
        invariant
            i <= windows@.len(),
            p == (|w: WindowView| w.workspace == name@),
            count == count_where(windows@.take(i as int), p),
            count <= i,
        decreases windows@.len() - i,
    {
        proof {
            lemma_count_where_step(windows@, i as int, p);
        }
        let same = windows[i].workspace == *name;
        if same {
            count += 1;
        }
        i += 1;
    }
    assert(windows@.take(windows@.len() as int) =~= windows@);
    count
}

/// Whether some monitor shows workspace `name`.
fn shown_on_some_monitor(active: &Vec<ActiveWorkspace>, name: &String) -> (shown: bool)
    ensures
        shown == exists|i: int| 0 <= i < active@.len() && #[trigger] active@[i].workspace@ == name@,
{
    let mut i: usize = 0;
    while i < active.len()
        invariant
            i <= active@.len(),
            forall|j: int| 0 <= j < i ==> #[trigger] active@[j].workspace@ != name@,
        decreases active@.len() - i,
    {
        if active[i].workspace == *name {
            return true;
        }
        i += 1;
    }
    false
}

/// The attention graph.
#[derive(Debug, Clone)]
pub struct AttentionGraph {
    windows: Vec<WindowState>,
    workspaces: Vec<WorkspaceState>,
    active_workspaces: Vec<ActiveWorkspace>,
    focused_window: Option<String>,
}

impl View for AttentionGraph {
    type V = GraphView;

    closed spec fn view(&self) -> GraphView {
        GraphView {
            windows: keyed_map(self.windows@),
            workspaces: keyed_map(self.workspaces@),
            active_workspaces: keyed_map(self.active_workspaces@),
            focused_window: opt_view(self.focused_window),
        }
    }
}

impl AttentionGraph {
    /// The entries' keys are distinct and the focused window, if any, is known.
    pub closed spec fn keys_ok(&self) -> bool {
        &&& unique_keys(self.windows@)
        &&& unique_keys(self.workspaces@)
        &&& unique_keys(self.active_workspaces@)
        &&& (self.focused_window matches Some(f) ==> has_key(self.windows@, f@))
    }

    /// Well-formed: distinct keys and every derived field up to date.
    pub closed spec fn wf(&self) -> bool {
        &&& self.keys_ok()
        &&& consistent(self@)
    }

    /// A well-formed graph's view is consistent: every derived field agrees with the
    /// rest of the graph, and a focused address names a known window.
    pub proof fn lemma_wf_consistent(&self)
        requires
            self.wf(),
        ensures
            consistent(self@),
    {
    }

    proof fn lemma_keys_ok_well_keyed(&self)
        requires
            self.keys_ok(),
        ensures
            well_keyed(self@),
    {
        lemma_keyed_map_len(self.windows@);
        lemma_keyed_map_len(self.workspaces@);
        lemma_keyed_map_len(self.active_workspaces@);
        assert forall|a: Seq<char>| #[trigger] self@.windows.contains_key(a) implies self@.windows[a].address == a by {
            lemma_keyed_map_lookup(self.windows@, a);
        }
        assert forall|n: Seq<char>| #[trigger] self@.workspaces.contains_key(n) implies self@.workspaces[n].name == n by {
            lemma_keyed_map_lookup(self.workspaces@, n);
        }
    }

    /// Recomputes every derived field.
    fn refresh(&mut self)
        requires
            old(self).keys_ok(),
        ensures
            final(self).wf(),
            final(self)@ == refreshed(old(self)@),
    {
        let ghost v = self@;
        proof {
            self.lemma_keys_ok_well_keyed();
        }
        let ghost ws0 = self.workspaces@;
        let n = self.workspaces.len();
        let mut i: usize = 0;
        while i < n
            invariant
                n == self.workspaces@.len(),
                ws0.len() == n,
                i <= n,
                self.windows@ == old(self).windows@,
                self.active_workspaces@ == old(self).active_workspaces@,
                self.focused_window == old(self).focused_window,
                v == old(self)@,
                ws0 == old(self).workspaces@,
                unique_keys(ws0),
                unique_keys(self.windows@),
                unique_keys(self.active_workspaces@),
                forall|j: int| 0 <= j < n ==> (#[trigger] self.workspaces@[j]).key() == ws0[j].key(),
                forall|j: int| 0 <= j < i ==> (#[trigger] self.workspaces@[j])@ == refresh_workspace(v, ws0[j]@),
                forall|j: int| i <= j < n ==> #[trigger] self.workspaces@[j] == ws0[j],
            decreases n - i,
        {
            let count = count_on_workspace(&self.windows, &self.workspaces[i].name);
            let shown = shown_on_some_monitor(&self.active_workspaces, &self.workspaces[i].name);
            proof {
                let name = ws0[i as int].name@;
                lemma_count_where_map(self.windows@, |w: WindowView| w.workspace == name);
                assert((|w: WindowView| w.workspace == self.workspaces@[i as int].name@) == (|w: WindowView|
                    w.workspace == name));
                if shown {
                    let j = choose|j: int| 0 <= j < self.active_workspaces@.len() && #[trigger] self.active_workspaces@[j].workspace@ == name;
                    lemma_key_index(self.active_workspaces@, j);
                    assert(v.active_workspaces.contains_key(self.active_workspaces@[j].key()));
                }
                if is_active_name(v, name) {
                    let m = choose|m: Seq<char>| #[trigger] v.active_workspaces.contains_key(m) && v.active_workspaces[m] == name;
                    lemma_keyed_map_lookup(self.active_workspaces@, m);
                    let j = key_index(self.active_workspaces@, m);
                    assert(self.active_workspaces@[j].workspace@ == name);
                }
            }
            self.workspaces[i].window_count = count;
            self.workspaces[i].active = shown;
            i += 1;
        }
        proof {
            lemma_keyed_map_pointwise(ws0, self.workspaces@, |ws: WorkspaceView| refresh_workspace(v, ws));
        }
        let ghost wins0 = self.windows@;
        let m = self.windows.len();
        let mut k: usize = 0;
        while k < m
            invariant
                m == self.windows@.len(),
                wins0.len() == m,
                k <= m,
                wins0 == old(self).windows@,
                v == old(self)@,
                self.active_workspaces@ == old(self).active_workspaces@,
                self.focused_window == old(self).focused_window,
                unique_keys(wins0),
                unique_keys(self.workspaces@),
                unique_keys(self.active_workspaces@),
                keyed_map(self.workspaces@) == v.workspaces.map_values(|ws: WorkspaceView| refresh_workspace(v, ws)),
                forall|j: int| 0 <= j < m ==> (#[trigger] self.windows@[j]).key() == wins0[j].key(),
                forall|j: int| 0 <= j < k ==> (#[trigger] self.windows@[j])@ == refresh_window(v, wins0[j]@),
                forall|j: int| k <= j < m ==> #[trigger] self.windows@[j] == wins0[j],
            decreases m - k,
        {
            if self.windows[k].monitor.is_none() {
                let found = find_key(&self.workspaces, &self.windows[k].workspace);
                match found {
                    Some(idx) => {
                        let mon = copy_opt_string(&self.workspaces[idx].monitor);
                        proof {
                            lemma_key_index(self.workspaces@, idx as int);
                        }
                        self.windows[k].monitor = mon;
                    },
                    None => {
                        assert(!keyed_map(self.workspaces@).contains_key(self.windows@[k as int].workspace@));
                    },
                }
            }
            assert(self.windows@[k as int]@.monitor == filled_monitor(v, wins0[k as int]@));
            let focused = match &self.focused_window {
                Some(f) => *f == self.windows[k].address,
                None => false,
            };
            let attention = if focused {
                AttentionState::Focused
            } else if self.windows[k].mapped && !self.windows[k].hidden && shown_on_some_monitor(
                &self.active_workspaces,
                &self.windows[k].workspace,
            ) {
                AttentionState::Visible
            } else {
                AttentionState::Hidden
            };
            proof {
                let name = wins0[k as int].workspace@;
                if exists|j: int| 0 <= j < self.active_workspaces@.len() && #[trigger] self.active_workspaces@[j].workspace@ == name {
                    let j = choose|j: int| 0 <= j < self.active_workspaces@.len() && #[trigger] self.active_workspaces@[j].workspace@ == name;
                    lemma_key_index(self.active_workspaces@, j);
                    assert(v.active_workspaces.contains_key(self.active_workspaces@[j].key()));
                }
                if is_active_name(v, name) {
                    let mm = choose|mm: Seq<char>| #[trigger] v.active_workspaces.contains_key(mm) && v.active_workspaces[mm] == name;
                    lemma_keyed_map_lookup(self.active_workspaces@, mm);
                    let j = key_index(self.active_workspaces@, mm);
                    assert(self.active_workspaces@[j].workspace@ == name);
                }
            }
            assert(attention == attention_of(v, wins0[k as int]@));
            self.windows[k].attention = attention;
            k += 1;
        }
        proof {
            lemma_keyed_map_pointwise(wins0, self.windows@, |w: WindowView| refresh_window(v, w));
            assert(self@.workspaces == refreshed(v).workspaces);
            assert(self@.windows == refreshed(v).windows);
            lemma_refreshed_consistent(v);
            if self.focused_window is Some {
                let f = self.focused_window.unwrap()@;
                assert(v.windows.contains_key(f));
                assert(self@.windows.contains_key(f));
            }
        }
    }
}

impl AttentionGraph {
    /// An empty graph.
    pub fn new() -> (g: Self)
        ensures
            g.wf(),
            g@ == empty_graph(),
    {
        let g = AttentionGraph {
            windows: Vec::new(),
            workspaces: Vec::new(),
            active_workspaces: Vec::new(),
            focused_window: None,
        };
        proof {
            assert(g@.windows =~= Map::empty());
            assert(g@.workspaces =~= Map::empty());
            assert(g@.active_workspaces =~= Map::empty());
            g.lemma_keys_ok_well_keyed();
        }
        g
    }

    /// Inserts workspace `name` or updates its id, and its monitor when one is given.
    pub fn upsert_workspace(&mut self, id: i64, name: &str, monitor: Option<String>)
        requires
            old(self).wf(),
        ensures
            final(self).wf(),
            final(self)@ == upsert_workspace_spec(old(self)@, id, name@, opt_view(monitor)),
    {
        let ghost v = self@;
        let key = name.to_owned();
        let ghost s0 = self.workspaces@;
        match find_key(&self.workspaces, &key) {
            Some(i) => {
                proof {
                    lemma_key_index(s0, i as int);
                }
                self.workspaces[i].id = id;
                if monitor.is_some() {
                    self.workspaces[i].monitor = monitor;
                }
                proof {
                    assert(self.workspaces@ == s0.update(i as int, self.workspaces@[i as int]));
                    lemma_keyed_map_update(s0, i as int, self.workspaces@[i as int]);
                }
            },
            None => {
                let ws = WorkspaceState { id, name: key, monitor, active: false, window_count: 0 };
                proof {
                    lemma_keyed_map_push(s0, ws);
                }
                self.workspaces.push(ws);
            },
        }
        proof {
            assert(self@.workspaces == v.workspaces.insert(name@, upserted_workspace(v, id, name@, opt_view(monitor))));
            assert(with_workspaces(v, self@.workspaces) == self@);
        }
        self.refresh();
    }

    /// Inserts `window`, replacing any window with the same address; its attention is recomputed.
    pub fn upsert_window(&mut self, window: WindowState)
        requires
            old(self).wf(),
        ensures
            final(self).wf(),
            final(self)@ == upsert_window_spec(old(self)@, window@),
    {
        let ghost v = self@;
        let mut window = window;
        window.attention = AttentionState::Hidden;
        let ghost s0 = self.windows@;
        match find_key(&self.windows, &window.address) {
            Some(i) => {
                proof {
                    lemma_keyed_map_update(s0, i as int, window);
                }
                self.windows.set(i, window);
            },
            None => {
                proof {
                    lemma_keyed_map_push(s0, window);
                }
                self.windows.push(window);
            },
        }
        proof {
            if self.focused_window is Some {
                let f = self.focused_window.unwrap()@;
                lemma_keys_focus(s0, self.windows@, f);
            }
            assert(with_windows(v, self@.windows) == self@);
        }
        self.refresh();
    }

    /// Monitor `monitor` now shows workspace `workspace`.
    pub fn set_active_workspace(&mut self, monitor: String, workspace: String)
        requires
            old(self).wf(),
        ensures
            final(self).wf(),
            final(self)@ == set_active_workspace_spec(old(self)@, monitor@, workspace@),
    {
        let ghost v = self@;
        let ghost s0 = self.active_workspaces@;
        match find_key(&self.active_workspaces, &monitor) {
            Some(i) => {
                let entry = ActiveWorkspace { monitor, workspace };
                proof {
                    lemma_keyed_map_update(s0, i as int, entry);
                }
                self.active_workspaces.set(i, entry);
            },
            None => {
                let entry = ActiveWorkspace { monitor, workspace };
                proof {
                    lemma_keyed_map_push(s0, entry);
                }
                self.active_workspaces.push(entry);
            },
        }
        proof {
            assert(with_active(v, self@.active_workspaces) == self@);
        }
        self.refresh();
    }

    /// Focus moves to `address` when it names a known window; otherwise focus is cleared.
    pub fn set_focused_window(&mut self, address: Option<String>)
        requires
            old(self).wf(),
        ensures
            final(self).wf(),
            final(self)@ == set_focused_window_spec(old(self)@, opt_view(address)),
    {
        let ghost v = self@;
        let focus = match address {
            Some(a) => match find_key(&self.windows, &a) {
                Some(i) => {
                    proof {
                        lemma_key_index(self.windows@, i as int);
                    }
                    Some(a)
                },
                None => None,
            },
            None => None,
        };
        self.focused_window = focus;
        proof {
            assert(with_focus(v, self@.focused_window) == self@);
        }
        self.refresh();
    }
}

impl AttentionGraph {
    /// Forgets workspace `name`; monitors that showed it no longer show anything.
    pub fn remove_workspace(&mut self, name: &str)
        requires
            old(self).wf(),
        ensures
            final(self).wf(),
            final(self)@ == remove_workspace_spec(old(self)@, name@),
    {
        let ghost v = self@;
        let key = name.to_owned();
        let ghost s0 = self.workspaces@;
        match find_key(&self.workspaces, &key) {
            Some(i) => {
                proof {
                    lemma_keyed_map_remove(s0, i as int);
                }
                let _ = self.workspaces.remove(i);
            },
            None => {
                proof {
                    assert(keyed_map(s0).remove(name@) =~= keyed_map(s0));
                }
            },
        }
        let ghost a0 = self.active_workspaces@;
        let mut kept: Vec<ActiveWorkspace> = Vec::new();
        let mut i: usize = 0;
        proof {
            assert(keyed_map(kept@) =~= without_workspace(keyed_map(a0.take(0)), name@));
        }
        while i < self.active_workspaces.len()
            invariant
                a0 == self.active_workspaces@,
                key@ == name@,
                unique_keys(a0),
                i <= a0.len(),
                unique_keys(kept@),
                keyed_map(kept@) == without_workspace(keyed_map(a0.take(i as int)), name@),
            decreases a0.len() - i,
        {
            proof {
                lemma_keyed_map_take_step(a0, i as int);
            }
            let shows_removed = self.active_workspaces[i].workspace == key;
            if !shows_removed {
                let entry = ActiveWorkspace {
                    monitor: self.active_workspaces[i].monitor.clone(),
                    workspace: self.active_workspaces[i].workspace.clone(),
                };
                proof {
                    assert(entry.monitor == a0[i as int].monitor && entry.workspace == a0[i as int].workspace);
                    assert(entry@ == a0[i as int]@ && entry.key() == a0[i as int].key());
                    assert(!keyed_map(kept@).contains_key(entry.key()));
                    assert(!has_key(kept@, entry.key())) by {
                        if has_key(kept@, entry.key()) {
                            let j = choose|j: int| 0 <= j < kept@.len() && #[trigger] kept@[j].key() == entry.key();
                            lemma_key_index(kept@, j);
                        }
                    }
                    lemma_keyed_map_push(kept@, entry);
                    assert(keyed_map(kept@.push(entry)) =~= without_workspace(keyed_map(a0.take(i + 1)), name@));
                }
                kept.push(entry);
            } else {
                proof {
                    assert(a0[i as int]@ == name@);
                    assert(!keyed_map(a0.take(i as int)).contains_key(a0[i as int].key()));
                    assert(keyed_map(kept@) =~= without_workspace(keyed_map(a0.take(i + 1)), name@));
                }
            }
            i += 1;
        }
        proof {
            assert(a0.take(a0.len() as int) =~= a0);
        }
        self.active_workspaces = kept;
        proof {
            assert(self@ == GraphView {
                windows: v.windows,
                workspaces: v.workspaces.remove(name@),
                active_workspaces: without_workspace(v.active_workspaces, name@),
                focused_window: v.focused_window,
            });
        }
        self.refresh();
    }

    /// Forgets the window at `address`, clearing focus if it had it.
    pub fn remove_window(&mut self, address: &str)
        requires
            old(self).wf(),
        ensures
            final(self).wf(),
            final(self)@ == remove_window_spec(old(self)@, address@),
    {
        let ghost v = self@;
        let key = address.to_owned();
        let ghost s0 = self.windows@;
        match find_key(&self.windows, &key) {
            Some(i) => {
                proof {
                    lemma_keyed_map_remove(s0, i as int);
                }
                let _ = self.windows.remove(i);
            },
            None => {
                proof {
                    assert(keyed_map(s0).remove(address@) =~= keyed_map(s0));
                }
            },
        }
        let clear = match &self.focused_window {
            Some(f) => *f == key,
            None => false,
        };
        if clear {
            self.focused_window = None;
        }
        proof {
            if self.focused_window is Some {
                let f = self.focused_window.unwrap()@;
                assert(v.windows.contains_key(f));
                assert(self@.windows.contains_key(f));
            }
            assert(self@ == GraphView {
                windows: v.windows.remove(address@),
                workspaces: v.workspaces,
                active_workspaces: v.active_workspaces,
                focused_window: if v.focused_window == Some(address@) { None } else { v.focused_window },
            });
        }
        self.refresh();
    }

    /// Moves the window at `address`, if known, to workspace `workspace`.
    pub fn move_window(&mut self, address: &str, workspace: String)
        requires
            old(self).wf(),
        ensures
            final(self).wf(),
            final(self)@ == move_window_spec(old(self)@, address@, workspace@),
    {
        let ghost v = self@;
        let key = address.to_owned();
        let ghost s0 = self.windows@;
        match find_key(&self.windows, &key) {
            Some(i) => {
                proof {
                    lemma_key_index(s0, i as int);
                }
                self.windows[i].workspace = workspace;
                proof {
                    assert(self.windows@ == s0.update(i as int, self.windows@[i as int]));
                    lemma_keyed_map_update(s0, i as int, self.windows@[i as int]);
                    assert(self@ == with_windows(v, v.windows.insert(address@, window_moved(v.windows[address@], workspace@))));
                    if self.focused_window is Some {
                        let f = self.focused_window.unwrap()@;
                        assert(v.windows.contains_key(f));
                        assert(self@.windows.contains_key(f));
                    }
                }
            },
            None => {},
        }
        self.refresh();
    }

    /// Retitles the window at `address`, if known. Nothing derived depends on titles.
    pub fn set_window_title(&mut self, address: &str, title: String)
        requires
            old(self).wf(),
        ensures
            final(self).wf(),
            final(self)@ == set_window_title_spec(old(self)@, address@, title@),
    {
        let ghost v = self@;
        let key = address.to_owned();
        let ghost s0 = self.windows@;
        match find_key(&self.windows, &key) {
            Some(i) => {
                proof {
                    lemma_key_index(s0, i as int);
                }
                self.windows[i].title = title;
                proof {
                    assert(self.windows@ == s0.update(i as int, self.windows@[i as int]));
                    lemma_keyed_map_update(s0, i as int, self.windows@[i as int]);
                    assert(self@ == with_windows(v, v.windows.insert(address@, window_retitled(v.windows[address@], title@))));
                    assert(self@.windows.dom() =~= v.windows.dom());
                    lemma_cosmetic_change_consistent(v, self@);
                    let f = self.focused_window;
                    if f is Some {
                        assert(self@.windows.contains_key(f.unwrap()@));
                    }
                }
            },
            None => {},
        }
    }

    /// Sets the full-screen flag of the focused window, if there is one.
    pub fn set_fullscreen(&mut self, fullscreen: bool)
        requires
            old(self).wf(),
        ensures
            final(self).wf(),
            final(self)@ == set_fullscreen_spec(old(self)@, fullscreen),
    {
        let ghost v = self@;
        let ghost s0 = self.windows@;
        let found = match &self.focused_window {
            Some(f) => find_key(&self.windows, f),
            None => None,
        };
        match found {
            Some(i) => {
                proof {
                    lemma_key_index(s0, i as int);
                }
                self.windows[i].fullscreen = fullscreen;
                proof {
                    let f = self.focused_window.unwrap()@;
                    assert(self.windows@ == s0.update(i as int, self.windows@[i as int]));
                    lemma_keyed_map_update(s0, i as int, self.windows@[i as int]);
                    assert(self@ == with_windows(v, v.windows.insert(f, window_fullscreen(v.windows[f], fullscreen))));
                    assert(self@.windows.dom() =~= v.windows.dom());
                    lemma_cosmetic_change_consistent(v, self@);
                    assert(self@.windows.contains_key(f));
                }
            },
            None => {
                proof {
                    if self.focused_window is Some {
                        assert(v.windows.contains_key(self.focused_window.unwrap()@));
                    }
                }
            },
        }
    }
}

impl AttentionGraph {
    /// The position of a workspace with identifier `id`, if any.
    fn find_workspace_id(&self, id: i64) -> (r: Option<usize>)
        ensures
            match r {
                Some(i) => i < self.workspaces@.len() && self.workspaces@[i as int].id == id,
                None => forall|j: int| 0 <= j < self.workspaces@.len() ==> #[trigger] self.workspaces@[j].id != id,
            },
    {
        let mut i: usize = 0;
        while i < self.workspaces.len()
            invariant
                i <= self.workspaces@.len(),
                forall|j: int| 0 <= j < i ==> #[trigger] self.workspaces@[j].id != id,
            decreases self.workspaces@.len() - i,
        {
            if self.workspaces[i].id == id {
                return Some(i);
            }
            i += 1;
        }
        None
    }

    /// Renames the workspace with identifier `id` to `new_name`, carrying its windows and
    /// monitors along. Without such a workspace nothing changes. When several workspaces
    /// share the identifier, one of them is renamed.
    pub fn rename_workspace(&mut self, id: i64, new_name: &str)
        requires
            old(self).wf(),
        ensures
            final(self).wf(),
            !has_workspace_id(old(self)@, id) ==> final(self)@ == old(self)@,
            has_workspace_id(old(self)@, id) ==> exists|old_name: Seq<char>|
                #[trigger] old(self)@.workspaces.contains_key(old_name) && old(self)@.workspaces[old_name].id == id
                    && final(self)@ == rename_workspace_spec(old(self)@, old_name, new_name@),
    {
        let ghost v = self@;
        let found = self.find_workspace_id(id);
        let i = match found {
            Some(i) => i,
            None => {
                proof {
                    if has_workspace_id(v, id) {
                        let n = choose|n: Seq<char>| #[trigger] v.workspaces.contains_key(n) && v.workspaces[n].id == id;
                        lemma_keyed_map_lookup(self.workspaces@, n);
                    }
                }
                return;
            },
        };
        let ghost s0 = self.workspaces@;
        let ghost old_name = s0[i as int].name@;
        proof {
            lemma_key_index(s0, i as int);
            lemma_keyed_map_remove(s0, i as int);
        }
        let old_key = self.workspaces[i].name.clone();
        let key = new_name.to_owned();
        let mut ws = self.workspaces.remove(i);
        ws.name = key.clone();
        let ghost s1 = self.workspaces@;
        match find_key(&self.workspaces, &key) {
            Some(j) => {
                proof {
                    lemma_key_index(s1, j as int);
                    lemma_keyed_map_update(s1, j as int, ws);
                }
                self.workspaces.set(j, ws);
            },
            None => {
                proof {
                    lemma_keyed_map_push(s1, ws);
                }
                self.workspaces.push(ws);
            },
        }
        let ghost w0 = self.windows@;
        let ghost ws2 = self.workspaces@;
        let ghost a0 = self.active_workspaces@;
        let ghost f0 = self.focused_window;
        let mut k: usize = 0;
        while k < self.windows.len()
            invariant
                w0.len() == self.windows@.len(),
                self.workspaces@ == ws2,
                self.active_workspaces@ == a0,
                self.focused_window == f0,
                k <= w0.len(),
                old_key@ == old_name,
                key@ == new_name@,
                forall|j: int| 0 <= j < w0.len() ==> (#[trigger] self.windows@[j]).key() == w0[j].key(),
                forall|j: int| 0 <= j < k ==> (#[trigger] self.windows@[j])@ == window_renamed(w0[j]@, old_name, new_name@),
                forall|j: int| k <= j < w0.len() ==> #[trigger] self.windows@[j] == w0[j],
            decreases w0.len() - k,
        {
            if self.windows[k].workspace == old_key {
                self.windows[k].workspace = key.clone();
            }
            k += 1;
        }
        let ghost w1 = self.windows@;
        let mut k: usize = 0;
        while k < self.active_workspaces.len()
            invariant
                a0.len() == self.active_workspaces@.len(),
                self.workspaces@ == ws2,
                self.windows@ == w1,
                self.focused_window == f0,
                k <= a0.len(),
                old_key@ == old_name,
                key@ == new_name@,
                forall|j: int| 0 <= j < a0.len() ==> (#[trigger] self.active_workspaces@[j]).key() == a0[j].key(),
                forall|j: int| 0 <= j < k ==> (#[trigger] self.active_workspaces@[j])@ == renamed(a0[j]@, old_name, new_name@),
                forall|j: int| k <= j < a0.len() ==> #[trigger] self.active_workspaces@[j] == a0[j],
            decreases a0.len() - k,
        {
            if self.active_workspaces[k].workspace == old_key {
                self.active_workspaces[k].workspace = key.clone();
            }
            k += 1;
        }
        proof {
            lemma_keyed_map_pointwise(w0, self.windows@, |w: WindowView| window_renamed(w, old_name, new_name@));
            lemma_keyed_map_pointwise(a0, self.active_workspaces@, |n: Seq<char>| renamed(n, old_name, new_name@));
            assert(v.workspaces.contains_key(old_name) && v.workspaces[old_name].id == id);
            if self.focused_window is Some {
                let f = self.focused_window.unwrap()@;
                assert(v.windows.contains_key(f));
                assert(self@.windows.contains_key(f));
            }
            assert(self@ == GraphView {
                windows: v.windows.map_values(|w: WindowView| window_renamed(w, old_name, new_name@)),
                workspaces: v.workspaces.remove(old_name).insert(
                    new_name@,
                    WorkspaceView {
                        id: v.workspaces[old_name].id,
                        name: new_name@,
                        monitor: v.workspaces[old_name].monitor,
                        active: v.workspaces[old_name].active,
                        window_count: v.workspaces[old_name].window_count,
                    },
                ),
                active_workspaces: v.active_workspaces.map_values(|n: Seq<char>| renamed(n, old_name, new_name@)),
                focused_window: v.focused_window,
            });
        }
        self.refresh();
    }
}

/// Whether two attention states are the same.
fn same_attention(a: AttentionState, b: AttentionState) -> (same: bool)
    ensures
        same == (a == b),
{
    match (a, b) {
        (AttentionState::Focused, AttentionState::Focused) => true,
        (AttentionState::Visible, AttentionState::Visible) => true,
        (AttentionState::Hidden, AttentionState::Hidden) => true,
        _ => false,
    }
}

impl AttentionGraph {
    /// The windows, one entry per address.
    pub fn windows(&self) -> (windows: &Vec<WindowState>)
        requires
            self.wf(),
        ensures
            unique_keys(windows@),
            keyed_map(windows@) == self@.windows,
    {
        &self.windows
    }

    /// The workspaces, one entry per name.
    pub fn workspaces(&self) -> (workspaces: &Vec<WorkspaceState>)
        requires
            self.wf(),
        ensures
            unique_keys(workspaces@),
            keyed_map(workspaces@) == self@.workspaces,
    {
        &self.workspaces
    }

    /// The window at `address`, if known.
    pub fn window(&self, address: &str) -> (window: Option<&WindowState>)
        requires
            self.wf(),
        ensures
            match window {
                Some(w) => self@.windows.contains_key(address@) && w@ == self@.windows[address@],
                None => !self@.windows.contains_key(address@),
            },
    {
        let key = address.to_owned();
        match find_key(&self.windows, &key) {
            Some(i) => {
                proof {
                    lemma_key_index(self.windows@, i as int);
                }
                Some(&self.windows[i])
            },
            None => None,
        }
    }

    /// The workspace called `name`, if known.
    pub fn workspace(&self, name: &str) -> (workspace: Option<&WorkspaceState>)
        requires
            self.wf(),
        ensures
            match workspace {
                Some(ws) => self@.workspaces.contains_key(name@) && ws@ == self@.workspaces[name@],
                None => !self@.workspaces.contains_key(name@),
            },
    {
        let key = name.to_owned();
        match find_key(&self.workspaces, &key) {
            Some(i) => {
                proof {
                    lemma_key_index(self.workspaces@, i as int);
                }
                Some(&self.workspaces[i])
            },
            None => None,
        }
    }

    /// The address of the focused window, if any.
    pub fn focused_window(&self) -> (focused: Option<&str>)
        ensures
            match focused {
                Some(f) => self@.focused_window == Some(f@),
                None => self@.focused_window is None,
            },
    {
        match &self.focused_window {
            Some(f) => Some(f.as_str()),
            None => None,
        }
    }

    /// One when a window has focus, otherwise zero.
    pub fn focused_count(&self) -> (count: usize)
        ensures
            count == if self@.focused_window is Some { 1int } else { 0int },
    {
        if self.focused_window.is_some() {
            1
        } else {
            0
        }
    }

    /// The number of windows whose attention is `state`.
    fn count_attention(&self, state: AttentionState) -> (count: usize)
        requires
            self.keys_ok(),
        ensures
            count == windows_with(self@, state),
    {
        let ghost p = |w: WindowView| w.attention == state;
        let mut count: usize = 0;
        let mut i: usize = 0;
        while i < self.windows.len()
            invariant
                i <= self.windows@.len(),
                p == (|w: WindowView| w.attention == state),
                count == count_where(self.windows@.take(i as int), p),
                count <= i,
            decreases self.windows@.len() - i,
        {
            proof {
                lemma_count_where_step(self.windows@, i as int, p);
            }
            if same_attention(self.windows[i].attention, state) {
                count += 1;
            }
            i += 1;
        }
        proof {
            assert(self.windows@.take(self.windows@.len() as int) =~= self.windows@);
            lemma_count_where_map(self.windows@, p);
        }
        count
    }

    /// The number of visible, unfocused windows.
    pub fn visible_count(&self) -> (count: usize)
        requires
            self.wf(),
        ensures
            count == windows_with(self@, AttentionState::Visible),
    {
        self.count_attention(AttentionState::Visible)
    }

    /// The number of hidden windows.
    pub fn hidden_count(&self) -> (count: usize)
        requires
            self.wf(),
        ensures
            count == windows_with(self@, AttentionState::Hidden),
    {
        self.count_attention(AttentionState::Hidden)
    }
}

impl Default for AttentionGraph {
    fn default() -> (g: Self)
        ensures
            g.wf(),
            g@ == empty_graph(),
    {
        AttentionGraph::new()
    }
}

/// In a consistent graph the focused window is a known window whose attention is
/// `Focused`, whatever its workspace or visibility.
pub proof fn lemma_focus_overrides_visibility(v: GraphView, f: Seq<char>)
    requires
        consistent(v),
        v.focused_window == Some(f),
    ensures
        v.windows.contains_key(f),
        v.windows[f].attention == AttentionState::Focused,
{
    assert(v.windows[f] == refresh_window(v, v.windows[f]));
}

/// In a consistent graph a window is visible exactly when it lacks focus, is mapped,
/// is not hidden, and its workspace is shown on some monitor.
pub proof fn lemma_visible_iff_shown(v: GraphView, a: Seq<char>)
    requires
        consistent(v),
        v.windows.contains_key(a),
    ensures
        (v.windows[a].attention == AttentionState::Visible) == (v.focused_window != Some(a) && v.windows[a].mapped
            && !v.windows[a].hidden && is_active_name(v, v.windows[a].workspace)),
{
    assert(v.windows[a] == refresh_window(v, v.windows[a]));
}

/// In a consistent graph every window is exactly one of focused, visible or hidden, and at
/// most one is focused: the three counts add up to the number of windows.
pub proof fn lemma_attention_partition(v: GraphView)
    requires
        consistent(v),
    ensures
        (if v.focused_window is Some { 1int } else { 0int }) + windows_with(v, AttentionState::Visible)
            + windows_with(v, AttentionState::Hidden) == v.windows.dom().len(),
{
    let d = v.windows.dom();
    let fs = d.filter(|k: Seq<char>| (|w: WindowView| w.attention == AttentionState::Focused)(v.windows[k]));
    let vs = d.filter(|k: Seq<char>| (|w: WindowView| w.attention == AttentionState::Visible)(v.windows[k]));
    let hs = d.filter(|k: Seq<char>| (|w: WindowView| w.attention == AttentionState::Hidden)(v.windows[k]));
    assert forall|k: Seq<char>| #[trigger] d.contains(k) implies v.windows[k] == refresh_window(v, v.windows[k]) by {}
    match v.focused_window {
        Some(f) => {
            assert(fs =~= Set::empty().insert(f));
        },
        None => {
            assert(fs =~= Set::empty());
        },
    }
    assert(fs.disjoint(vs));
    assert((fs + vs).disjoint(hs));
    vstd::set_lib::lemma_set_disjoint_lens(fs, vs);
    vstd::set_lib::lemma_set_disjoint_lens(fs + vs, hs);
    assert(fs + vs + hs =~= d);
}

/// Once a monitor shows a workspace, every window on it that is mapped, not hidden and
/// not focused is visible.
pub proof fn lemma_shown_workspace_windows_visible(v: GraphView, monitor: Seq<char>, workspace: Seq<char>, a: Seq<char>)
    requires
        well_keyed(v),
        v.windows.contains_key(a),
        v.windows[a].workspace == workspace,
        v.windows[a].mapped,
        !v.windows[a].hidden,
        v.focused_window != Some(a),
    ensures
        set_active_workspace_spec(v, monitor, workspace).windows[a].attention == AttentionState::Visible,
{
    let shown = with_active(v, v.active_workspaces.insert(monitor, workspace));
    assert(shown.active_workspaces.contains_key(monitor) && shown.active_workspaces[monitor] == workspace);
    assert(is_active_name(shown, workspace));
    assert(refreshed(shown).windows[a] == refresh_window(shown, v.windows[a]));
}

/// Moving a window changes no focus, no monitor assignment and no set of windows: the
/// moved window (when known) is on the new workspace and every other window stays where
/// it was.
pub proof fn lemma_move_window_keeps_focus(v: GraphView, address: Seq<char>, workspace: Seq<char>)
    ensures
        move_window_spec(v, address, workspace).focused_window == v.focused_window,
        move_window_spec(v, address, workspace).active_workspaces == v.active_workspaces,
        move_window_spec(v, address, workspace).windows.dom() == v.windows.dom(),
        v.windows.contains_key(address) ==> move_window_spec(v, address, workspace).windows[address].workspace
            == workspace,
        forall|b: Seq<char>|
            v.windows.contains_key(b) && b != address ==> (#[trigger] move_window_spec(v, address, workspace).windows[b]).workspace
                == v.windows[b].workspace,
{
    let r = move_window_spec(v, address, workspace);
    if v.windows.contains_key(address) {
        let m = with_windows(v, v.windows.insert(address, window_moved(v.windows[address], workspace)));
        assert(r.windows.dom() =~= v.windows.dom());
        assert(r.windows[address] == refresh_window(m, m.windows[address]));
        assert forall|b: Seq<char>| v.windows.contains_key(b) && b != address implies (#[trigger] r.windows[b]).workspace
            == v.windows[b].workspace by {
            assert(r.windows[b] == refresh_window(m, m.windows[b]));
        }
    } else {
        assert(r.windows.dom() =~= v.windows.dom());
        assert forall|b: Seq<char>| v.windows.contains_key(b) && b != address implies (#[trigger] r.windows[b]).workspace
            == v.windows[b].workspace by {
            assert(r.windows[b] == refresh_window(v, v.windows[b]));
        }
    }
}

/// Destroying workspace `name` forgets exactly that workspace and exactly the monitor
/// assignments that showed it; every other assignment and the focus stay as they were.
pub proof fn lemma_remove_workspace_keeps_other_monitors(v: GraphView, name: Seq<char>)
    ensures
        !remove_workspace_spec(v, name).workspaces.contains_key(name),
        forall|n: Seq<char>|
            n != name ==> (#[trigger] remove_workspace_spec(v, name).workspaces.contains_key(n)) == v.workspaces.contains_key(n),
        forall|m: Seq<char>|
            (#[trigger] remove_workspace_spec(v, name).active_workspaces.contains_key(m)) == (v.active_workspaces.contains_key(m)
                && v.active_workspaces[m] != name),
        forall|m: Seq<char>|
            #[trigger] remove_workspace_spec(v, name).active_workspaces.contains_key(m) ==> remove_workspace_spec(
                v,
                name,
            ).active_workspaces[m] == v.active_workspaces[m],
        remove_workspace_spec(v, name).focused_window == v.focused_window,
        remove_workspace_spec(v, name).windows.dom() == v.windows.dom(),
{
    let r = remove_workspace_spec(v, name);
    assert(r.windows.dom() =~= v.windows.dom());
}

/// In a consistent graph, destroying workspace `name` leaves the attention of every window
/// on another workspace as it was.
pub proof fn lemma_remove_workspace_keeps_other_attention(v: GraphView, name: Seq<char>, a: Seq<char>)
    requires
        consistent(v),
        v.windows.contains_key(a),
        v.windows[a].workspace != name,
    ensures
        remove_workspace_spec(v, name).windows.contains_key(a),
        remove_workspace_spec(v, name).windows[a].attention == v.windows[a].attention,
{
    let w = v.windows[a];
    let pre = GraphView {
        windows: v.windows,
        workspaces: v.workspaces.remove(name),
        active_workspaces: without_workspace(v.active_workspaces, name),
        focused_window: v.focused_window,
    };
    assert(v.windows[a] == refresh_window(v, w));
    assert(remove_workspace_spec(v, name).windows[a] == refresh_window(pre, w));
    if is_active_name(v, w.workspace) {
        let m = choose|m: Seq<char>| #[trigger] v.active_workspaces.contains_key(m) && v.active_workspaces[m] == w.workspace;
        assert(pre.active_workspaces.contains_key(m));
    }
    if is_active_name(pre, w.workspace) {
        let m = choose|m: Seq<char>| #[trigger] pre.active_workspaces.contains_key(m) && pre.active_workspaces[m] == w.workspace;
        assert(v.active_workspaces.contains_key(m));
    }
}

/// Renaming workspace `old_name` to `new_name` changes only its name: the workspace under
/// the new name has the old one's id and monitor, the old name is gone (unless it is the
/// new one), it is shown when the old one was (or when a monitor already showed the new
/// name), and every window on the old name is now on the new one.
pub proof fn lemma_rename_keeps_workspace_identity(v: GraphView, old_name: Seq<char>, new_name: Seq<char>)
    requires
        consistent(v),
        v.workspaces.contains_key(old_name),
    ensures
        rename_workspace_spec(v, old_name, new_name).workspaces.contains_key(new_name),
        old_name != new_name ==> !rename_workspace_spec(v, old_name, new_name).workspaces.contains_key(old_name),
        rename_workspace_spec(v, old_name, new_name).workspaces[new_name].id == v.workspaces[old_name].id,
        rename_workspace_spec(v, old_name, new_name).workspaces[new_name].monitor == v.workspaces[old_name].monitor,
        rename_workspace_spec(v, old_name, new_name).workspaces[new_name].name == new_name,
        rename_workspace_spec(v, old_name, new_name).workspaces[new_name].active == (v.workspaces[old_name].active
            || is_active_name(v, new_name)),
        rename_workspace_spec(v, old_name, new_name).windows.dom() == v.windows.dom(),
        forall|a: Seq<char>|
            #[trigger] v.windows.contains_key(a) ==> rename_workspace_spec(v, old_name, new_name).windows[a].workspace == (
            if v.windows[a].workspace == old_name {
                new_name
            } else {
                v.windows[a].workspace
            }),
        rename_workspace_spec(v, old_name, new_name).focused_window == v.focused_window,
{
    let ws = v.workspaces[old_name];
    let pre = GraphView {
        windows: v.windows.map_values(|w: WindowView| window_renamed(w, old_name, new_name)),
        workspaces: v.workspaces.remove(old_name).insert(
            new_name,
            WorkspaceView {
                id: ws.id,
                name: new_name,
                monitor: ws.monitor,
                active: ws.active,
                window_count: ws.window_count,
            },
        ),
        active_workspaces: v.active_workspaces.map_values(|n: Seq<char>| renamed(n, old_name, new_name)),
        focused_window: v.focused_window,
    };
    let r = rename_workspace_spec(v, old_name, new_name);
    assert(r == refreshed(pre));
    assert(pre.workspaces.contains_key(new_name));
    assert(r.workspaces[new_name] == refresh_workspace(pre, pre.workspaces[new_name]));
    assert(r.windows.dom() =~= v.windows.dom());
    assert(v.workspaces[old_name] == refresh_workspace(v, ws));
    assert forall|a: Seq<char>| #[trigger] v.windows.contains_key(a) implies r.windows[a].workspace == (if v.windows[a].workspace
        == old_name {
        new_name
    } else {
        v.windows[a].workspace
    }) by {
        assert(pre.windows[a] == window_renamed(v.windows[a], old_name, new_name));
        assert(r.windows[a] == refresh_window(pre, pre.windows[a]));
    }
    if is_active_name(pre, new_name) {
        let m = choose|m: Seq<char>| #[trigger] pre.active_workspaces.contains_key(m) && pre.active_workspaces[m] == new_name;
        assert(v.active_workspaces.contains_key(m));
        if v.active_workspaces[m] == old_name {
            assert(is_active_name(v, old_name));
        } else {
            assert(is_active_name(v, new_name));
        }
    }
    if is_active_name(v, old_name) {
        let m = choose|m: Seq<char>| #[trigger] v.active_workspaces.contains_key(m) && v.active_workspaces[m] == old_name;
        assert(pre.active_workspaces.contains_key(m));
        assert(is_active_name(pre, new_name));
    }
    if is_active_name(v, new_name) {
        let m = choose|m: Seq<char>| #[trigger] v.active_workspaces.contains_key(m) && v.active_workspaces[m] == new_name;
        assert(pre.active_workspaces.contains_key(m));
        assert(is_active_name(pre, new_name));
    }
}

/// Two windows agree on everything but their derived fields (monitor and attention).
pub open spec fn same_listing(w1: WindowView, w2: WindowView) -> bool {
    &&& w1.workspace == w2.workspace
    &&& w1.class == w2.class
    &&& w1.title == w2.title
    &&& w1.mapped == w2.mapped
    &&& w1.hidden == w2.hidden
    &&& w1.fullscreen == w2.fullscreen
}

/// Upserting window `w` stores it under its address with what it lists, leaves every other
/// window's listing and the focus alone, and adds no window but `w`.
pub proof fn lemma_upsert_window_stores_it(v: GraphView, w: WindowView)
    ensures
        upsert_window_spec(v, w).windows.dom() == v.windows.dom().insert(w.address),
        same_listing(upsert_window_spec(v, w).windows[w.address], w),
        upsert_window_spec(v, w).windows[w.address].address == w.address,
        forall|b: Seq<char>|
            b != w.address && #[trigger] v.windows.contains_key(b) ==> same_listing(upsert_window_spec(v, w).windows[b], v.windows[b]),
        upsert_window_spec(v, w).focused_window == v.focused_window,
        upsert_window_spec(v, w).active_workspaces == v.active_workspaces,
{
    let m = with_windows(v, v.windows.insert(w.address, stored_window(w)));
    assert(upsert_window_spec(v, w).windows.dom() =~= v.windows.dom().insert(w.address));
    assert(upsert_window_spec(v, w).windows[w.address] == refresh_window(m, m.windows[w.address]));
    assert forall|b: Seq<char>| b != w.address && #[trigger] v.windows.contains_key(b) implies same_listing(
        upsert_window_spec(v, w).windows[b],
        v.windows[b],
    ) by {
        assert(upsert_window_spec(v, w).windows[b] == refresh_window(m, m.windows[b]));
    }
}

/// Closing window `address` forgets exactly it, keeps every other window's listing, and
/// clears the focus exactly when it had it.
pub proof fn lemma_remove_window_forgets_it(v: GraphView, address: Seq<char>)
    ensures
        remove_window_spec(v, address).windows.dom() == v.windows.dom().remove(address),
        forall|b: Seq<char>|
            b != address && #[trigger] v.windows.contains_key(b) ==> same_listing(remove_window_spec(v, address).windows[b], v.windows[b]),
        remove_window_spec(v, address).focused_window == (if v.focused_window == Some(address) {
            None
        } else {
            v.focused_window
        }),
        remove_window_spec(v, address).active_workspaces == v.active_workspaces,
        remove_window_spec(v, address).workspaces.dom() == v.workspaces.dom(),
{
    let r = remove_window_spec(v, address);
    assert(r.windows.dom() =~= v.windows.dom().remove(address));
    assert(r.workspaces.dom() =~= v.workspaces.dom());
    assert forall|b: Seq<char>| b != address && #[trigger] v.windows.contains_key(b) implies same_listing(r.windows[b], v.windows[b]) by {
        let pre = GraphView {
            windows: v.windows.remove(address),
            workspaces: v.workspaces,
            active_workspaces: v.active_workspaces,
            focused_window: if v.focused_window == Some(address) { None } else { v.focused_window },
        };
        assert(r.windows[b] == refresh_window(pre, pre.windows[b]));
    }
}

/// Focusing `address` puts focus on it exactly when it is a known window, and otherwise
/// clears focus; no window's listing changes.
pub proof fn lemma_set_focus_targets_known_window(v: GraphView, address: Option<Seq<char>>)
    ensures
        set_focused_window_spec(v, address).focused_window == (match address {
            Some(a) => if v.windows.contains_key(a) {
                Some(a)
            } else {
                None
            },
            None => None,
        }),
        set_focused_window_spec(v, address).windows.dom() == v.windows.dom(),
        forall|b: Seq<char>| #[trigger] v.windows.contains_key(b) ==> same_listing(set_focused_window_spec(v, address).windows[b], v.windows[b]),
        set_focused_window_spec(v, address).active_workspaces == v.active_workspaces,
{
    let f = match address {
        Some(a) => if v.windows.contains_key(a) { Some(a) } else { None },
        None => None,
    };
    let pre = with_focus(v, f);
    assert(set_focused_window_spec(v, address).windows.dom() =~= v.windows.dom());
    assert forall|b: Seq<char>| #[trigger] v.windows.contains_key(b) implies same_listing(
        set_focused_window_spec(v, address).windows[b],
        v.windows[b],
    ) by {
        assert(set_focused_window_spec(v, address).windows[b] == refresh_window(pre, pre.windows[b]));
    }
}

/// Showing `workspace` on `monitor` changes that monitor's assignment only, and no window's
/// listing or the focus.
pub proof fn lemma_set_active_changes_one_monitor(v: GraphView, monitor: Seq<char>, workspace: Seq<char>)
    ensures
        set_active_workspace_spec(v, monitor, workspace).active_workspaces.contains_key(monitor),
        set_active_workspace_spec(v, monitor, workspace).active_workspaces[monitor] == workspace,
        forall|m: Seq<char>|
            m != monitor ==> (#[trigger] set_active_workspace_spec(v, monitor, workspace).active_workspaces.contains_key(m)) == v.active_workspaces.contains_key(m),
        forall|m: Seq<char>|
            m != monitor && #[trigger] v.active_workspaces.contains_key(m) ==> set_active_workspace_spec(v, monitor, workspace).active_workspaces[m]
                == v.active_workspaces[m],
        set_active_workspace_spec(v, monitor, workspace).focused_window == v.focused_window,
        set_active_workspace_spec(v, monitor, workspace).windows.dom() == v.windows.dom(),
        set_active_workspace_spec(v, monitor, workspace).workspaces.dom() == v.workspaces.dom(),
{
    let r = set_active_workspace_spec(v, monitor, workspace);
    assert(r.windows.dom() =~= v.windows.dom());
    assert(r.workspaces.dom() =~= v.workspaces.dom());
}

/// Upserting workspace `name` gives it the id, and the monitor when one is given (else it
/// keeps its monitor, or has none when new); other workspaces keep id and monitor, and no
/// window's listing changes.
pub proof fn lemma_upsert_workspace_sets_it(v: GraphView, id: i64, name: Seq<char>, monitor: Option<Seq<char>>)
    requires
        well_keyed(v),
    ensures
        upsert_workspace_spec(v, id, name, monitor).workspaces.dom() == v.workspaces.dom().insert(name),
        upsert_workspace_spec(v, id, name, monitor).workspaces[name].id == id,
        upsert_workspace_spec(v, id, name, monitor).workspaces[name].name == name,
        upsert_workspace_spec(v, id, name, monitor).workspaces[name].monitor == (if monitor is Some {
            monitor
        } else if v.workspaces.contains_key(name) {
            v.workspaces[name].monitor
        } else {
            None
        }),
        forall|n: Seq<char>|
            n != name && #[trigger] v.workspaces.contains_key(n) ==> upsert_workspace_spec(v, id, name, monitor).workspaces[n].id
                == v.workspaces[n].id && upsert_workspace_spec(v, id, name, monitor).workspaces[n].monitor
                == v.workspaces[n].monitor,
        upsert_workspace_spec(v, id, name, monitor).windows.dom() == v.windows.dom(),
        forall|b: Seq<char>| #[trigger] v.windows.contains_key(b) ==> same_listing(upsert_workspace_spec(v, id, name, monitor).windows[b], v.windows[b]),
        upsert_workspace_spec(v, id, name, monitor).focused_window == v.focused_window,
        upsert_workspace_spec(v, id, name, monitor).active_workspaces == v.active_workspaces,
{
    let pre = with_workspaces(v, v.workspaces.insert(name, upserted_workspace(v, id, name, monitor)));
    let r = upsert_workspace_spec(v, id, name, monitor);
    assert(r.workspaces.dom() =~= v.workspaces.dom().insert(name));
    assert(r.windows.dom() =~= v.windows.dom());
    assert(r.workspaces[name] == refresh_workspace(pre, pre.workspaces[name]));
    assert forall|n: Seq<char>| n != name && #[trigger] v.workspaces.contains_key(n) implies r.workspaces[n].id
        == v.workspaces[n].id && r.workspaces[n].monitor == v.workspaces[n].monitor by {
        assert(r.workspaces[n] == refresh_workspace(pre, pre.workspaces[n]));
    }
    assert forall|b: Seq<char>| #[trigger] v.windows.contains_key(b) implies same_listing(r.windows[b], v.windows[b]) by {
        assert(r.windows[b] == refresh_window(pre, pre.windows[b]));
    }
}

/// Retitling changes only the title of the named window (when known); setting full screen
/// changes only the flag of the focused window (when there is one).
pub proof fn lemma_cosmetic_changes_touch_one_window(v: GraphView, address: Seq<char>, title: Seq<char>, on: bool)
    ensures
        set_window_title_spec(v, address, title).windows.dom() == v.windows.dom(),
        v.windows.contains_key(address) ==> set_window_title_spec(v, address, title).windows[address].title == title,
        forall|b: Seq<char>|
            b != address && #[trigger] v.windows.contains_key(b) ==> set_window_title_spec(v, address, title).windows[b] == v.windows[b],
        set_window_title_spec(v, address, title).focused_window == v.focused_window,
        set_fullscreen_spec(v, on).windows.dom() == v.windows.dom(),
        forall|f: Seq<char>|
            v.focused_window == Some(f) && #[trigger] v.windows.contains_key(f) ==> set_fullscreen_spec(v, on).windows[f].fullscreen == on,
        forall|b: Seq<char>|
            v.focused_window != Some(b) && #[trigger] v.windows.contains_key(b) ==> set_fullscreen_spec(v, on).windows[b] == v.windows[b],
        set_fullscreen_spec(v, on).focused_window == v.focused_window,
        set_fullscreen_spec(v, on).workspaces == v.workspaces,
        set_fullscreen_spec(v, on).active_workspaces == v.active_workspaces,
{
    assert(set_window_title_spec(v, address, title).windows.dom() =~= v.windows.dom());
    assert(set_fullscreen_spec(v, on).windows.dom() =~= v.windows.dom());
}

/// A focused address known before a change that only grows or overwrites windows is still known.
proof fn lemma_keys_focus(s0: Seq<WindowState>, s1: Seq<WindowState>, f: Seq<char>)
    requires
        unique_keys(s0),
        unique_keys(s1),
        keyed_map(s0).dom().subset_of(keyed_map(s1).dom()),
        has_key(s0, f),
    ensures
        has_key(s1, f),
{
    assert(keyed_map(s0).contains_key(f));
}

} // verus!
