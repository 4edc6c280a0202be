//! Context events (notifications, build results, …) and the keys under which the
//! attention that follows them is counted, from the most general to the most specific.
use vstd::prelude::*;

use crate::attention::opt_view;
use crate::learning::{joined_key, key_target, transition_key, transition_target};

verus! {

/// Something that happened and may draw the user's attention.
#[derive(Debug, Clone, PartialEq, Eq)]
pub struct ContextEvent {
    pub kind: String,
    pub source: Option<String>,
}

/// Where the user's attention was: the focused workspace and application.
#[derive(Debug, Clone, PartialEq, Eq, Default)]
pub struct AttentionContext {
    pub workspace: Option<String>,
    pub app_class: Option<String>,
}

/// The key of an event: its kind, followed by `:` and its source when it has one.
pub open spec fn event_key(kind: Seq<char>, source: Option<Seq<char>>) -> Seq<char> {
    match source {
        Some(source) => kind + seq![':'] + source,
        None => kind,
    }
}

impl ContextEvent {
    /// The key under which this event is counted.
    pub fn key(&self) -> (k: String)
        ensures
            k@ == event_key(self.kind@, opt_view(self.source)),
    {
        proof {
            reveal_strlit(":");
        }
        match &self.source {
            Some(source) => {
                let mut k = self.kind.clone();
                k.append(":");
                k.append(source.as_str());
                k
            },
            None => self.kind.clone(),
        }
    }
}

/// The wildcard that stands for any workspace or application.
pub open spec fn wildcard() -> Seq<char> {
    seq!['*']
}

/// The keys under which attention after `event` is counted in a context, from the most
/// general to the most specific: any context; the workspace with any application; the
/// workspace and application.
pub open spec fn contextual_keys_spec(event: Seq<char>, workspace: Option<Seq<char>>, app: Option<Seq<char>>) -> Seq<Seq<char>> {
    let any = joined_key(joined_key(event, wildcard()), wildcard());
    match workspace {
        None => seq![any],
        Some(w) => {
            let on_workspace = joined_key(joined_key(event, w), wildcard());
            match app {
                None => seq![any, on_workspace],
                Some(a) => seq![any, on_workspace, joined_key(joined_key(event, w), a)],
            }
        },
    }
}

/// The keys under which attention after `event` is counted in `context`.
pub fn contextual_keys(event: &str, context: &AttentionContext) -> (keys: Vec<String>)
    ensures
        keys@.len() == contextual_keys_spec(event@, opt_view(context.workspace), opt_view(context.app_class)).len(),
        forall|i: int|
            0 <= i < keys@.len() ==> #[trigger] keys@[i]@ == contextual_keys_spec(
                event@,
                opt_view(context.workspace),
                opt_view(context.app_class),
            )[i],
{
    proof {
        reveal_strlit("*");
    }
    let mut keys: Vec<String> = Vec::new();
    let event_any = transition_key(event, "*");
    keys.push(transition_key(event_any.as_str(), "*"));
    match &context.workspace {
        Some(workspace) => {
            let on_workspace = transition_key(event, workspace.as_str());
            keys.push(transition_key(on_workspace.as_str(), "*"));
            match &context.app_class {
                Some(app) => {
                    keys.push(transition_key(on_workspace.as_str(), app.as_str()));
                },
                None => {},
            }
        },
        None => {},
    }
    keys
}

/// The key under which `target` is counted as the outcome of `context_key`.
pub fn outcome_key(context_key: &str, target: &str) -> (key: String)
    ensures
        key@ == joined_key(context_key@, target@),
{
    transition_key(context_key, target)
}

/// The outcome that the key `stored` counts for `context_key`, if it counts one.
pub fn outcome_target(stored: &str, context_key: &str) -> (target: Option<String>)
    ensures
        opt_view(target) == key_target(stored@, context_key@),
{
    transition_target(stored, context_key)
}

/// The most general key of a context comes first, and every context has it.
pub proof fn lemma_general_key_first(event: Seq<char>, workspace: Option<Seq<char>>, app: Option<Seq<char>>)
    ensures
        contextual_keys_spec(event, workspace, app).len() >= 1,
        contextual_keys_spec(event, workspace, app)[0] == joined_key(joined_key(event, wildcard()), wildcard()),
        contextual_keys_spec(event, workspace, app).len() == 1 <==> workspace is None,
        contextual_keys_spec(event, workspace, app).len() == 3 <==> (workspace is Some && app is Some),
{
}

} // verus!
