//! The discrete side of attention learning: observations, the keys under which focus
//! transitions are counted, and the focus tracker that decides when focus really moved.
use std::time::Duration;

use vstd::prelude::*;

use crate::attention::opt_view;
use crate::text::{chars_of, substring};

verus! {

/// `Duration`'s `Clone`: `Duration` is `Copy`, and std documents its clone as a copy of
/// the same span of time. Trusted: the clone equals the original.
pub assume_specification[ <Duration as Clone>::clone ](d: &Duration) -> (r: Duration)
    ensures
        r == *d,
;

/// The character that separates the parts of a statistics key.
pub const KEY_SEPARATOR: char = '\u{1f}';

/// What kind of focus an observation is about.
#[derive(Debug, Clone, Copy, PartialEq, Eq)]
pub enum ObservationKind {
    WorkspaceFocus,
    AppFocus,
}

/// What had the user's attention at a moment: the focused workspace and application.
#[derive(Debug, Clone, PartialEq, Eq)]
pub struct AttentionObservation {
    pub at: Duration,
    pub workspace: Option<String>,
    pub app_class: Option<String>,
}

/// `from` and `to` joined by the key separator.
pub open spec fn joined_key(from: Seq<char>, to: Seq<char>) -> Seq<char> {
    from + seq![KEY_SEPARATOR] + to
}

/// The part of `stored` after `from` and the separator, when `stored` starts with them.
pub open spec fn key_target(stored: Seq<char>, from: Seq<char>) -> Option<Seq<char>> {
    let prefix = from.push(KEY_SEPARATOR);
    if prefix.is_prefix_of(stored) {
        Some(stored.skip(prefix.len() as int))
    } else {
        None
    }
}

/// The key under which a move of focus from `from` to `to` is counted.
pub fn transition_key(from: &str, to: &str) -> (key: String)
    ensures
        key@ == joined_key(from@, to@),
{
    proof {
        reveal_strlit("\u{1f}");
    }
    let mut key = from.to_owned();
    key.append("\u{1f}");
    key.append(to);
    key
}

/// The target of the key `stored` when it counts a move away from `from`.
pub fn transition_target(stored: &str, from: &str) -> (target: Option<String>)
    ensures
        opt_view(target) == key_target(stored@, from@),
{
    let sc = chars_of(stored);
    let fc = chars_of(from);
    let n = fc.len();
    if sc.len() <= n {
        return None;
    }
    let mut i: usize = 0;
    while i < n
        invariant
            sc@ == stored@,
            fc@ == from@,
            n == fc@.len(),
            n < sc@.len(),
            i <= n,
            forall|j: int| 0 <= j < i ==> sc@[j] == fc@[j],
        decreases n - i,
    {
        if sc[i] != fc[i] {
            proof {
                assert(from@.push(KEY_SEPARATOR)[i as int] != stored@[i as int]);
            }
            return None;
        }
        i += 1;
    }
    if sc[n] != KEY_SEPARATOR {
        proof {
            assert(from@.push(KEY_SEPARATOR)[n as int] != stored@[n as int]);
        }
        return None;
    }
    proof {
        assert(from@.push(KEY_SEPARATOR) =~= stored@.subrange(0, n + 1));
    }
    let rest = substring(stored, n + 1, sc.len());
    proof {
        assert(rest@ =~= stored@.skip(n + 1));
    }
    Some(rest)
}

/// The target recovered from a transition key is the one it was made with.
pub proof fn lemma_transition_target_of_key(from: Seq<char>, to: Seq<char>)
    ensures
        key_target(joined_key(from, to), from) == Some(to),
{
    let k = joined_key(from, to);
    assert(from.push(KEY_SEPARATOR) =~= k.subrange(0, from.len() + 1 as int));
    assert(k.skip(from.len() + 1 as int) =~= to);
}

/// A key that yields a target for `from` is exactly the transition key from `from` to it.
pub proof fn lemma_key_of_transition_target(stored: Seq<char>, from: Seq<char>)
    requires
        key_target(stored, from) is Some,
    ensures
        stored == joined_key(from, key_target(stored, from)->0),
{
    let prefix = from.push(KEY_SEPARATOR);
    assert(stored =~= prefix + stored.skip(prefix.len() as int));
    assert(joined_key(from, stored.skip(prefix.len() as int)) =~= prefix + stored.skip(prefix.len() as int));
}

/// Something that has focus, and since when.
#[derive(Debug, Clone)]
pub struct ActiveFocus {
    pub name: String,
    pub started_at: Duration,
}

/// Abstract focus.
pub struct FocusView {
    pub name: Seq<char>,
    pub started_at: Duration,
}

impl View for ActiveFocus {
    type V = FocusView;

    open spec fn view(&self) -> FocusView {
        FocusView { name: self.name@, started_at: self.started_at }
    }
}

/// The view of an optional focus.
pub open spec fn opt_focus_view(f: Option<ActiveFocus>) -> Option<FocusView> {
    match f {
        Some(f) => Some(f@),
        None => None,
    }
}

/// What a real move of focus ends and records.
#[derive(Debug, Clone)]
pub struct FocusChange {
    /// The focus that ends now, if there was one; its dwell time runs up to now.
    pub ended: Option<ActiveFocus>,
    /// The transition key from the ended focus to the new one, if there was one.
    pub transition: Option<String>,
}

/// Abstract change of focus.
pub struct ChangeView {
    pub ended: Option<FocusView>,
    pub transition: Option<Seq<char>>,
}

impl View for FocusChange {
    type V = ChangeView;

    open spec fn view(&self) -> ChangeView {
        ChangeView { ended: opt_focus_view(self.ended), transition: opt_view(self.transition) }
    }
}

/// The view of an optional change.
pub open spec fn opt_change_view(c: Option<FocusChange>) -> Option<ChangeView> {
    match c {
        Some(c) => Some(c@),
        None => None,
    }
}

/// Focus after `name` is observed at `at`, and the change that records: observing what
/// already has focus changes nothing and records nothing; anything else takes focus from
/// `at`, ends the previous focus and records the transition from it.
pub open spec fn observed_focus(current: Option<FocusView>, name: Seq<char>, at: Duration) -> (Option<FocusView>, Option<ChangeView>) {
    if current matches Some(f) && f.name == name {
        (current, None)
    } else {
        (
            Some(FocusView { name, started_at: at }),
            Some(
                ChangeView {
                    ended: current,
                    transition: match current {
                        Some(f) => Some(joined_key(f.name, name)),
                        None => None,
                    },
                },
            ),
        )
    }
}

/// Observing the focus that was just observed, at any later moment, changes nothing and
/// records no transition.
pub proof fn lemma_repeated_focus_is_silent(current: Option<FocusView>, name: Seq<char>, first: Duration, again: Duration)
    ensures
        observed_focus(observed_focus(current, name, first).0, name, again) == (
            observed_focus(current, name, first).0,
            None::<ChangeView>,
        ),
{
}

/// A recorded transition always joins two different names.
pub proof fn lemma_transition_between_different_names(current: Option<FocusView>, name: Seq<char>, at: Duration)
    requires
        observed_focus(current, name, at).1 matches Some(change) && change.transition is Some,
    ensures
        current matches Some(f) && f.name != name && observed_focus(current, name, at).1->0.transition == Some(
            joined_key(f.name, name),
        ),
{
}

/// Tracks what has focus, for one kind of focus, and decides when focus really moved.
#[derive(Debug, Clone)]
pub struct FocusTracker {
    current: Option<ActiveFocus>,
}

impl View for FocusTracker {
    type V = Option<FocusView>;

    closed spec fn view(&self) -> Option<FocusView> {
        opt_focus_view(self.current)
    }
}

impl FocusTracker {
    /// A tracker with nothing in focus.
    pub fn new() -> (t: Self)
        ensures
            t@ is None,
    {
        FocusTracker { current: None }
    }

    /// What has focus, if anything.
    pub fn current(&self) -> (f: Option<&ActiveFocus>)
        ensures
            match f {
                Some(f) => self@ == Some(f@),
                None => self@ is None,
            },
    {
        match &self.current {
            Some(f) => Some(f),
            None => None,
        }
    }

    /// Observes that `name` has focus at `at`.
    pub fn observe(&mut self, name: String, at: Duration) -> (change: Option<FocusChange>)
        ensures
            (final(self)@, opt_change_view(change)) == observed_focus(old(self)@, name@, at),
    {
        let same = match &self.current {
            Some(f) => f.name == name,
            None => false,
        };
        if same {
            return None;
        }
        let transition = match &self.current {
            Some(f) => Some(transition_key(f.name.as_str(), name.as_str())),
            None => None,
        };
        let ended = self.current.take();
        self.current = Some(ActiveFocus { name, started_at: at });
        Some(FocusChange { ended, transition })
    }

    /// Ends the current focus, if any, and hands it back.
    pub fn finish(&mut self) -> (ended: Option<ActiveFocus>)
        ensures
            opt_focus_view(ended) == old(self)@,
            final(self)@ is None,
    {
        self.current.take()
    }
}

} // verus!
