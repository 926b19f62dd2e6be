//! What travels between the stages: normalized events, keyed requests, and
//! the key under which requests for one target coalesce.

use crate::actions::{Action, ActionType, ActionTypeView, ActionView};
use notify::EventKind;
use vstd::prelude::*;
use vstd::std_specs::cmp::PartialEqSpecImpl;

verus! {

// ---------------------------------------------------------------------------
// Events
// ---------------------------------------------------------------------------

/// A change as the watcher reports it: what happened, and to which paths.
#[derive(Debug)]
pub struct Event {
    pub kind: EventKind,
    pub paths: Vec<String>,
}

/// The mathematical content of an [`Event`].
pub struct EventView {
    pub kind: EventKind,
    pub paths: Seq<Seq<char>>,
}

/// The texts of a list of paths.
pub open spec fn paths_view(paths: Seq<String>) -> Seq<Seq<char>> {
    paths.map_values(|p: String| p@)
}

impl View for Event {
    type V = EventView;

    open spec fn view(&self) -> EventView {
        EventView { kind: self.kind, paths: paths_view(self.paths@) }
    }
}

impl Clone for Event {
    fn clone(&self) -> (copy: Self)
        ensures
            copy@ == self@,
    {
        let mut paths: Vec<String> = Vec::new();
        let mut i: usize = 0;
        while i < self.paths.len()
            invariant
                i <= self.paths.len(),
                paths.len() == i,
                forall|j: int| 0 <= j < i ==> (#[trigger] paths[j])@ == self.paths[j]@,
            decreases self.paths.len() - i,
        {
            paths.push(self.paths[i].clone());
            i += 1;
        }
        assert(paths_view(paths@) =~= paths_view(self.paths@));
        Event { kind: self.kind, paths }
    }
}

// ---------------------------------------------------------------------------
// Keys and requests
// ---------------------------------------------------------------------------

/// The identity under which requests coalesce: the path acted on and the
/// action to perform. It is a value, not a reference to a rule: two rules
/// with the same action produce the same key for the same path.
#[derive(Debug)]
pub struct ActionKey {
    pub path: String,
    pub action: ActionType,
}

/// The mathematical content of an [`ActionKey`].
pub struct ActionKeyView {
    pub path: Seq<char>,
    pub action: ActionTypeView,
}

impl View for ActionKey {
    type V = ActionKeyView;

    open spec fn view(&self) -> ActionKeyView {
        ActionKeyView { path: self.path@, action: self.action@ }
    }
}

impl Clone for ActionKey {
    fn clone(&self) -> (copy: Self)
        ensures
            copy@ == self@,
    {
        ActionKey { path: self.path.clone(), action: self.action.clone() }
    }
}

impl ActionKey {
    /// Whether two keys are the same key.
    pub fn same_as(&self, other: &ActionKey) -> (b: bool)
        ensures
            b == (self@ == other@),
    {
        let same_path = self.path == other.path;
        let same_action = self.action.same_as(&other.action);
        same_path && same_action
    }
}

/// A request to act on a path: the path that matched and the rule's action.
#[derive(Debug)]
pub struct KeyAction {
    pub path: String,
    pub action: Action,
}

/// The mathematical content of a [`KeyAction`].
pub struct KeyActionView {
    pub path: Seq<char>,
    pub action: ActionView,
}

impl KeyActionView {
    /// The key of the request: its path and what its action does.
    pub open spec fn key(self) -> ActionKeyView {
        ActionKeyView { path: self.path, action: self.action.action_type }
    }
}

impl View for KeyAction {
    type V = KeyActionView;

    open spec fn view(&self) -> KeyActionView {
        KeyActionView { path: self.path@, action: self.action@ }
    }
}

impl Clone for KeyAction {
    fn clone(&self) -> (copy: Self)
        ensures
            copy@ == self@,
    {
        KeyAction { path: self.path.clone(), action: self.action.clone() }
    }
}

impl KeyAction {
    /// The key under which this request coalesces with others.
    pub fn key(&self) -> (key: ActionKey)
        ensures
            key@ == self@.key(),
    {
        ActionKey { path: self.path.clone(), action: self.action.action_type.clone() }
    }

    /// Whether this request coalesces under `key`.
    pub fn has_key(&self, key: &ActionKey) -> (b: bool)
        ensures
            b == (self@.key() == key@),
    {
        let same_path = self.path == key.path;
        let same_action = self.action.action_type.same_as(&key.action);
        same_path && same_action
    }
}

impl PartialEq for KeyAction {
    /// Two requests are equal when they coalesce: same path, same action.
    fn eq(&self, other: &Self) -> (b: bool) {
        let same_path = self.path == other.path;
        let same_action = self.action.action_type.same_as(&other.action.action_type);
        same_path && same_action
    }
}

impl PartialEqSpecImpl for KeyAction {
    open spec fn obeys_eq_spec() -> bool {
        true
    }

    open spec fn eq_spec(&self, other: &Self) -> bool {
        self@.key() == other@.key()
    }
}

/// An event together with the requests it gave rise to.
#[derive(Debug)]
pub struct FsEvent {
    pub key_actions: Vec<KeyAction>,
    pub event: Event,
}

/// The contents of a list of requests.
pub open spec fn requests_view(requests: Seq<KeyAction>) -> Seq<KeyActionView> {
    requests.map_values(|r: KeyAction| r@)
}

} // verus!
