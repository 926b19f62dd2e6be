//! The rule set and the rule matcher: which rules an event sets off, and the
//! requests that follow from it.
//!
//! The rule set is read and never changed. Matching cannot fail: an event
//! that no rule applies to gives no request.

use crate::actions::{triggers_accept, Action, ActionView};
use crate::protocol::{paths_view, requests_view, Event, FsEvent, KeyAction, KeyActionView};
use crate::trusted::{path_starts_with, starts_with};
use notify::{EventKind, RecursiveMode};
use vstd::prelude::*;

verus! {

/// Whether a root is watched with everything below it.
#[derive(Clone, Copy, Debug, PartialEq, Eq, Structural)]
pub enum RecursiveModeInernal {
    Recursive,
    NonRecursive,
}

/// The mode of `notify` that a rule's mode stands for.
pub open spec fn recursive_mode_of(item: RecursiveModeInernal) -> RecursiveMode {
    match item {
        RecursiveModeInernal::Recursive => RecursiveMode::Recursive,
        RecursiveModeInernal::NonRecursive => RecursiveMode::NonRecursive,
    }
}

impl From<&RecursiveModeInernal> for RecursiveMode {
    fn from(item: &RecursiveModeInernal) -> (r: RecursiveMode) {
        match item {
            RecursiveModeInernal::Recursive => RecursiveMode::Recursive,
            RecursiveModeInernal::NonRecursive => RecursiveMode::NonRecursive,
        }
    }
}

impl vstd::std_specs::convert::FromSpecImpl<&RecursiveModeInernal> for RecursiveMode {
    open spec fn obeys_from_spec() -> bool {
        true
    }

    open spec fn from_spec(item: &RecursiveModeInernal) -> RecursiveMode {
        recursive_mode_of(*item)
    }
}

/// One watch rule: a root, how deep it is watched, and what to do there.
#[derive(Debug)]
pub struct WatchRule {
    pub path: String,
    pub recursive_mode: RecursiveModeInernal,
    pub action: Action,
}

/// The mathematical content of a [`WatchRule`].
pub struct WatchRuleView {
    pub path: Seq<char>,
    pub recursive_mode: RecursiveModeInernal,
    pub action: ActionView,
}

impl View for WatchRule {
    type V = WatchRuleView;

    open spec fn view(&self) -> WatchRuleView {
        WatchRuleView {
            path: self.path@,
            recursive_mode: self.recursive_mode,
            action: self.action@,
        }
    }
}

/// The contents of a rule set.
pub open spec fn rules_view(rules: Seq<WatchRule>) -> Seq<WatchRuleView> {
    rules.map_values(|r: WatchRule| r@)
}

// ---------------------------------------------------------------------------
// Matching
// ---------------------------------------------------------------------------

/// Whether a rule applies to a path of an event of the kind: the rule's root
/// is a prefix of the path, and one of the rule's triggers accepts the kind.
pub open spec fn rule_applies(rule: WatchRuleView, path: Seq<char>, kind: EventKind) -> bool {
    path_starts_with(path, rule.path) && triggers_accept(rule.action.triggers, kind)
}

/// The request that a rule makes for a path.
pub open spec fn request_of(rule: WatchRuleView, path: Seq<char>) -> KeyActionView {
    KeyActionView { path, action: rule.action }
}

/// The requests for one path: one from each rule that applies, in the order
/// of the rules.
pub open spec fn requests_for_path(rules: Seq<WatchRuleView>, path: Seq<char>, kind: EventKind) -> Seq<
    KeyActionView,
>
    decreases rules.len(),
{
    if rules.len() == 0 {
        Seq::empty()
    } else {
        let before = requests_for_path(rules.drop_last(), path, kind);
        if rule_applies(rules.last(), path, kind) {
            before.push(request_of(rules.last(), path))
        } else {
            before
        }
    }
}

/// The requests for an event: those for each of its paths, in the order of
/// the paths.
pub open spec fn requests_for(rules: Seq<WatchRuleView>, paths: Seq<Seq<char>>, kind: EventKind) -> Seq<
    KeyActionView,
>
    decreases paths.len(),
{
    if paths.len() == 0 {
        Seq::empty()
    } else {
        requests_for(rules, paths.drop_last(), kind) + requests_for_path(rules, paths.last(), kind)
    }
}

/// The requests that the rules make for one path of an event.
fn match_path(rules: &Vec<WatchRule>, path: &String, kind: &EventKind, key_actions: &mut Vec<KeyAction>)
    ensures
        requests_view(final(key_actions)@) == requests_view(old(key_actions)@) + requests_for_path(
            rules_view(rules@),
            path@,
            *kind,
        ),
{
    let ghost before = requests_view(key_actions@);
    let ghost all = rules_view(rules@);
    let mut i: usize = 0;
    assert(all.take(0) =~= Seq::empty());
    assert(requests_view(key_actions@) =~= before + requests_for_path(all.take(0), path@, *kind));
    while i < rules.len()
        invariant
            i <= rules.len(),
            all == rules_view(rules@),
            all.len() == rules.len(),
            requests_view(key_actions@) == before + requests_for_path(
                all.take(i as int),
                path@,
                *kind,
            ),
        decreases rules.len() - i,
    {
        let rule = &rules[i];
        let ghost sofar = requests_view(key_actions@);
        proof {
            assert(all.take(i + 1).drop_last() =~= all.take(i as int));
            assert(all.take(i + 1).last() == rule@);
        }
        if starts_with(path.as_str(), rule.path.as_str()) && rule.action.check(kind) {
            let request = KeyAction { path: path.clone(), action: rule.action.clone() };
            key_actions.push(request);
            proof {
                assert(request@ == request_of(rule@, path@));
                assert(requests_view(key_actions@) =~= sofar.push(request@));
                assert(before + requests_for_path(all.take(i as int), path@, *kind).push(request@)
                    =~= (before + requests_for_path(all.take(i as int), path@, *kind)).push(
                    request@,
                ));
            }
        }
        i += 1;
    }
    assert(all.take(rules.len() as int) =~= all);
}

/// Matches an event against the rule set and attaches to it one request for
/// every pair of a path of the event and a rule that applies to it.
pub fn process_event(rules: &Vec<WatchRule>, event: Event) -> (matched: FsEvent)
    ensures
        matched.event@ == event@,
        requests_view(matched.key_actions@) == requests_for(
            rules_view(rules@),
            event@.paths,
            event@.kind,
        ),
{
    let mut key_actions: Vec<KeyAction> = Vec::new();
    let ghost all = rules_view(rules@);
    let ghost paths = event@.paths;
    let mut i: usize = 0;
    assert(paths.take(0) =~= Seq::empty());
    assert(requests_view(key_actions@) =~= requests_for(all, paths.take(0), event.kind));
    while i < event.paths.len()
        invariant
            i <= event.paths.len(),
            all == rules_view(rules@),
            paths == event@.paths,
            paths.len() == event.paths.len(),
            requests_view(key_actions@) == requests_for(all, paths.take(i as int), event.kind),
        decreases event.paths.len() - i,
    {
        proof {
            assert(paths.take(i + 1).drop_last() =~= paths.take(i as int));
            assert(paths.take(i + 1).last() == event.paths[i as int]@);
        }
        match_path(rules, &event.paths[i], &event.kind, &mut key_actions);
        i += 1;
    }
    assert(paths.take(event.paths.len() as int) =~= paths);
    FsEvent { key_actions, event }
}

// ---------------------------------------------------------------------------
// Laws of matching
// ---------------------------------------------------------------------------

/// A request is made for a path exactly when some rule that applies to the
/// path makes it.
pub proof fn lemma_requests_for_path_members(
    rules: Seq<WatchRuleView>,
    path: Seq<char>,
    kind: EventKind,
    request: KeyActionView,
)
    ensures
        requests_for_path(rules, path, kind).contains(request) <==> exists|r: int|
            0 <= r < rules.len() && rule_applies(#[trigger] rules[r], path, kind) && request
                == request_of(rules[r], path),
    decreases rules.len(),
{
    let made = requests_for_path(rules, path, kind);
    if rules.len() > 0 {
        let before = requests_for_path(rules.drop_last(), path, kind);
        lemma_requests_for_path_members(rules.drop_last(), path, kind, request);
        let last = rules.len() - 1;
        if made.contains(request) {
            let at = choose|k: int| 0 <= k < made.len() && made[k] == request;
            if at < before.len() {
                assert(before[at] == request);
                assert(before.contains(request));
                let r = choose|r: int|
                    0 <= r < rules.drop_last().len() && rule_applies(
                        #[trigger] rules.drop_last()[r],
                        path,
                        kind,
                    ) && request == request_of(rules.drop_last()[r], path);
                assert(rules[r] == rules.drop_last()[r]);
            } else {
                assert(rule_applies(rules[last], path, kind));
            }
        }
        if exists|r: int|
            0 <= r < rules.len() && rule_applies(#[trigger] rules[r], path, kind) && request
                == request_of(rules[r], path) {
            let r = choose|r: int|
                0 <= r < rules.len() && rule_applies(#[trigger] rules[r], path, kind) && request
                    == request_of(rules[r], path);
            if r < last {
                assert(rules.drop_last()[r] == rules[r]);
                assert(before.contains(request));
                let at = choose|k: int| 0 <= k < before.len() && before[k] == request;
                assert(made[at] == request);
            } else {
                assert(made[made.len() - 1] == request);
            }
        }
    }
}

/// A request is made for an event exactly when some rule that applies to one
/// of the event's paths makes it for that path.
pub proof fn lemma_requests_members(
    rules: Seq<WatchRuleView>,
    paths: Seq<Seq<char>>,
    kind: EventKind,
    request: KeyActionView,
)
    ensures
        requests_for(rules, paths, kind).contains(request) <==> exists|p: int, r: int|
            0 <= p < paths.len() && 0 <= r < rules.len() && rule_applies(
                #[trigger] rules[r],
                #[trigger] paths[p],
                kind,
            ) && request == request_of(rules[r], paths[p]),
    decreases paths.len(),
{
    let made = requests_for(rules, paths, kind);
    if paths.len() > 0 {
        let before = requests_for(rules, paths.drop_last(), kind);
        let here = requests_for_path(rules, paths.last(), kind);
        let last = paths.len() - 1;
        lemma_requests_members(rules, paths.drop_last(), kind, request);
        lemma_requests_for_path_members(rules, paths.last(), kind, request);
        if made.contains(request) {
            let at = choose|k: int| 0 <= k < made.len() && made[k] == request;
            if at < before.len() {
                assert(before[at] == request);
                assert(before.contains(request));
                let (p, r) = choose|p: int, r: int|
                    0 <= p < paths.drop_last().len() && 0 <= r < rules.len() && rule_applies(
                        #[trigger] rules[r],
                        #[trigger] paths.drop_last()[p],
                        kind,
                    ) && request == request_of(rules[r], paths.drop_last()[p]);
                assert(paths[p] == paths.drop_last()[p]);
            } else {
                assert(here[at - before.len()] == request);
                assert(here.contains(request));
                let r = choose|r: int|
                    0 <= r < rules.len() && rule_applies(#[trigger] rules[r], paths.last(), kind)
                        && request == request_of(rules[r], paths.last());
                assert(paths[last] == paths.last());
            }
        }
        if exists|p: int, r: int|
            0 <= p < paths.len() && 0 <= r < rules.len() && rule_applies(
                #[trigger] rules[r],
                #[trigger] paths[p],
                kind,
            ) && request == request_of(rules[r], paths[p]) {
            let (p, r) = choose|p: int, r: int|
                0 <= p < paths.len() && 0 <= r < rules.len() && rule_applies(
                    #[trigger] rules[r],
                    #[trigger] paths[p],
                    kind,
                ) && request == request_of(rules[r], paths[p]);
            if p < last {
                assert(paths.drop_last()[p] == paths[p]);
                assert(before.contains(request));
                let at = choose|k: int| 0 <= k < before.len() && before[k] == request;
                assert(made[at] == request);
            } else {
                assert(here.contains(request));
                let at = choose|k: int| 0 <= k < here.len() && here[k] == request;
                assert(made[before.len() + at] == request);
            }
        }
    }
}

/// An event none of whose paths lies under the root of any rule gives no
/// request.
pub proof fn lemma_no_root_no_request(rules: Seq<WatchRuleView>, paths: Seq<Seq<char>>, kind: EventKind)
    requires
        forall|p: int, r: int|
            0 <= p < paths.len() && 0 <= r < rules.len() ==> !path_starts_with(
                #[trigger] paths[p],
                (#[trigger] rules[r]).path,
            ),
    ensures
        requests_for(rules, paths, kind).len() == 0,
{
    let made = requests_for(rules, paths, kind);
    if made.len() > 0 {
        let request = made[0];
        assert(made.contains(request));
        lemma_requests_members(rules, paths, kind, request);
    }
}

/// An event whose kind no trigger of any rule accepts gives no request.
pub proof fn lemma_no_trigger_no_request(rules: Seq<WatchRuleView>, paths: Seq<Seq<char>>, kind: EventKind)
    requires
        forall|r: int| 0 <= r < rules.len() ==> !triggers_accept((#[trigger] rules[r]).action.triggers, kind),
    ensures
        requests_for(rules, paths, kind).len() == 0,
{
    let made = requests_for(rules, paths, kind);
    if made.len() > 0 {
        let request = made[0];
        assert(made.contains(request));
        lemma_requests_members(rules, paths, kind, request);
    }
}

/// Every request is for a path of the event, and carries the action of a
/// rule unchanged.
pub proof fn lemma_requests_are_sound(
    rules: Seq<WatchRuleView>,
    paths: Seq<Seq<char>>,
    kind: EventKind,
    i: int,
)
    requires
        0 <= i < requests_for(rules, paths, kind).len(),
    ensures
        paths.contains(requests_for(rules, paths, kind)[i].path),
        exists|r: int|
            0 <= r < rules.len() && (#[trigger] rules[r]).action == requests_for(
                rules,
                paths,
                kind,
            )[i].action,
{
    let made = requests_for(rules, paths, kind);
    let request = made[i];
    assert(made.contains(request));
    lemma_requests_members(rules, paths, kind, request);
    let (p, r) = choose|p: int, r: int|
        0 <= p < paths.len() && 0 <= r < rules.len() && rule_applies(
            #[trigger] rules[r],
            #[trigger] paths[p],
            kind,
        ) && request == request_of(rules[r], paths[p]);
    assert(paths[p] == request.path);
    assert(rules[r].action == request.action);
}

} // verus!
