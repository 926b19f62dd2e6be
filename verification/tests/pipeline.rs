use notify::event::{AccessKind, AccessMode, CreateKind, DataChange, ModifyKind, RemoveKind};
use notify::{EventKind, RecursiveMode};
use triggerfs::actions::{
    Action, ActionType, CustomAction, DeleteFileAction, MoveFileAction, Operation,
};
use triggerfs::conditions::{
    CheckArgs, ComparisonOperator, Condition, ConditionOrConditionsGroup, ConditionType,
    ConditionsGroup, FileMetadata, FileNamePatternCondition, FileSizeCondition, SizeUnit,
};
use triggerfs::debounce::{is_quiet, DebounceInput, DebounceOutput, DebounceState};
use triggerfs::dispatcher::{Dispatched, Dispatcher, Settled};
use triggerfs::protocol::{ActionKey, Event, FsEvent, KeyAction};
use triggerfs::rules::{process_event, RecursiveModeInernal, WatchRule};

const QUIET: u64 = 300;

fn always() -> ConditionOrConditionsGroup {
    ConditionOrConditionsGroup::ConditionGroup(ConditionsGroup {
        cond_type: ConditionType::And,
        conditions: vec![],
    })
}

fn bigger_than_1024_bytes() -> ConditionOrConditionsGroup {
    ConditionOrConditionsGroup::Condition(Condition::FileSize(FileSizeCondition {
        operator: ComparisonOperator::GreaterThan,
        size: 1024,
        unit: SizeUnit::Bytes,
    }))
}

fn named(pattern: &str) -> ConditionOrConditionsGroup {
    ConditionOrConditionsGroup::Condition(Condition::FileNamePatternCondition(
        FileNamePatternCondition { pattern: pattern.to_string() },
    ))
}

fn move_to(destination: &str) -> ActionType {
    ActionType::MoveFile(MoveFileAction { destination: destination.to_string() })
}

fn delete() -> ActionType {
    ActionType::DeleteFile(DeleteFileAction { force: false })
}

fn rule(
    root: &str,
    triggers: Vec<EventKind>,
    conditions: ConditionOrConditionsGroup,
    action_type: ActionType,
) -> WatchRule {
    WatchRule {
        path: root.to_string(),
        recursive_mode: RecursiveModeInernal::Recursive,
        action: Action { triggers, conditions, action_type },
    }
}

fn event(kind: EventKind, paths: &[&str]) -> Event {
    Event { kind, paths: paths.iter().map(|p| p.to_string()).collect() }
}

fn created(path: &str) -> Event {
    event(EventKind::Create(CreateKind::File), &[path])
}

fn written(path: &str) -> Event {
    event(EventKind::Modify(ModifyKind::Data(DataChange::Content)), &[path])
}

fn file_of(len: u64) -> Option<FileMetadata> {
    Some(FileMetadata { is_dir: false, is_symlink: false, len })
}

/// What the caller does with a settled target: gather the facts as they are
/// now, and execute the action.
fn settle(settled: &Settled, metadata: Option<FileMetadata>) -> Option<Operation> {
    let args = CheckArgs::new(settled.target.path.clone(), metadata, None);
    settled.target.action.execute(&settled.event.kind, &args)
}

fn inbox_rule() -> WatchRule {
    rule(
        "/tmp/in",
        vec![EventKind::Create(CreateKind::Any)],
        bigger_than_1024_bytes(),
        move_to("/tmp/out"),
    )
}

fn request(path: &str, action_type: ActionType) -> KeyAction {
    KeyAction {
        path: path.to_string(),
        action: Action { triggers: vec![EventKind::Any], conditions: always(), action_type },
    }
}

// ---------------------------------------------------------------------------
// Rules
// ---------------------------------------------------------------------------

#[test]
fn recursive_mode_stands_for_the_mode_of_the_same_name() {
    assert_eq!(RecursiveMode::from(&RecursiveModeInernal::Recursive), RecursiveMode::Recursive);
    assert_eq!(RecursiveMode::from(&RecursiveModeInernal::NonRecursive), RecursiveMode::NonRecursive);
}

#[test]
fn event_outside_every_root_gives_no_request() {
    let rules = vec![inbox_rule(), rule("/srv/drop", vec![EventKind::Any], always(), delete())];
    for path in ["/tmp/other/a.txt", "/tmp/inbox/a.txt", "/tmp", "tmp/in/a.txt", "/srv/dropped"] {
        let matched = process_event(&rules, event(EventKind::Any, &[path]));
        assert!(matched.key_actions.is_empty(), "{}", path);
        assert_eq!(matched.event.paths, vec![path.to_string()]);
    }
}

#[test]
fn event_of_another_kind_gives_no_request() {
    let rules = vec![inbox_rule()];
    let matched = process_event(&rules, event(EventKind::Remove(RemoveKind::File), &["/tmp/in/a.txt"]));
    assert!(matched.key_actions.is_empty());
    let matched = process_event(&rules, written("/tmp/in/a.txt"));
    assert!(matched.key_actions.is_empty());
}

#[test]
fn no_rules_no_requests() {
    let matched = process_event(&Vec::new(), created("/tmp/in/a.txt"));
    assert!(matched.key_actions.is_empty());
    let matched = process_event(&vec![inbox_rule()], event(EventKind::Any, &[]));
    assert!(matched.key_actions.is_empty());
}

#[test]
fn one_request_for_each_path_and_rule_that_applies() {
    let rules = vec![
        inbox_rule(),
        rule("/tmp", vec![EventKind::Any], always(), delete()),
        rule("/tmp/in/deep", vec![EventKind::Create(CreateKind::File)], always(), delete()),
        rule("/var", vec![EventKind::Any], always(), delete()),
    ];
    let matched = process_event(
        &rules,
        event(
            EventKind::Create(CreateKind::File),
            &["/tmp/in/a.txt", "/var/log/x", "/tmp/in/deep/b.txt", "/home/u/c"],
        ),
    );
    let got: Vec<(String, bool)> = matched
        .key_actions
        .iter()
        .map(|r| (r.path.clone(), matches!(r.action.action_type, ActionType::MoveFile(_))))
        .collect();
    let want = vec![
        ("/tmp/in/a.txt".to_string(), true),
        ("/tmp/in/a.txt".to_string(), false),
        ("/var/log/x".to_string(), false),
        ("/tmp/in/deep/b.txt".to_string(), true),
        ("/tmp/in/deep/b.txt".to_string(), false),
        ("/tmp/in/deep/b.txt".to_string(), false),
    ];
    assert_eq!(got, want);
    assert_eq!(matched.event.kind, EventKind::Create(CreateKind::File));
    assert_eq!(matched.event.paths.len(), 4);
}

#[test]
fn root_is_a_prefix_by_whole_components() {
    let rules = vec![inbox_rule()];
    for (path, applies) in [
        ("/tmp/in", true),
        ("/tmp/in/", true),
        ("/tmp/in/a/b/c", true),
        ("/tmp/in2/a", false),
        ("/tmp/i", false),
    ] {
        let matched = process_event(&rules, created(path));
        assert_eq!(matched.key_actions.len(), usize::from(applies), "{}", path);
    }
}

#[test]
fn request_carries_the_action_of_its_rule() {
    let rules = vec![rule(
        "/tmp/in",
        vec![EventKind::Create(CreateKind::File), EventKind::Access(AccessKind::Close(AccessMode::Write))],
        named(r"\.tmp$"),
        ActionType::Custom(CustomAction { command: "shred {}".to_string() }),
    )];
    let matched = process_event(&rules, created("/tmp/in/x.tmp"));
    assert_eq!(matched.key_actions.len(), 1);
    let got = &matched.key_actions[0];
    assert_eq!(got.path, "/tmp/in/x.tmp");
    assert_eq!(got.action.triggers, rules[0].action.triggers);
    assert!(got.action.action_type.same_as(&rules[0].action.action_type));
    let args = CheckArgs::new("/tmp/in/x.tmp".to_string(), None, None);
    let op = got.action.execute(&EventKind::Create(CreateKind::File), &args);
    assert!(matches!(op, Some(Operation::Run { command }) if command == "shred /tmp/in/x.tmp"));
}

// ---------------------------------------------------------------------------
// Keys
// ---------------------------------------------------------------------------

#[test]
fn key_is_path_and_action() {
    let a = request("/tmp/in/a", move_to("/tmp/out"));
    let same = KeyAction {
        path: "/tmp/in/a".to_string(),
        action: Action {
            triggers: vec![],
            conditions: bigger_than_1024_bytes(),
            action_type: move_to("/tmp/out"),
        },
    };
    let other_path = request("/tmp/in/b", move_to("/tmp/out"));
    let other_action = request("/tmp/in/a", move_to("/tmp/elsewhere"));
    let other_variant = request("/tmp/in/a", delete());
    assert!(a == same);
    assert!(a != other_path);
    assert!(a != other_action);
    assert!(a != other_variant);
    let key: ActionKey = a.key();
    assert_eq!(key.path, "/tmp/in/a");
    assert!(key.action.same_as(&move_to("/tmp/out")));
    assert!(a.has_key(&key));
    assert!(same.has_key(&key));
    assert!(!other_path.has_key(&key));
    assert!(!other_action.has_key(&key));
    assert!(key.same_as(&same.key()));
    assert!(key.same_as(&key.clone()));
    assert!(!key.same_as(&other_path.key()));
    assert!(!key.same_as(&other_variant.key()));
    assert!(a.clone() == a);
}

// ---------------------------------------------------------------------------
// The state machine
// ---------------------------------------------------------------------------

fn delete_on_create() -> Action {
    Action {
        triggers: vec![EventKind::Create(CreateKind::Any)],
        conditions: always(),
        action_type: delete(),
    }
}

#[test]
fn quiet_period_is_measured_from_the_last_activity() {
    assert!(!is_quiet(1000, 1299, 300));
    assert!(is_quiet(1000, 1300, 300));
    assert!(is_quiet(1000, 5000, 300));
    assert!(!is_quiet(1000, 1000, 300));
    assert!(!is_quiet(1000, 900, 300));
    assert!(is_quiet(1000, 1000, 0));
    assert!(is_quiet(1000, 900, 0));
    assert!(is_quiet(0, u64::MAX, u64::MAX));
    assert!(!is_quiet(1, u64::MAX, u64::MAX));
}

#[test]
fn idle_process_takes_the_first_event_as_representative() {
    let action = delete_on_create();
    let input = DebounceInput::Request { event: created("/tmp/in/a"), now: 10 };
    let (state, output) = DebounceState::Idle.step(&action, input, QUIET);
    assert!(matches!(output, DebounceOutput::Wait));
    assert!(!state.is_over());
    match state {
        DebounceState::Pending { representative, last_activity } => {
            assert_eq!(representative.kind, EventKind::Create(CreateKind::File));
            assert_eq!(representative.paths, vec!["/tmp/in/a".to_string()]);
            assert_eq!(last_activity, 10);
        }
        other => panic!("{:?}", other),
    }
}

#[test]
fn idle_process_aborts_on_an_event_it_is_not_triggered_by() {
    let action = delete_on_create();
    let input = DebounceInput::Request { event: written("/tmp/in/a"), now: 10 };
    let (state, output) = DebounceState::Idle.step(&action, input, QUIET);
    assert!(matches!(output, DebounceOutput::Abort));
    assert!(matches!(state, DebounceState::Aborted));
    assert!(state.is_over());
}

#[test]
fn idle_process_waits_through_ticks() {
    let action = delete_on_create();
    let (state, output) = DebounceState::Idle.step(&action, DebounceInput::Tick { now: 99999 }, QUIET);
    assert!(matches!(output, DebounceOutput::Wait));
    assert!(matches!(state, DebounceState::Idle));
}

#[test]
fn later_events_refresh_the_time_and_keep_the_representative() {
    let action = delete_on_create();
    let (state, _) = DebounceState::Idle.step(
        &action,
        DebounceInput::Request { event: created("/tmp/in/a"), now: 10 },
        QUIET,
    );
    // Not an event the action is triggered by: only the first event is checked.
    let (state, output) =
        state.step(&action, DebounceInput::Request { event: written("/tmp/in/a"), now: 200 }, QUIET);
    assert!(matches!(output, DebounceOutput::Wait));
    let (state, output) = state.step(&action, DebounceInput::Tick { now: 499 }, QUIET);
    assert!(matches!(output, DebounceOutput::Wait));
    let (state, output) = state.step(&action, DebounceInput::Tick { now: 500 }, QUIET);
    match output {
        DebounceOutput::Evaluate { event } => {
            assert_eq!(event.kind, EventKind::Create(CreateKind::File));
        }
        other => panic!("{:?}", other),
    }
    assert!(matches!(state, DebounceState::Settled));
    assert!(state.is_over());
}

#[test]
fn finished_process_stays_finished() {
    let action = delete_on_create();
    for start in [DebounceState::Settled, DebounceState::Aborted] {
        let settled = matches!(start, DebounceState::Settled);
        let (state, output) =
            start.step(&action, DebounceInput::Request { event: created("/a"), now: 1 }, QUIET);
        assert!(matches!(output, DebounceOutput::Finished));
        let (state, output) = state.step(&action, DebounceInput::Tick { now: u64::MAX }, QUIET);
        assert!(matches!(output, DebounceOutput::Finished));
        assert_eq!(matches!(state, DebounceState::Settled), settled);
        assert!(state.is_over());
    }
}

#[test]
fn burst_of_many_events_is_evaluated_once() {
    let action = delete_on_create();
    let mut state = DebounceState::Idle;
    let mut evaluations = 0;
    let mut now = 0;
    for n in 0..50u64 {
        now = n * 250;
        let event = if n == 0 { created("/tmp/in/a") } else { written("/tmp/in/a") };
        let (next, output) = state.step(&action, DebounceInput::Request { event, now }, QUIET);
        assert!(matches!(output, DebounceOutput::Wait));
        let (next, output) = next.step(&action, DebounceInput::Tick { now: now + 100 }, QUIET);
        assert!(matches!(output, DebounceOutput::Wait));
        let (next, output) = next.step(&action, DebounceInput::Tick { now: now + 200 }, QUIET);
        assert!(matches!(output, DebounceOutput::Wait));
        state = next;
    }
    for tick in 1..20u64 {
        let (next, output) = state.step(&action, DebounceInput::Tick { now: now + tick * 100 }, QUIET);
        if let DebounceOutput::Evaluate { event } = output {
            assert_eq!(tick, 3);
            assert_eq!(event.kind, EventKind::Create(CreateKind::File));
            evaluations += 1;
        }
        state = next;
    }
    assert_eq!(evaluations, 1);
}

// ---------------------------------------------------------------------------
// The dispatcher
// ---------------------------------------------------------------------------

#[test]
fn new_dispatcher_runs_nothing() {
    let mut dispatcher = Dispatcher::new(QUIET);
    assert_eq!(dispatcher.len(), 0);
    assert!(!dispatcher.is_running(&request("/a", delete()).key()));
    assert!(dispatcher.tick(u64::MAX).is_empty());
}

#[test]
fn one_process_per_key() {
    let mut dispatcher = Dispatcher::new(QUIET);
    let a = request("/tmp/in/a", delete());
    let e = created("/tmp/in/a");
    assert_eq!(dispatcher.dispatch(a.clone(), &e, 0), Dispatched::Started);
    assert_eq!(dispatcher.len(), 1);
    for now in 1..10 {
        assert_eq!(dispatcher.dispatch(a.clone(), &e, now), Dispatched::Joined);
        assert_eq!(dispatcher.len(), 1);
    }
    assert!(dispatcher.is_running(&a.key()));
    assert_eq!(dispatcher.dispatch(request("/tmp/in/b", delete()), &e, 10), Dispatched::Started);
    assert_eq!(dispatcher.dispatch(request("/tmp/in/a", move_to("/o")), &e, 10), Dispatched::Started);
    assert_eq!(dispatcher.len(), 3);
}

#[test]
fn request_for_an_event_of_another_kind_starts_nothing() {
    let mut dispatcher = Dispatcher::new(QUIET);
    let target = KeyAction { path: "/tmp/in/a".to_string(), action: delete_on_create() };
    assert_eq!(dispatcher.dispatch(target.clone(), &written("/tmp/in/a"), 0), Dispatched::Rejected);
    assert_eq!(dispatcher.len(), 0);
    assert!(!dispatcher.is_running(&target.key()));
    assert_eq!(dispatcher.dispatch(target.clone(), &created("/tmp/in/a"), 1), Dispatched::Started);
    // Once the process runs, every request for the key joins it.
    assert_eq!(dispatcher.dispatch(target.clone(), &written("/tmp/in/a"), 2), Dispatched::Joined);
    assert_eq!(dispatcher.len(), 1);
}

#[test]
fn process_settles_after_the_quiet_period_and_leaves() {
    let mut dispatcher = Dispatcher::new(QUIET);
    let a = request("/tmp/in/a", delete());
    dispatcher.dispatch(a.clone(), &created("/tmp/in/a"), 1000);
    assert!(dispatcher.tick(1100).is_empty());
    assert!(dispatcher.tick(1299).is_empty());
    assert_eq!(dispatcher.len(), 1);
    let due = dispatcher.tick(1300);
    assert_eq!(due.len(), 1);
    assert!(due[0].target == a);
    assert_eq!(due[0].event.kind, EventKind::Create(CreateKind::File));
    assert_eq!(dispatcher.len(), 0);
    assert!(!dispatcher.is_running(&a.key()));
    assert!(dispatcher.tick(1400).is_empty());
    assert!(dispatcher.tick(u64::MAX).is_empty());
    // The key is free again: a later event starts a fresh process.
    assert_eq!(dispatcher.dispatch(a.clone(), &written("/tmp/in/a"), 5000), Dispatched::Started);
    let due = dispatcher.tick(5300);
    assert_eq!(due.len(), 1);
    assert_eq!(due[0].event.kind, EventKind::Modify(ModifyKind::Data(DataChange::Content)));
}

#[test]
fn keys_do_not_interfere() {
    let mut dispatcher = Dispatcher::new(QUIET);
    let a = request("/tmp/in/a", delete());
    let b = request("/tmp/in/b", delete());
    dispatcher.dispatch(a.clone(), &created("/tmp/in/a"), 1000);
    dispatcher.dispatch(b.clone(), &created("/tmp/in/b"), 1200);
    // Activity on b does not hold a back.
    dispatcher.dispatch(b.clone(), &written("/tmp/in/b"), 1290);
    let due = dispatcher.tick(1300);
    assert_eq!(due.len(), 1);
    assert!(due[0].target == a);
    assert!(dispatcher.is_running(&b.key()));
    assert!(!dispatcher.is_running(&a.key()));
    assert!(dispatcher.tick(1589).is_empty());
    let due = dispatcher.tick(1590);
    assert_eq!(due.len(), 1);
    assert!(due[0].target == b);
    assert_eq!(due[0].event.kind, EventKind::Create(CreateKind::File));
    assert_eq!(dispatcher.len(), 0);
}

#[test]
fn order_of_arrival_of_different_keys_makes_no_difference() {
    let run = |a_first: bool| {
        let mut dispatcher = Dispatcher::new(QUIET);
        let a = request("/tmp/in/a", delete());
        let b = request("/tmp/in/b", move_to("/tmp/out"));
        if a_first {
            dispatcher.dispatch(a, &created("/tmp/in/a"), 100);
            dispatcher.dispatch(b, &written("/tmp/in/b"), 150);
        } else {
            dispatcher.dispatch(b, &written("/tmp/in/b"), 150);
            dispatcher.dispatch(a, &created("/tmp/in/a"), 100);
        }
        let mut seen = Vec::new();
        for now in (0..1000).step_by(50) {
            for settled in dispatcher.tick(now) {
                seen.push((now, settled.target.path.clone(), settled.event.kind));
            }
        }
        seen
    };
    let want = vec![
        (400, "/tmp/in/a".to_string(), EventKind::Create(CreateKind::File)),
        (450, "/tmp/in/b".to_string(), EventKind::Modify(ModifyKind::Data(DataChange::Content))),
    ];
    assert_eq!(run(true), want);
    assert_eq!(run(false), want);
}

#[test]
fn tick_hands_out_every_settled_process_once() {
    let mut dispatcher = Dispatcher::new(QUIET);
    let paths: Vec<String> = (0..20).map(|n| format!("/tmp/in/{}", n)).collect();
    for (n, path) in paths.iter().enumerate() {
        let now = if n % 2 == 0 { 0 } else { 1000 };
        dispatcher.dispatch(request(path, delete()), &created(path), now);
    }
    assert_eq!(dispatcher.len(), 20);
    let due = dispatcher.tick(QUIET);
    let mut settled: Vec<String> = due.iter().map(|s| s.target.path.clone()).collect();
    settled.sort();
    let mut want: Vec<String> = paths.iter().step_by(2).cloned().collect();
    want.sort();
    assert_eq!(settled, want);
    assert_eq!(dispatcher.len(), 10);
    for (n, path) in paths.iter().enumerate() {
        assert_eq!(dispatcher.is_running(&request(path, delete()).key()), n % 2 == 1);
    }
    assert_eq!(dispatcher.tick(1000 + QUIET).len(), 10);
    assert_eq!(dispatcher.len(), 0);
}

#[test]
fn zero_quiet_period_settles_at_the_next_tick() {
    let mut dispatcher = Dispatcher::new(0);
    dispatcher.dispatch(request("/a", delete()), &created("/a"), 500);
    assert_eq!(dispatcher.tick(500).len(), 1);
    dispatcher.dispatch(request("/a", delete()), &created("/a"), 500);
    assert_eq!(dispatcher.tick(400).len(), 1);
}

#[test]
fn clock_running_backwards_settles_nothing() {
    let mut dispatcher = Dispatcher::new(QUIET);
    dispatcher.dispatch(request("/a", delete()), &created("/a"), 5000);
    assert!(dispatcher.tick(0).is_empty());
    assert!(dispatcher.tick(4999).is_empty());
    assert_eq!(dispatcher.len(), 1);
    assert_eq!(dispatcher.tick(5300).len(), 1);
}

#[test]
fn handle_routes_every_request_of_an_event() {
    let rules = vec![
        inbox_rule(),
        rule("/tmp", vec![EventKind::Any], always(), delete()),
        rule("/tmp/in", vec![EventKind::Create(CreateKind::File)], always(), delete()),
    ];
    let mut dispatcher = Dispatcher::new(QUIET);
    let matched = process_event(&rules, created("/tmp/in/a.txt"));
    assert_eq!(matched.key_actions.len(), 3);
    dispatcher.handle(matched, 0);
    // Two of the three requests have the same key: same path, same action.
    assert_eq!(dispatcher.len(), 2);
    dispatcher.handle(FsEvent { key_actions: vec![], event: created("/x") }, 10);
    assert_eq!(dispatcher.len(), 2);
    let due = dispatcher.tick(QUIET);
    assert_eq!(due.len(), 2);
    assert!(due.iter().all(|s| s.target.path == "/tmp/in/a.txt"));
    assert_eq!(due.iter().filter(|s| matches!(s.target.action.action_type, ActionType::MoveFile(_))).count(), 1);
    assert_eq!(due.iter().filter(|s| matches!(s.target.action.action_type, ActionType::DeleteFile(_))).count(), 1);
}

// ---------------------------------------------------------------------------
// From event to operation
// ---------------------------------------------------------------------------

#[test]
fn large_file_is_moved_once_it_has_settled() {
    let rules = vec![inbox_rule()];
    let mut dispatcher = Dispatcher::new(QUIET);
    dispatcher.handle(process_event(&rules, created("/tmp/in/a.txt")), 1000);
    assert!(dispatcher.tick(1100).is_empty());
    let due = dispatcher.tick(1000 + QUIET);
    assert_eq!(due.len(), 1);
    let op = settle(&due[0], file_of(2000));
    assert!(matches!(
        op,
        Some(Operation::Rename { from, to }) if from == "/tmp/in/a.txt" && to == "/tmp/out/a.txt"
    ));
    assert_eq!(dispatcher.len(), 0);
}

#[test]
fn small_file_is_left_in_place() {
    let rules = vec![inbox_rule()];
    let mut dispatcher = Dispatcher::new(QUIET);
    dispatcher.handle(process_event(&rules, created("/tmp/in/a.txt")), 1000);
    let due = dispatcher.tick(1000 + QUIET);
    assert_eq!(due.len(), 1);
    assert!(settle(&due[0], file_of(10)).is_none());
    assert!(settle(&due[0], file_of(1024)).is_none());
    assert!(settle(&due[0], None).is_none());
    assert_eq!(dispatcher.len(), 0);
}

#[test]
fn conditions_see_the_file_as_it_is_when_the_burst_settles() {
    let rules = vec![rule(
        "/tmp/in",
        vec![EventKind::Create(CreateKind::Any), EventKind::Modify(ModifyKind::Any)],
        bigger_than_1024_bytes(),
        move_to("/tmp/out"),
    )];
    let mut dispatcher = Dispatcher::new(QUIET);
    // The file is created empty and grows while the burst lasts.
    dispatcher.handle(process_event(&rules, created("/tmp/in/a.txt")), 0);
    dispatcher.handle(process_event(&rules, written("/tmp/in/a.txt")), 200);
    dispatcher.handle(process_event(&rules, written("/tmp/in/a.txt")), 400);
    assert!(dispatcher.tick(500).is_empty());
    let due = dispatcher.tick(700);
    assert_eq!(due.len(), 1);
    assert_eq!(due[0].event.kind, EventKind::Create(CreateKind::File));
    assert!(settle(&due[0], file_of(2000)).is_some());
}

#[test]
fn two_rapid_writes_give_one_evaluation() {
    let rules = vec![rule("/tmp/in", vec![EventKind::Modify(ModifyKind::Any)], always(), delete())];
    let mut dispatcher = Dispatcher::new(QUIET);
    let mut evaluations = 0;
    dispatcher.handle(process_event(&rules, written("/tmp/in/a.txt")), 0);
    evaluations += dispatcher.tick(100).len();
    dispatcher.handle(process_event(&rules, written("/tmp/in/a.txt")), 150);
    for now in (200..2000).step_by(100) {
        evaluations += dispatcher.tick(now).len();
    }
    assert_eq!(evaluations, 1);
}

#[test]
fn two_writes_far_apart_give_two_evaluations() {
    let rules = vec![rule("/tmp/in", vec![EventKind::Modify(ModifyKind::Any)], always(), delete())];
    let mut dispatcher = Dispatcher::new(QUIET);
    let mut evaluations = 0;
    dispatcher.handle(process_event(&rules, written("/tmp/in/a.txt")), 0);
    for now in (100..1000).step_by(100) {
        evaluations += dispatcher.tick(now).len();
    }
    dispatcher.handle(process_event(&rules, written("/tmp/in/a.txt")), 1000);
    for now in (1100..2000).step_by(100) {
        evaluations += dispatcher.tick(now).len();
    }
    assert_eq!(evaluations, 2);
}

#[test]
fn temporary_file_is_deleted_and_text_file_is_untouched() {
    let rules = vec![rule("/tmp/in", vec![EventKind::Any], named(r"\.tmp$"), delete())];
    let mut dispatcher = Dispatcher::new(QUIET);
    dispatcher.handle(process_event(&rules, created("/tmp/in/x.tmp")), 0);
    dispatcher.handle(process_event(&rules, created("/tmp/in/x.txt")), 0);
    let due = dispatcher.tick(QUIET);
    assert_eq!(due.len(), 2);
    for settled in due.iter() {
        let op = settle(settled, file_of(1));
        if settled.target.path == "/tmp/in/x.tmp" {
            assert!(matches!(op, Some(Operation::Remove { path }) if path == "/tmp/in/x.tmp"));
        } else {
            assert_eq!(settled.target.path, "/tmp/in/x.txt");
            assert!(op.is_none());
        }
    }
}
