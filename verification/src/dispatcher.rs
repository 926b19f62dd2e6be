//! The key dispatcher: the one place that knows which debounce processes are
//! running, and that routes every request to the process of its key.
//!
//! There is at most one process per key. A request whose key has no process
//! starts one; a request whose key has one joins it. A process leaves the
//! dispatcher when it is over: when its burst has settled, or at once when
//! its first event is not accepted.

use crate::actions::triggers_accept;
use crate::debounce::{
    next_state, output_of, quiet_elapsed, DebounceInput, DebounceInputView, DebounceOutput,
    DebounceOutputView, DebounceState, DebounceStateView,
};
use crate::protocol::{
    requests_view, ActionKey, ActionKeyView, Event, EventView, FsEvent, KeyAction, KeyActionView,
};
use notify::EventKind;
use vstd::prelude::*;

verus! {

// ---------------------------------------------------------------------------
// The model
// ---------------------------------------------------------------------------

/// What is known of a running process: the request that started it, the
/// first event of its burst, and the time of the latest.
pub struct ProcessView {
    pub target: KeyActionView,
    pub representative: EventView,
    pub last_activity: u64,
}

impl ProcessView {
    /// The key of the process.
    pub open spec fn key(self) -> ActionKeyView {
        self.target.key()
    }

    /// Whether the burst of the process has settled at `now`.
    pub open spec fn is_due(self, now: u64, quiet: u64) -> bool {
        quiet_elapsed(self.last_activity, now, quiet)
    }
}

/// Whether no two of the processes have the same key.
pub open spec fn distinct_keys(processes: Seq<ProcessView>) -> bool {
    forall|i: int, j: int|
        0 <= i < processes.len() && 0 <= j < processes.len() && i != j ==> (
        #[trigger] processes[i]).key() != (#[trigger] processes[j]).key()
}

/// Whether one of the processes has the key.
pub open spec fn has_key(processes: Seq<ProcessView>, key: ActionKeyView) -> bool {
    exists|i: int| 0 <= i < processes.len() && (#[trigger] processes[i]).key() == key
}

/// The processes by key.
pub open spec fn by_key(processes: Seq<ProcessView>) -> Map<ActionKeyView, ProcessView> {
    Map::new(
        |key: ActionKeyView| has_key(processes, key),
        |key: ActionKeyView|
            processes[choose|i: int| 0 <= i < processes.len() && (#[trigger] processes[i]).key() == key],
    )
}

/// The processes after a request at time `now` that `event` gave rise to. A
/// running process of the request's key is told of the activity and keeps
/// its representative. Where none runs, one is started for the request with
/// `event` as its representative, unless no trigger of the request's action
/// accepts the event: then nothing changes.
pub open spec fn dispatched(
    running: Map<ActionKeyView, ProcessView>,
    request: KeyActionView,
    event: EventView,
    now: u64,
) -> Map<ActionKeyView, ProcessView> {
    let key = request.key();
    if running.contains_key(key) {
        running.insert(key, ProcessView { last_activity: now, ..running[key] })
    } else if triggers_accept(request.action.triggers, event.kind) {
        running.insert(key, ProcessView { target: request, representative: event, last_activity: now })
    } else {
        running
    }
}

/// The processes after the requests of one event, taken in order.
pub open spec fn dispatched_all(
    running: Map<ActionKeyView, ProcessView>,
    requests: Seq<KeyActionView>,
    event: EventView,
    now: u64,
) -> Map<ActionKeyView, ProcessView>
    decreases requests.len(),
{
    if requests.len() == 0 {
        running
    } else {
        dispatched(dispatched_all(running, requests.drop_last(), event, now), requests.last(), event, now)
    }
}

/// The processes that keep running after a tick at `now`: those whose burst
/// has not settled.
pub open spec fn still_running(
    running: Map<ActionKeyView, ProcessView>,
    now: u64,
    quiet: u64,
) -> Map<ActionKeyView, ProcessView> {
    running.restrict(Set::new(|key: ActionKeyView| running.contains_key(key) && !running[key].is_due(now, quiet)))
}

/// What a dispatcher did with a request.
#[derive(Clone, Copy, Debug, PartialEq, Eq, Structural)]
pub enum Dispatched {
    /// No process ran for the key: one was started.
    Started,
    /// A process ran for the key: the request joined its burst.
    Joined,
    /// No process ran for the key, and none was started: the event is not
    /// one that the action is triggered by.
    Rejected,
}

/// A target whose burst has settled: the request that started the process,
/// and the first event of the burst.
#[derive(Debug)]
pub struct Settled {
    pub target: KeyAction,
    pub event: Event,
}

/// The mathematical content of a [`Settled`].
pub struct SettledView {
    pub target: KeyActionView,
    pub event: EventView,
}

impl View for Settled {
    type V = SettledView;

    open spec fn view(&self) -> SettledView {
        SettledView { target: self.target@, event: self.event@ }
    }
}

/// What is handed out for a process when it settles.
pub open spec fn settled_of(process: ProcessView) -> SettledView {
    SettledView { target: process.target, event: process.representative }
}

// ---------------------------------------------------------------------------
// Facts about the model
// ---------------------------------------------------------------------------

/// Among processes with distinct keys, a key leads to its process.
pub proof fn lemma_by_key_at(processes: Seq<ProcessView>, i: int)
    requires
        distinct_keys(processes),
        0 <= i < processes.len(),
    ensures
        by_key(processes).contains_key(processes[i].key()),
        by_key(processes)[processes[i].key()] == processes[i],
{
    let key = processes[i].key();
    assert(has_key(processes, key));
    let chosen = choose|j: int| 0 <= j < processes.len() && (#[trigger] processes[j]).key() == key;
    assert(chosen == i);
}

/// Replacing a process by one of the same key replaces it under its key.
proof fn lemma_by_key_update(processes: Seq<ProcessView>, i: int, process: ProcessView)
    requires
        distinct_keys(processes),
        0 <= i < processes.len(),
        process.key() == processes[i].key(),
    ensures
        distinct_keys(processes.update(i, process)),
        by_key(processes.update(i, process)) == by_key(processes).insert(process.key(), process),
{
    let after = processes.update(i, process);
    assert(distinct_keys(after)) by {
        assert forall|a: int, b: int|
            0 <= a < after.len() && 0 <= b < after.len() && a != b implies (#[trigger] after[a]).key() != (
        #[trigger] after[b]).key() by {
            assert(after[a].key() == processes[a].key());
            assert(after[b].key() == processes[b].key());
        }
    }
    let left = by_key(after);
    let right = by_key(processes).insert(process.key(), process);
    assert forall|key: ActionKeyView| left.contains_key(key) == right.contains_key(key) by {
        if has_key(after, key) {
            let j = choose|j: int| 0 <= j < after.len() && (#[trigger] after[j]).key() == key;
            assert(processes[j].key() == key);
        }
        if has_key(processes, key) {
            let j = choose|j: int| 0 <= j < processes.len() && (#[trigger] processes[j]).key() == key;
            assert(after[j].key() == key);
        }
        if key == process.key() {
            assert(after[i].key() == key);
        }
    }
    assert forall|key: ActionKeyView| left.contains_key(key) implies left[key] == right[key] by {
        let j = choose|j: int| 0 <= j < after.len() && (#[trigger] after[j]).key() == key;
        lemma_by_key_at(after, j);
        if j == i {
        } else {
            assert(processes[j].key() == key);
            lemma_by_key_at(processes, j);
        }
    }
    assert(left =~= right);
}

/// Adding a process whose key is new adds it under its key.
proof fn lemma_by_key_push(processes: Seq<ProcessView>, process: ProcessView)
    requires
        distinct_keys(processes),
        !has_key(processes, process.key()),
    ensures
        distinct_keys(processes.push(process)),
        by_key(processes.push(process)) == by_key(processes).insert(process.key(), process),
{
    let after = processes.push(process);
    let n = processes.len() as int;
    assert(distinct_keys(after)) by {
        assert forall|a: int, b: int|
            0 <= a < after.len() && 0 <= b < after.len() && a != b implies (#[trigger] after[a]).key() != (
        #[trigger] after[b]).key() by {
            if a < n {
                assert(after[a] == processes[a]);
            }
            if b < n {
                assert(after[b] == processes[b]);
            }
        }
    }
    let left = by_key(after);
    let right = by_key(processes).insert(process.key(), process);
    assert forall|key: ActionKeyView| left.contains_key(key) == right.contains_key(key) by {
        if has_key(after, key) {
            let j = choose|j: int| 0 <= j < after.len() && (#[trigger] after[j]).key() == key;
            if j < n {
                assert(processes[j].key() == key);
            }
        }
        if has_key(processes, key) {
            let j = choose|j: int| 0 <= j < processes.len() && (#[trigger] processes[j]).key() == key;
            assert(after[j].key() == key);
        }
        if key == process.key() {
            assert(after[n].key() == key);
        }
    }
    assert forall|key: ActionKeyView| left.contains_key(key) implies left[key] == right[key] by {
        let j = choose|j: int| 0 <= j < after.len() && (#[trigger] after[j]).key() == key;
        lemma_by_key_at(after, j);
        if j < n {
            assert(processes[j].key() == key);
            lemma_by_key_at(processes, j);
        }
    }
    assert(left =~= right);
}

/// Taking the last process away takes its key away.
proof fn lemma_by_key_drop_last(processes: Seq<ProcessView>)
    requires
        distinct_keys(processes),
        processes.len() > 0,
    ensures
        distinct_keys(processes.drop_last()),
        !has_key(processes.drop_last(), processes.last().key()),
        by_key(processes.drop_last()) == by_key(processes).remove(processes.last().key()),
{
    let before = processes.drop_last();
    let n = before.len() as int;
    assert(distinct_keys(before)) by {
        assert forall|a: int, b: int|
            0 <= a < before.len() && 0 <= b < before.len() && a != b implies (#[trigger] before[a]).key() != (
        #[trigger] before[b]).key() by {
            assert(before[a] == processes[a]);
            assert(before[b] == processes[b]);
        }
    }
    if has_key(before, processes.last().key()) {
        let j = choose|j: int| 0 <= j < before.len() && (#[trigger] before[j]).key() == processes.last().key();
        assert(before[j] == processes[j]);
        assert(processes[n] == processes.last());
    }
    let left = by_key(before);
    let right = by_key(processes).remove(processes.last().key());
    assert forall|key: ActionKeyView| left.contains_key(key) == right.contains_key(key) by {
        if has_key(before, key) {
            let j = choose|j: int| 0 <= j < before.len() && (#[trigger] before[j]).key() == key;
            assert(processes[j] == before[j]);
            assert(processes[j].key() == key);
        }
        if has_key(processes, key) && key != processes.last().key() {
            let j = choose|j: int| 0 <= j < processes.len() && (#[trigger] processes[j]).key() == key;
            assert(j < n);
            assert(before[j].key() == key);
        }
    }
    assert forall|key: ActionKeyView| left.contains_key(key) implies left[key] == right[key] by {
        let j = choose|j: int| 0 <= j < before.len() && (#[trigger] before[j]).key() == key;
        lemma_by_key_at(before, j);
        assert(processes[j] == before[j]);
        lemma_by_key_at(processes, j);
    }
    assert(left =~= right);
}

/// The contents of a list of settled targets.
pub open spec fn settled_views(due: Seq<Settled>) -> Seq<SettledView> {
    due.map_values(|s: Settled| s@)
}

/// Whether `due` is what a tick at `now` hands out of the running
/// processes: one entry for each process whose burst has settled, none for
/// any other, none twice, and each entry the target and the representative
/// of its process.
pub open spec fn handed_out(
    due: Seq<SettledView>,
    running: Map<ActionKeyView, ProcessView>,
    now: u64,
    quiet: u64,
) -> bool {
    &&& forall|i: int|
        0 <= i < due.len() ==> {
            let key = (#[trigger] due[i]).target.key();
            &&& running.contains_key(key)
            &&& running[key].is_due(now, quiet)
            &&& due[i] == settled_of(running[key])
        }
    &&& forall|key: ActionKeyView|
        running.contains_key(key) && running[key].is_due(now, quiet) ==> exists|i: int|
            0 <= i < due.len() && (#[trigger] due[i]).target.key() == key
    &&& forall|i: int, j: int|
        0 <= i < due.len() && 0 <= j < due.len() && i != j ==> (#[trigger] due[i]).target.key() != (
        #[trigger] due[j]).target.key()
}

/// Whether the processes in `taken` are processes of `all` from position
/// `from` on, the one at `i` being the one at `src[i]`, each taken from
/// further to the front than the one before it.
spec fn drawn_from(taken: Seq<ProcessView>, src: Seq<int>, all: Seq<ProcessView>, from: int) -> bool {
    &&& src.len() == taken.len()
    &&& forall|i: int|
        0 <= i < taken.len() ==> from <= #[trigger] src[i] < all.len() && all[src[i]] == taken[i]
    &&& forall|i: int, j: int| 0 <= i < j < taken.len() ==> #[trigger] src[i] > #[trigger] src[j]
}

/// Whether every process of `all` from position `from` on has been sorted to
/// its place: a process that is due stands in `due` at the position that
/// `dest` gives, and one that is not stands in `kept` there.
spec fn sorted_out(
    dest: Seq<int>,
    kept: Seq<ProcessView>,
    due: Seq<ProcessView>,
    all: Seq<ProcessView>,
    from: int,
    now: u64,
    quiet: u64,
) -> bool {
    &&& dest.len() == all.len()
    &&& forall|j: int|
        from <= j < all.len() ==> if all[j].is_due(now, quiet) {
            0 <= #[trigger] dest[j] < due.len() && due[dest[j]] == all[j]
        } else {
            0 <= dest[j] < kept.len() && kept[dest[j]] == all[j]
        }
}

/// A process taken from one place further to the front joins those drawn.
proof fn lemma_drawn_push(taken: Seq<ProcessView>, src: Seq<int>, all: Seq<ProcessView>, r: int)
    requires
        drawn_from(taken, src, all, r + 1),
        0 <= r < all.len(),
    ensures
        drawn_from(taken.push(all[r]), src.push(r), all, r),
{
    let taken2 = taken.push(all[r]);
    let src2 = src.push(r);
    assert forall|i: int| 0 <= i < taken2.len() implies r <= #[trigger] src2[i] < all.len() && all[src2[i]]
        == taken2[i] by {
        if i < taken.len() {
            assert(src2[i] == src[i]);
        }
    }
    assert forall|i: int, j: int| 0 <= i < j < taken2.len() implies #[trigger] src2[i] > #[trigger] src2[j] by {
        assert(src2[i] == src[i]);
        if j < taken.len() {
            assert(src2[j] == src[j]);
        }
    }
}

/// What is drawn from a position on is drawn from the position before it on.
proof fn lemma_drawn_weaken(taken: Seq<ProcessView>, src: Seq<int>, all: Seq<ProcessView>, from: int)
    requires
        drawn_from(taken, src, all, from),
    ensures
        drawn_from(taken, src, all, from - 1),
{
}

/// Processes drawn from processes with distinct keys have distinct keys.
proof fn lemma_drawn_distinct(taken: Seq<ProcessView>, src: Seq<int>, all: Seq<ProcessView>)
    requires
        drawn_from(taken, src, all, 0),
        distinct_keys(all),
    ensures
        distinct_keys(taken),
{
    assert forall|a: int, b: int|
        0 <= a < taken.len() && 0 <= b < taken.len() && a != b implies (#[trigger] taken[a]).key() != (
    #[trigger] taken[b]).key() by {
        if a < b {
            assert(src[a] > src[b]);
        } else {
            assert(src[b] > src[a]);
        }
        assert(all[src[a]] == taken[a]);
        assert(all[src[b]] == taken[b]);
    }
}

/// A process that is due is sorted out by handing it out.
proof fn lemma_sorted_out_due(
    dest: Seq<int>,
    kept: Seq<ProcessView>,
    due: Seq<ProcessView>,
    all: Seq<ProcessView>,
    r: int,
    now: u64,
    quiet: u64,
)
    requires
        sorted_out(dest, kept, due, all, r + 1, now, quiet),
        0 <= r < all.len(),
        all[r].is_due(now, quiet),
    ensures
        sorted_out(dest.update(r, due.len() as int), kept, due.push(all[r]), all, r, now, quiet),
{
    let dest2 = dest.update(r, due.len() as int);
    let due2 = due.push(all[r]);
    assert forall|j: int| r <= j < all.len() implies if all[j].is_due(now, quiet) {
        0 <= #[trigger] dest2[j] < due2.len() && due2[dest2[j]] == all[j]
    } else {
        0 <= dest2[j] < kept.len() && kept[dest2[j]] == all[j]
    } by {
        if j > r {
            assert(dest2[j] == dest[j]);
        }
    }
}

/// A process that is not due is sorted out by keeping it.
proof fn lemma_sorted_out_kept(
    dest: Seq<int>,
    kept: Seq<ProcessView>,
    due: Seq<ProcessView>,
    all: Seq<ProcessView>,
    r: int,
    now: u64,
    quiet: u64,
)
    requires
        sorted_out(dest, kept, due, all, r + 1, now, quiet),
        0 <= r < all.len(),
        !all[r].is_due(now, quiet),
    ensures
        sorted_out(dest.update(r, kept.len() as int), kept.push(all[r]), due, all, r, now, quiet),
{
    let dest2 = dest.update(r, kept.len() as int);
    let kept2 = kept.push(all[r]);
    assert forall|j: int| r <= j < all.len() implies if all[j].is_due(now, quiet) {
        0 <= #[trigger] dest2[j] < due.len() && due[dest2[j]] == all[j]
    } else {
        0 <= dest2[j] < kept2.len() && kept2[dest2[j]] == all[j]
    } by {
        if j > r {
            assert(dest2[j] == dest[j]);
        }
    }
}

/// Once every process is sorted out, those kept are those that keep running.
proof fn lemma_sorted_is_still_running(
    dest: Seq<int>,
    kept: Seq<ProcessView>,
    kept_src: Seq<int>,
    due: Seq<ProcessView>,
    all: Seq<ProcessView>,
    now: u64,
    quiet: u64,
)
    requires
        distinct_keys(all),
        distinct_keys(kept),
        drawn_from(kept, kept_src, all, 0),
        sorted_out(dest, kept, due, all, 0, now, quiet),
        forall|i: int| 0 <= i < kept_src.len() ==> !all[#[trigger] kept_src[i]].is_due(now, quiet),
    ensures
        by_key(kept) == still_running(by_key(all), now, quiet),
{
    let left = by_key(kept);
    let right = still_running(by_key(all), now, quiet);
    assert forall|key: ActionKeyView| left.contains_key(key) == right.contains_key(key) by {
        if has_key(kept, key) {
            let i = choose|i: int| 0 <= i < kept.len() && (#[trigger] kept[i]).key() == key;
            assert(all[kept_src[i]] == kept[i]);
            lemma_by_key_at(all, kept_src[i]);
        }
        if right.contains_key(key) {
            let j = choose|j: int| 0 <= j < all.len() && (#[trigger] all[j]).key() == key;
            lemma_by_key_at(all, j);
            assert(kept[dest[j]].key() == key);
        }
    }
    assert forall|key: ActionKeyView| left.contains_key(key) implies left[key] == right[key] by {
        let i = choose|i: int| 0 <= i < kept.len() && (#[trigger] kept[i]).key() == key;
        lemma_by_key_at(kept, i);
        assert(all[kept_src[i]] == kept[i]);
        lemma_by_key_at(all, kept_src[i]);
    }
    assert(left =~= right);
}

/// Once every process is sorted out, those handed out are those that were due.
proof fn lemma_sorted_is_handed_out(
    dest: Seq<int>,
    kept: Seq<ProcessView>,
    due: Seq<ProcessView>,
    due_src: Seq<int>,
    all: Seq<ProcessView>,
    now: u64,
    quiet: u64,
)
    requires
        distinct_keys(all),
        distinct_keys(due),
        drawn_from(due, due_src, all, 0),
        sorted_out(dest, kept, due, all, 0, now, quiet),
        forall|i: int| 0 <= i < due_src.len() ==> all[#[trigger] due_src[i]].is_due(now, quiet),
    ensures
        handed_out(due.map_values(|p: ProcessView| settled_of(p)), by_key(all), now, quiet),
{
    let views = due.map_values(|p: ProcessView| settled_of(p));
    let running = by_key(all);
    assert forall|i: int| 0 <= i < views.len() implies {
        let key = (#[trigger] views[i]).target.key();
        &&& running.contains_key(key)
        &&& running[key].is_due(now, quiet)
        &&& views[i] == settled_of(running[key])
    } by {
        assert(all[due_src[i]] == due[i]);
        lemma_by_key_at(all, due_src[i]);
    }
    assert forall|key: ActionKeyView|
        running.contains_key(key) && running[key].is_due(now, quiet) implies exists|i: int|
        0 <= i < views.len() && (#[trigger] views[i]).target.key() == key by {
        let j = choose|j: int| 0 <= j < all.len() && (#[trigger] all[j]).key() == key;
        lemma_by_key_at(all, j);
        assert(due[dest[j]] == all[j]);
        assert(views[dest[j]].target.key() == key);
    }
    assert forall|i: int, j: int|
        0 <= i < views.len() && 0 <= j < views.len() && i != j implies (#[trigger] views[i]).target.key() != (
    #[trigger] views[j]).target.key() by {
        assert(due[i].key() != due[j].key());
    }
}

// ---------------------------------------------------------------------------
// The dispatcher
// ---------------------------------------------------------------------------

/// One running process: the request that started it and its state.
#[derive(Debug)]
struct DebounceProcess {
    target: KeyAction,
    state: DebounceState,
}

impl DebounceProcess {
    /// What is known of the process while it is pending.
    spec fn model(self) -> ProcessView {
        ProcessView {
            target: self.target@,
            representative: self.state->representative@,
            last_activity: self.state->last_activity,
        }
    }
}

/// The models of a list of processes.
spec fn models(processes: Seq<DebounceProcess>) -> Seq<ProcessView> {
    processes.map_values(|p: DebounceProcess| p.model())
}

/// Whether each of the processes is pending.
spec fn all_pending(processes: Seq<DebounceProcess>) -> bool {
    forall|i: int| 0 <= i < processes.len() ==> (#[trigger] processes[i]).state is Pending
}

/// The debounce processes that are running, by key.
#[derive(Debug)]
pub struct Dispatcher {
    processes: Vec<DebounceProcess>,
    quiet_ms: u64,
}

impl Dispatcher {
    /// The running processes, in no particular order.
    pub closed spec fn processes(&self) -> Seq<ProcessView> {
        models(self.processes@)
    }

    /// The length of the quiet period.
    pub closed spec fn quiet(&self) -> u64 {
        self.quiet_ms
    }

    /// Whether the dispatcher is in order: every process it holds is
    /// pending, and no two have the same key.
    pub closed spec fn wf(&self) -> bool {
        all_pending(self.processes@) && distinct_keys(models(self.processes@))
    }

    /// A dispatcher in order runs at most one process per key.
    pub proof fn lemma_one_process_per_key(&self)
        requires
            self.wf(),
        ensures
            distinct_keys(self.processes()),
    {
    }
}

impl View for Dispatcher {
    type V = Map<ActionKeyView, ProcessView>;

    open spec fn view(&self) -> Map<ActionKeyView, ProcessView> {
        by_key(self.processes())
    }
}

impl Dispatcher {
    /// A dispatcher with no process, for a quiet period of `quiet_ms`.
    pub fn new(quiet_ms: u64) -> (dispatcher: Dispatcher)
        ensures
            dispatcher.wf(),
            dispatcher.quiet() == quiet_ms,
            dispatcher@ == Map::<ActionKeyView, ProcessView>::empty(),
            dispatcher.processes().len() == 0,
    {
        let dispatcher = Dispatcher { processes: Vec::new(), quiet_ms };
        assert(dispatcher@ =~= Map::<ActionKeyView, ProcessView>::empty());
        dispatcher
    }

    /// The number of running processes.
    pub fn len(&self) -> (n: usize)
        ensures
            n == self.processes().len(),
    {
        self.processes.len()
    }

    /// The place of the process of a key, if one runs.
    fn find(&self, key: &ActionKey) -> (found: Option<usize>)
        ensures
            match found {
                Some(i) => i < self.processes.len() && self.processes()[i as int].key() == key@,
                None => !has_key(self.processes(), key@),
            },
    {
        let mut i: usize = 0;
        while i < self.processes.len()
            invariant
                i <= self.processes.len(),
                forall|j: int| 0 <= j < i ==> (#[trigger] self.processes()[j]).key() != key@,
            decreases self.processes.len() - i,
        {
            if self.processes[i].target.has_key(key) {
                return Some(i);
            }
            i += 1;
        }
        None
    }

    /// Whether a process runs for the key.
    pub fn is_running(&self, key: &ActionKey) -> (b: bool)
        ensures
            b == self@.contains_key(key@),
    {
        self.find(key).is_some()
    }

    /// Routes a request that `event` gave rise to at time `now` to the
    /// process of its key, starting the process where none runs.
    pub fn dispatch(&mut self, request: KeyAction, event: &Event, now: u64) -> (outcome: Dispatched)
        requires
            old(self).wf(),
        ensures
            final(self).wf(),
            final(self).quiet() == old(self).quiet(),
            final(self)@ == dispatched(old(self)@, request@, event@, now),
            outcome == (if old(self)@.contains_key(request@.key()) {
                Dispatched::Joined
            } else if triggers_accept(request@.action.triggers, event@.kind) {
                Dispatched::Started
            } else {
                Dispatched::Rejected
            }),
    {
        let key = request.key();
        let ghost before = self.processes();
        match self.find(&key) {
            Some(i) => {
                let process = self.processes.remove(i);
                let ghost old_model = process.model();
                let DebounceProcess { target, state } = process;
                let input = DebounceInput::Request { event: event.clone(), now };
                let (state, _) = state.step(&target.action, input, self.quiet_ms);
                let process = DebounceProcess { target, state };
                proof {
                    assert(process.model() == (ProcessView { last_activity: now, ..old_model }));
                    assert(old_model == before[i as int]);
                }
                let ghost new_model = process.model();
                self.processes.insert(i, process);
                proof {
                    assert(self.processes() =~= before.update(i as int, new_model));
                    lemma_by_key_at(before, i as int);
                    lemma_by_key_update(before, i as int, new_model);
                    assert(all_pending(self.processes@)) by {
                        assert forall|j: int| 0 <= j < self.processes@.len() implies (
                        #[trigger] self.processes@[j]).state is Pending by {
                            if j < i {
                                assert(self.processes@[j] == old(self).processes@[j]);
                            } else if j > i {
                                assert(self.processes@[j] == old(self).processes@[j]);
                            }
                        }
                    }
                }
                Dispatched::Joined
            },
            None => {
                let input = DebounceInput::Request { event: event.clone(), now };
                let (state, _) = DebounceState::Idle.step(&request.action, input, self.quiet_ms);
                if state.is_over() {
                    Dispatched::Rejected
                } else {
                    let process = DebounceProcess { target: request, state };
                    let ghost new_model = process.model();
                    self.processes.push(process);
                    proof {
                        assert(self.processes() =~= before.push(new_model));
                        lemma_by_key_push(before, new_model);
                        assert(all_pending(self.processes@)) by {
                            assert forall|j: int| 0 <= j < self.processes@.len() implies (
                            #[trigger] self.processes@[j]).state is Pending by {
                                if j < before.len() {
                                    assert(self.processes@[j] == old(self).processes@[j]);
                                }
                            }
                        }
                    }
                    Dispatched::Started
                }
            },
        }
    }

    /// Routes every request of a matched event, in order, at time `now`.
    pub fn handle(&mut self, matched: FsEvent, now: u64)
        requires
            old(self).wf(),
        ensures
            final(self).wf(),
            final(self).quiet() == old(self).quiet(),
            final(self)@ == dispatched_all(
                old(self)@,
                requests_view(matched.key_actions@),
                matched.event@,
                now,
            ),
    {
        let FsEvent { key_actions, event } = matched;
        let mut key_actions = key_actions;
        let ghost requests = requests_view(key_actions@);
        let ghost start = self@;
        let n = key_actions.len();
        let mut todo: Vec<KeyAction> = Vec::new();
        // The requests are taken from the back of the list, so the list is
        // turned round first.
        while key_actions.len() > 0
            invariant
                key_actions.len() + todo.len() == n,
                requests.len() == n,
                forall|j: int|
                    0 <= j < key_actions.len() ==> (#[trigger] key_actions[j])@ == requests[j],
                forall|j: int|
                    0 <= j < todo.len() ==> (#[trigger] todo[j])@ == requests[n - 1 - j],
            decreases key_actions.len(),
        {
            let request = key_actions.pop().unwrap();
            todo.push(request);
        }
        let mut done: usize = 0;
        assert(requests.take(0) =~= Seq::empty());
        while todo.len() > 0
            invariant
                self.wf(),
                self.quiet() == old(self).quiet(),
                done + todo.len() == n,
                requests.len() == n,
                forall|j: int|
                    0 <= j < todo.len() ==> (#[trigger] todo[j])@ == requests[n - 1 - j],
                self@ == dispatched_all(start, requests.take(done as int), event@, now),
            decreases todo.len(),
        {
            let request = todo.pop().unwrap();
            proof {
                assert(request@ == requests[done as int]);
                assert(requests.take(done + 1).drop_last() =~= requests.take(done as int));
                assert(requests.take(done + 1).last() == requests[done as int]);
            }
            self.dispatch(request, &event, now);
            done += 1;
        }
        assert(requests.take(n as int) =~= requests);
    }

    /// Tells every process of a tick of the clock at time `now`. The
    /// processes whose burst has settled leave the dispatcher and are handed
    /// out, each once; the others keep running unchanged.
    pub fn tick(&mut self, now: u64) -> (due: Vec<Settled>)
        requires
            old(self).wf(),
        ensures
            final(self).wf(),
            final(self).quiet() == old(self).quiet(),
            final(self)@ == still_running(old(self)@, now, old(self).quiet()),
            handed_out(settled_views(due@), old(self)@, now, old(self).quiet()),
    {
        let ghost before = self.processes();
        let ghost quiet = self.quiet_ms;
        let mut remaining: Vec<DebounceProcess> = Vec::new();
        core::mem::swap(&mut self.processes, &mut remaining);
        let mut due: Vec<Settled> = Vec::new();
        let ghost n = before.len() as int;
        // Where each process kept or handed out stood before, and where each
        // process that stood before went.
        let ghost mut kept_src: Seq<int> = Seq::empty();
        let ghost mut due_src: Seq<int> = Seq::empty();
        let ghost mut handed: Seq<ProcessView> = Seq::empty();
        let ghost mut dest: Seq<int> = Seq::new(before.len(), |j: int| 0);
        while remaining.len() > 0
            invariant
                quiet == self.quiet_ms,
                self.quiet_ms == old(self).quiet_ms,
                before == old(self).processes(),
                n == before.len(),
                remaining.len() <= n,
                all_pending(remaining@),
                models(remaining@) == before.take(remaining.len() as int),
                all_pending(self.processes@),
                drawn_from(self.processes(), kept_src, before, remaining.len() as int),
                drawn_from(handed, due_src, before, remaining.len() as int),
                sorted_out(dest, self.processes(), handed, before, remaining.len() as int, now, quiet),
                forall|i: int| 0 <= i < kept_src.len() ==> !before[#[trigger] kept_src[i]].is_due(now, quiet),
                forall|i: int| 0 <= i < due_src.len() ==> before[#[trigger] due_src[i]].is_due(now, quiet),
                due.len() == handed.len(),
                forall|i: int| 0 <= i < due.len() ==> (#[trigger] due[i])@ == settled_of(handed[i]),
            decreases remaining.len(),
        {
            let ghost r = remaining.len() - 1;
            let ghost kept = self.processes();
            let ghost handed_before = handed;
            let ghost due_before = due@;
            let process = remaining.pop().unwrap();
            proof {
                assert(process.model() == before[r]) by {
                    assert(before.take(r + 1)[r] == before[r]);
                }
                assert(models(remaining@) =~= before.take(r));
            }
            let DebounceProcess { target, state } = process;
            let (state, output) = state.step(&target.action, DebounceInput::Tick { now }, self.quiet_ms);
            match output {
                DebounceOutput::Evaluate { event } => {
                    let settled = Settled { target, event };
                    assert(settled@ == settled_of(before[r]));
                    due.push(settled);
                    proof {
                        lemma_drawn_push(handed, due_src, before, r);
                        lemma_drawn_weaken(kept, kept_src, before, r + 1);
                        lemma_sorted_out_due(dest, kept, handed, before, r, now, quiet);
                        dest = dest.update(r, handed.len() as int);
                        due_src = due_src.push(r);
                        handed = handed.push(before[r]);
                        assert forall|i: int| 0 <= i < due.len() implies (#[trigger] due[i])@
                            == settled_of(handed[i]) by {
                            if i < handed_before.len() {
                                assert(due[i] == due_before[i]);
                            }
                        }
                    }
                },
                _ => {
                    let keep = DebounceProcess { target, state };
                    assert(keep.model() == before[r]);
                    assert(!before[r].is_due(now, quiet));
                    self.processes.push(keep);
                    proof {
                        assert(self.processes() =~= kept.push(before[r]));
                        lemma_drawn_push(kept, kept_src, before, r);
                        lemma_drawn_weaken(handed, due_src, before, r + 1);
                        lemma_sorted_out_kept(dest, kept, handed, before, r, now, quiet);
                        dest = dest.update(r, kept.len() as int);
                        kept_src = kept_src.push(r);
                        assert(all_pending(self.processes@)) by {
                            assert forall|j: int| 0 <= j < self.processes@.len() implies (
                            #[trigger] self.processes@[j]).state is Pending by {
                                if j < kept.len() {
                                }
                            }
                        }
                    }
                },
            }
        }
        proof {
            let after = self.processes();
            lemma_drawn_distinct(after, kept_src, before);
            lemma_drawn_distinct(handed, due_src, before);
            lemma_sorted_is_still_running(dest, after, kept_src, handed, before, now, quiet);
            let views = settled_views(due@);
            assert(views =~= handed.map_values(|p: ProcessView| settled_of(p)));
            lemma_sorted_is_handed_out(dest, after, handed, due_src, before, now, quiet);
        }
        due
    }
}

// ---------------------------------------------------------------------------
// Laws of dispatching
// ---------------------------------------------------------------------------

/// A request touches the process of its own key and no other: whatever runs
/// under another key runs on unchanged, and nothing is started or ended
/// there.
pub proof fn lemma_other_keys_untouched(
    running: Map<ActionKeyView, ProcessView>,
    request: KeyActionView,
    event: EventView,
    now: u64,
    other: ActionKeyView,
)
    requires
        other != request.key(),
    ensures
        dispatched(running, request, event, now).contains_key(other) == running.contains_key(other),
        running.contains_key(other) ==> dispatched(running, request, event, now)[other] == running[other],
{
}

/// Requests for different keys do not interfere: the order in which two of
/// them arrive makes no difference to the processes.
pub proof fn lemma_different_keys_commute(
    running: Map<ActionKeyView, ProcessView>,
    one: KeyActionView,
    one_event: EventView,
    one_now: u64,
    other: KeyActionView,
    other_event: EventView,
    other_now: u64,
)
    requires
        one.key() != other.key(),
    ensures
        dispatched(dispatched(running, one, one_event, one_now), other, other_event, other_now)
            == dispatched(dispatched(running, other, other_event, other_now), one, one_event, one_now),
{
    let left = dispatched(dispatched(running, one, one_event, one_now), other, other_event, other_now);
    let right = dispatched(dispatched(running, other, other_event, other_now), one, one_event, one_now);
    assert(left =~= right);
}

/// The process of a key depends only on the requests for that key: with
/// requests for another key put before it or not, a request leaves the same
/// process under its key.
pub proof fn lemma_process_is_independent(
    running: Map<ActionKeyView, ProcessView>,
    one: KeyActionView,
    one_event: EventView,
    one_now: u64,
    other: KeyActionView,
    other_event: EventView,
    other_now: u64,
)
    requires
        one.key() != other.key(),
    ensures
        ({
            let alone = dispatched(running, one, one_event, one_now);
            let both = dispatched(
                dispatched(running, other, other_event, other_now),
                one,
                one_event,
                one_now,
            );
            &&& both.contains_key(one.key()) == alone.contains_key(one.key())
            &&& alone.contains_key(one.key()) ==> both[one.key()] == alone[one.key()]
        }),
{
}

/// The state of the process of a key: pending where one runs, and idle where
/// none does.
pub open spec fn process_state(running: Map<ActionKeyView, ProcessView>, key: ActionKeyView) -> DebounceStateView {
    if running.contains_key(key) {
        DebounceStateView::Pending {
            representative: running[key].representative,
            last_activity: running[key].last_activity,
        }
    } else {
        DebounceStateView::Idle
    }
}

/// The state that a key is left in by a process in `state`: a process that
/// is over is gone, so its key is idle again.
pub open spec fn retired(state: DebounceStateView) -> DebounceStateView {
    if state is Settled || state is Aborted {
        DebounceStateView::Idle
    } else {
        state
    }
}

/// Dispatching a request is one step of the process of its key: the step
/// that the state machine takes on a request, told the triggers of the
/// request that started the process, or of this request where it starts one.
pub proof fn lemma_dispatch_is_a_step(
    running: Map<ActionKeyView, ProcessView>,
    request: KeyActionView,
    event: EventView,
    now: u64,
    quiet: u64,
)
    ensures
        ({
            let key = request.key();
            let triggers = if running.contains_key(key) {
                running[key].target.action.triggers
            } else {
                request.action.triggers
            };
            process_state(dispatched(running, request, event, now), key) == retired(
                next_state(
                    process_state(running, key),
                    triggers,
                    DebounceInputView::Request { event, now },
                    quiet,
                ),
            )
        }),
{
}

/// A tick is one step of every process: the step that the state machine
/// takes on a tick. The processes that the step settles are those that are
/// handed out.
pub proof fn lemma_tick_is_a_step(
    running: Map<ActionKeyView, ProcessView>,
    key: ActionKeyView,
    triggers: Seq<EventKind>,
    now: u64,
    quiet: u64,
)
    ensures
        process_state(still_running(running, now, quiet), key) == retired(
            next_state(process_state(running, key), triggers, DebounceInputView::Tick { now }, quiet),
        ),
        running.contains_key(key) ==> (running[key].is_due(now, quiet) <==> output_of(
            process_state(running, key),
            triggers,
            DebounceInputView::Tick { now },
            quiet,
        ) == DebounceOutputView::Evaluate { event: running[key].representative }),
{
}

/// A request joins the running process of its key and keeps what the process
/// holds: the representative and the target stay those of the first request.
pub proof fn lemma_joining_keeps_representative(
    running: Map<ActionKeyView, ProcessView>,
    request: KeyActionView,
    event: EventView,
    now: u64,
)
    requires
        running.contains_key(request.key()),
    ensures
        dispatched(running, request, event, now)[request.key()].representative
            == running[request.key()].representative,
        dispatched(running, request, event, now)[request.key()].target == running[request.key()].target,
        dispatched(running, request, event, now)[request.key()].last_activity == now,
        dispatched(running, request, event, now).dom() == running.dom(),
{
    assert(dispatched(running, request, event, now).dom() =~= running.dom());
}

/// A process that has settled is gone, so that a later request for its key
/// starts a fresh one.
pub proof fn lemma_settled_key_is_free(
    running: Map<ActionKeyView, ProcessView>,
    key: ActionKeyView,
    now: u64,
    quiet: u64,
)
    requires
        running.contains_key(key),
        running[key].is_due(now, quiet),
    ensures
        !still_running(running, now, quiet).contains_key(key),
{
}

} // verus!
