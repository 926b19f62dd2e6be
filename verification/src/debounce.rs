//! The debounce process of one key: a state machine that lets a burst of
//! events for one target settle before the target is evaluated.
//!
//! The machine does no waiting itself. It is told of every request for its
//! key and of every tick of a clock, each with the time at which it came, and
//! answers with the next state and with what to do. It starts `Idle`, holds
//! the first event of a burst while `Pending`, and ends `Settled` (the target
//! is to be evaluated, once) or `Aborted` (the first event was not one the
//! action is triggered by).

use crate::actions::{triggers_accept, Action};
use crate::protocol::{Event, EventView};
use notify::EventKind;
use vstd::prelude::*;

verus! {

// ---------------------------------------------------------------------------
// States, inputs, outputs
// ---------------------------------------------------------------------------

/// The state of a debounce process.
#[derive(Debug)]
pub enum DebounceState {
    /// No event has been seen yet.
    Idle,
    /// A burst is under way: `representative` is its first event, and
    /// `last_activity` the time of its latest.
    Pending { representative: Event, last_activity: u64 },
    /// The burst has settled and its evaluation was handed out.
    Settled,
    /// The first event was not accepted by any trigger.
    Aborted,
}

/// The mathematical content of a [`DebounceState`].
pub enum DebounceStateView {
    Idle,
    Pending { representative: EventView, last_activity: u64 },
    Settled,
    Aborted,
}

impl View for DebounceState {
    type V = DebounceStateView;

    open spec fn view(&self) -> DebounceStateView {
        match self {
            DebounceState::Idle => DebounceStateView::Idle,
            DebounceState::Pending { representative, last_activity } => DebounceStateView::Pending {
                representative: representative@,
                last_activity: *last_activity,
            },
            DebounceState::Settled => DebounceStateView::Settled,
            DebounceState::Aborted => DebounceStateView::Aborted,
        }
    }
}

/// What a debounce process is told.
#[derive(Debug)]
pub enum DebounceInput {
    /// A request for the key arrived at time `now`, caused by `event`.
    Request { event: Event, now: u64 },
    /// The clock ticked at time `now`.
    Tick { now: u64 },
}

/// The mathematical content of a [`DebounceInput`].
pub enum DebounceInputView {
    Request { event: EventView, now: u64 },
    Tick { now: u64 },
}

impl View for DebounceInput {
    type V = DebounceInputView;

    open spec fn view(&self) -> DebounceInputView {
        match self {
            DebounceInput::Request { event, now } => DebounceInputView::Request {
                event: event@,
                now: *now,
            },
            DebounceInput::Tick { now } => DebounceInputView::Tick { now: *now },
        }
    }
}

/// What a debounce process asks for in answer.
#[derive(Debug)]
pub enum DebounceOutput {
    /// Keep going: the burst has not settled.
    Wait,
    /// The burst has settled: gather the facts about the target now, and
    /// execute the action for `event`. The process is over.
    Evaluate { event: Event },
    /// The first event is not one for this action. The process is over.
    Abort,
    /// The process was over before.
    Finished,
}

/// The mathematical content of a [`DebounceOutput`].
pub enum DebounceOutputView {
    Wait,
    Evaluate { event: EventView },
    Abort,
    Finished,
}

impl View for DebounceOutput {
    type V = DebounceOutputView;

    open spec fn view(&self) -> DebounceOutputView {
        match self {
            DebounceOutput::Wait => DebounceOutputView::Wait,
            DebounceOutput::Evaluate { event } => DebounceOutputView::Evaluate { event: event@ },
            DebounceOutput::Abort => DebounceOutputView::Abort,
            DebounceOutput::Finished => DebounceOutputView::Finished,
        }
    }
}

// ---------------------------------------------------------------------------
// The transition function
// ---------------------------------------------------------------------------

/// The time that has passed between `last` and `now`; none if the clock ran
/// backwards.
pub open spec fn elapsed(last: u64, now: u64) -> int {
    if now >= last {
        now - last
    } else {
        0
    }
}

/// Whether the quiet period since `last` is over at `now`.
pub open spec fn quiet_elapsed(last: u64, now: u64, quiet: u64) -> bool {
    elapsed(last, now) >= quiet
}

/// The next state of a process whose action has the given triggers.
pub open spec fn next_state(
    state: DebounceStateView,
    triggers: Seq<EventKind>,
    input: DebounceInputView,
    quiet: u64,
) -> DebounceStateView {
    match (state, input) {
        (DebounceStateView::Idle, DebounceInputView::Request { event, now }) => {
            if triggers_accept(triggers, event.kind) {
                DebounceStateView::Pending { representative: event, last_activity: now }
            } else {
                DebounceStateView::Aborted
            }
        },
        (
            DebounceStateView::Pending { representative, last_activity },
            DebounceInputView::Request { event, now },
        ) => DebounceStateView::Pending { representative, last_activity: now },
        (
            DebounceStateView::Pending { representative, last_activity },
            DebounceInputView::Tick { now },
        ) => {
            if quiet_elapsed(last_activity, now, quiet) {
                DebounceStateView::Settled
            } else {
                state
            }
        },
        _ => state,
    }
}

/// What a process asks for in answer to an input.
pub open spec fn output_of(
    state: DebounceStateView,
    triggers: Seq<EventKind>,
    input: DebounceInputView,
    quiet: u64,
) -> DebounceOutputView {
    match (state, input) {
        (DebounceStateView::Idle, DebounceInputView::Request { event, now }) => {
            if triggers_accept(triggers, event.kind) {
                DebounceOutputView::Wait
            } else {
                DebounceOutputView::Abort
            }
        },
        (DebounceStateView::Idle, DebounceInputView::Tick { now }) => DebounceOutputView::Wait,
        (DebounceStateView::Pending { .. }, DebounceInputView::Request { .. }) => {
            DebounceOutputView::Wait
        },
        (
            DebounceStateView::Pending { representative, last_activity },
            DebounceInputView::Tick { now },
        ) => {
            if quiet_elapsed(last_activity, now, quiet) {
                DebounceOutputView::Evaluate { event: representative }
            } else {
                DebounceOutputView::Wait
            }
        },
        _ => DebounceOutputView::Finished,
    }
}

/// Whether the quiet period since `last` is over at `now`.
pub fn is_quiet(last: u64, now: u64, quiet_ms: u64) -> (b: bool)
    ensures
        b == quiet_elapsed(last, now, quiet_ms),
{
    if now >= last {
        now - last >= quiet_ms
    } else {
        quiet_ms == 0
    }
}

impl DebounceState {
    /// Whether the process is over.
    pub open spec fn is_terminal(self) -> bool {
        self is Settled || self is Aborted
    }

    /// Whether the process is over.
    pub fn is_over(&self) -> (b: bool)
        ensures
            b == self.is_terminal(),
    {
        match self {
            DebounceState::Settled => true,
            DebounceState::Aborted => true,
            _ => false,
        }
    }

    /// Takes one input: the next state of the process for `action`, and what
    /// is to be done now. `quiet_ms` is the length of the quiet period.
    pub fn step(self, action: &Action, input: DebounceInput, quiet_ms: u64) -> (next: (
        DebounceState,
        DebounceOutput,
    ))
        ensures
            next.0@ == next_state(self@, action@.triggers, input@, quiet_ms),
            next.1@ == output_of(self@, action@.triggers, input@, quiet_ms),
    {
        match self {
            DebounceState::Idle => match input {
                DebounceInput::Request { event, now } => {
                    if action.check(&event.kind) {
                        (
                            DebounceState::Pending { representative: event, last_activity: now },
                            DebounceOutput::Wait,
                        )
                    } else {
                        (DebounceState::Aborted, DebounceOutput::Abort)
                    }
                },
                DebounceInput::Tick { now } => (DebounceState::Idle, DebounceOutput::Wait),
            },
            DebounceState::Pending { representative, last_activity } => match input {
                DebounceInput::Request { event, now } => (
                    DebounceState::Pending { representative, last_activity: now },
                    DebounceOutput::Wait,
                ),
                DebounceInput::Tick { now } => {
                    if is_quiet(last_activity, now, quiet_ms) {
                        (DebounceState::Settled, DebounceOutput::Evaluate { event: representative })
                    } else {
                        (
                            DebounceState::Pending { representative, last_activity },
                            DebounceOutput::Wait,
                        )
                    }
                },
            },
            DebounceState::Settled => (DebounceState::Settled, DebounceOutput::Finished),
            DebounceState::Aborted => (DebounceState::Aborted, DebounceOutput::Finished),
        }
    }
}

// ---------------------------------------------------------------------------
// Runs
// ---------------------------------------------------------------------------

/// The state of a process after a sequence of inputs.
pub open spec fn run(
    state: DebounceStateView,
    triggers: Seq<EventKind>,
    inputs: Seq<DebounceInputView>,
    quiet: u64,
) -> DebounceStateView
    decreases inputs.len(),
{
    if inputs.len() == 0 {
        state
    } else {
        next_state(run(state, triggers, inputs.drop_last(), quiet), triggers, inputs.last(), quiet)
    }
}

/// The answers of a process to a sequence of inputs, one for each.
pub open spec fn outputs(
    state: DebounceStateView,
    triggers: Seq<EventKind>,
    inputs: Seq<DebounceInputView>,
    quiet: u64,
) -> Seq<DebounceOutputView>
    decreases inputs.len(),
{
    if inputs.len() == 0 {
        Seq::empty()
    } else {
        outputs(state, triggers, inputs.drop_last(), quiet).push(
            output_of(
                run(state, triggers, inputs.drop_last(), quiet),
                triggers,
                inputs.last(),
                quiet,
            ),
        )
    }
}

/// The time of an input.
pub open spec fn time_of(input: DebounceInputView) -> u64 {
    match input {
        DebounceInputView::Request { event, now } => now,
        DebounceInputView::Tick { now } => now,
    }
}

/// The time of the latest request among the inputs; zero where there is none.
pub open spec fn last_request_time(inputs: Seq<DebounceInputView>) -> u64
    decreases inputs.len(),
{
    if inputs.len() == 0 {
        0
    } else if inputs.last() is Request {
        time_of(inputs.last())
    } else {
        last_request_time(inputs.drop_last())
    }
}

/// Whether the inputs are one burst: they begin with a request, and each
/// later one comes before the quiet period since the request before it is
/// over.
pub open spec fn is_burst(inputs: Seq<DebounceInputView>, quiet: u64) -> bool {
    &&& inputs.len() > 0
    &&& inputs[0] is Request
    &&& forall|i: int|
        0 < i < inputs.len() ==> !quiet_elapsed(
            last_request_time(inputs.take(i)),
            time_of(#[trigger] inputs[i]),
            quiet,
        )
}

/// Whether every input is a tick.
pub open spec fn all_ticks(inputs: Seq<DebounceInputView>) -> bool {
    forall|i: int| 0 <= i < inputs.len() ==> #[trigger] inputs[i] is Tick
}

/// Whether the tick at position `k` is the first to come when the quiet
/// period since `last` is over.
pub open spec fn first_quiet_tick(
    ticks: Seq<DebounceInputView>,
    k: int,
    last: u64,
    quiet: u64,
) -> bool {
    &&& 0 <= k < ticks.len()
    &&& quiet_elapsed(last, time_of(ticks[k]), quiet)
    &&& forall|j: int| 0 <= j < k ==> !quiet_elapsed(last, time_of(#[trigger] ticks[j]), quiet)
}

/// Whether exactly one of the answers asks for an evaluation, the one at
/// position `k`, and it is an evaluation for `event`.
pub open spec fn evaluated_once_at(outs: Seq<DebounceOutputView>, k: int, event: EventView) -> bool {
    &&& 0 <= k < outs.len()
    &&& outs[k] == (DebounceOutputView::Evaluate { event })
    &&& forall|j: int| 0 <= j < outs.len() && j != k ==> !(#[trigger] outs[j] is Evaluate)
}

/// Whether none of the answers asks for an evaluation.
pub open spec fn never_evaluated(outs: Seq<DebounceOutputView>) -> bool {
    forall|j: int| 0 <= j < outs.len() ==> !(#[trigger] outs[j] is Evaluate)
}

// ---------------------------------------------------------------------------
// Laws of the machine
// ---------------------------------------------------------------------------

/// Running two sequences of inputs one after the other is running their
/// concatenation.
pub proof fn lemma_run_concat(
    state: DebounceStateView,
    triggers: Seq<EventKind>,
    first: Seq<DebounceInputView>,
    second: Seq<DebounceInputView>,
    quiet: u64,
)
    ensures
        run(state, triggers, first + second, quiet) == run(
            run(state, triggers, first, quiet),
            triggers,
            second,
            quiet,
        ),
        outputs(state, triggers, first + second, quiet) == outputs(state, triggers, first, quiet)
            + outputs(run(state, triggers, first, quiet), triggers, second, quiet),
    decreases second.len(),
{
    if second.len() == 0 {
        assert(first + second =~= first);
        assert(outputs(state, triggers, first, quiet) + Seq::<DebounceOutputView>::empty()
            =~= outputs(state, triggers, first, quiet));
    } else {
        lemma_run_concat(state, triggers, first, second.drop_last(), quiet);
        assert((first + second).drop_last() =~= first + second.drop_last());
        assert((first + second).last() == second.last());
        let mid = run(state, triggers, first, quiet);
        assert(outputs(state, triggers, first + second, quiet) =~= outputs(
            state,
            triggers,
            first,
            quiet,
        ) + outputs(mid, triggers, second, quiet));
    }
}

/// There is one answer for each input.
pub proof fn lemma_outputs_len(
    state: DebounceStateView,
    triggers: Seq<EventKind>,
    inputs: Seq<DebounceInputView>,
    quiet: u64,
)
    ensures
        outputs(state, triggers, inputs, quiet).len() == inputs.len(),
    decreases inputs.len(),
{
    if inputs.len() > 0 {
        lemma_outputs_len(state, triggers, inputs.drop_last(), quiet);
    }
}

/// A process that is over stays over and never asks for an evaluation again.
pub proof fn lemma_terminal_is_final(
    state: DebounceStateView,
    triggers: Seq<EventKind>,
    inputs: Seq<DebounceInputView>,
    quiet: u64,
)
    requires
        state is Settled || state is Aborted,
    ensures
        run(state, triggers, inputs, quiet) == state,
        never_evaluated(outputs(state, triggers, inputs, quiet)),
    decreases inputs.len(),
{
    if inputs.len() > 0 {
        lemma_terminal_is_final(state, triggers, inputs.drop_last(), quiet);
    }
}

/// While a burst lasts nothing is evaluated: the process is pending, holds
/// the first event of the burst as its representative whatever came later,
/// and counts the quiet period from the latest request.
pub proof fn lemma_burst_stays_pending(
    triggers: Seq<EventKind>,
    burst: Seq<DebounceInputView>,
    quiet: u64,
)
    requires
        is_burst(burst, quiet),
        triggers_accept(triggers, burst[0]->Request_event.kind),
    ensures
        run(DebounceStateView::Idle, triggers, burst, quiet) == (DebounceStateView::Pending {
            representative: burst[0]->Request_event,
            last_activity: last_request_time(burst),
        }),
        never_evaluated(outputs(DebounceStateView::Idle, triggers, burst, quiet)),
    decreases burst.len(),
{
    let idle = DebounceStateView::Idle;
    if burst.len() == 1 {
        assert(burst.drop_last() =~= Seq::empty());
        assert(run(idle, triggers, burst.drop_last(), quiet) == idle);
        assert(outputs(idle, triggers, burst.drop_last(), quiet) =~= Seq::empty());
        assert(burst.last() == burst[0]);
    } else {
        let shorter = burst.drop_last();
        assert(is_burst(shorter, quiet)) by {
            assert(shorter[0] == burst[0]);
            assert forall|i: int| 0 < i < shorter.len() implies !quiet_elapsed(
                last_request_time(shorter.take(i)),
                time_of(#[trigger] shorter[i]),
                quiet,
            ) by {
                assert(shorter.take(i) =~= burst.take(i));
                assert(shorter[i] == burst[i]);
            }
        }
        assert(shorter[0] == burst[0]);
        lemma_burst_stays_pending(triggers, shorter, quiet);
        let n = burst.len() - 1;
        assert(burst.take(n) =~= shorter);
        assert(burst.last() == burst[n]);
        assert(!quiet_elapsed(last_request_time(shorter), time_of(burst[n]), quiet));
    }
}

/// Once a burst is over, the ticks that follow evaluate it at most once: at
/// the first tick that finds the quiet period over, and for the
/// representative. Ticks before that one wait, and so do all of them where
/// none finds the quiet period over.
pub proof fn lemma_ticks_settle_once(
    representative: EventView,
    last: u64,
    triggers: Seq<EventKind>,
    ticks: Seq<DebounceInputView>,
    quiet: u64,
)
    requires
        all_ticks(ticks),
    ensures
        ({
            let pending = DebounceStateView::Pending { representative, last_activity: last };
            let end = run(pending, triggers, ticks, quiet);
            let outs = outputs(pending, triggers, ticks, quiet);
            &&& outs.len() == ticks.len()
            &&& (forall|k: int| #[trigger] first_quiet_tick(ticks, k, last, quiet) ==> end is Settled
                && evaluated_once_at(outs, k, representative))
            &&& (forall|k: int| 0 <= k < ticks.len() ==> !quiet_elapsed(last, time_of(#[trigger] ticks[k]), quiet))
                ==> end == pending && never_evaluated(outs)
        }),
    decreases ticks.len(),
{
    let pending = DebounceStateView::Pending { representative, last_activity: last };
    let outs = outputs(pending, triggers, ticks, quiet);
    lemma_outputs_len(pending, triggers, ticks, quiet);
    if ticks.len() > 0 {
        let shorter = ticks.drop_last();
        let n = ticks.len() - 1;
        assert(all_ticks(shorter)) by {
            assert forall|i: int| 0 <= i < shorter.len() implies #[trigger] shorter[i] is Tick by {
                assert(shorter[i] == ticks[i]);
            }
        }
        lemma_ticks_settle_once(representative, last, triggers, shorter, quiet);
        lemma_outputs_len(pending, triggers, shorter, quiet);
        let mid = run(pending, triggers, shorter, quiet);
        let before = outputs(pending, triggers, shorter, quiet);
        assert(ticks.last() == ticks[n]);
        assert(ticks[n] is Tick);
        assert forall|k: int| #[trigger] first_quiet_tick(ticks, k, last, quiet) implies run(
            pending,
            triggers,
            ticks,
            quiet,
        ) is Settled && evaluated_once_at(outs, k, representative) by {
            if k < n {
                assert(first_quiet_tick(shorter, k, last, quiet)) by {
                    assert(shorter[k] == ticks[k]);
                    assert forall|j: int| 0 <= j < k implies !quiet_elapsed(
                        last,
                        time_of(#[trigger] shorter[j]),
                        quiet,
                    ) by {
                        assert(shorter[j] == ticks[j]);
                    }
                }
                assert(mid is Settled);
                assert(evaluated_once_at(before, k, representative));
                assert forall|j: int| 0 <= j < outs.len() && j != k implies !(
                #[trigger] outs[j] is Evaluate) by {
                    if j < n {
                        assert(outs[j] == before[j]);
                    }
                }
                assert(outs[k] == before[k]);
            } else {
                assert forall|j: int| 0 <= j < shorter.len() implies !quiet_elapsed(
                    last,
                    time_of(#[trigger] shorter[j]),
                    quiet,
                ) by {
                    assert(shorter[j] == ticks[j]);
                }
                assert(mid == pending);
                assert(never_evaluated(before));
                assert forall|j: int| 0 <= j < outs.len() && j != k implies !(
                #[trigger] outs[j] is Evaluate) by {
                    assert(outs[j] == before[j]);
                }
            }
        }
        if forall|k: int| 0 <= k < ticks.len() ==> !quiet_elapsed(last, time_of(#[trigger] ticks[k]), quiet) {
            assert forall|j: int| 0 <= j < shorter.len() implies !quiet_elapsed(
                last,
                time_of(#[trigger] shorter[j]),
                quiet,
            ) by {
                assert(shorter[j] == ticks[j]);
            }
            assert(mid == pending);
            assert(!quiet_elapsed(last, time_of(ticks[n]), quiet));
            assert forall|j: int| 0 <= j < outs.len() implies !(#[trigger] outs[j] is Evaluate) by {
                if j < n {
                    assert(outs[j] == before[j]);
                }
            }
        }
    }
}

/// Whether the inputs come in the order of their times.
pub open spec fn time_ordered(inputs: Seq<DebounceInputView>) -> bool {
    forall|i: int, j: int|
        0 <= i <= j < inputs.len() ==> time_of(#[trigger] inputs[i]) <= time_of(#[trigger] inputs[j])
}

/// Whether the events among the inputs arrive within the quiet period of
/// each other: each request after the first comes before the quiet period
/// since the request before it is over.
pub open spec fn events_close_together(inputs: Seq<DebounceInputView>, quiet: u64) -> bool {
    forall|i: int|
        0 < i < inputs.len() && #[trigger] inputs[i] is Request ==> !quiet_elapsed(
            last_request_time(inputs.take(i)),
            time_of(inputs[i]),
            quiet,
        )
}

/// After any input but the last of a sequence that ends with a request,
/// there is a next request, with nothing but ticks before it.
proof fn lemma_next_request(inputs: Seq<DebounceInputView>, j: int) -> (i: int)
    requires
        0 <= j < inputs.len(),
        inputs.last() is Request,
    ensures
        j <= i < inputs.len(),
        inputs[i] is Request,
        forall|k: int| j <= k < i ==> #[trigger] inputs[k] is Tick,
    decreases inputs.len() - j,
{
    if inputs[j] is Request {
        j
    } else {
        lemma_next_request(inputs, j + 1)
    }
}

/// Ticks do not change which request was the latest.
proof fn lemma_ticks_keep_last_request(inputs: Seq<DebounceInputView>, j: int, i: int)
    requires
        0 <= j <= i <= inputs.len(),
        forall|k: int| j <= k < i ==> #[trigger] inputs[k] is Tick,
    ensures
        last_request_time(inputs.take(i)) == last_request_time(inputs.take(j)),
    decreases i - j,
{
    if j < i {
        lemma_ticks_keep_last_request(inputs, j, i - 1);
        assert(inputs.take(i).drop_last() =~= inputs.take(i - 1));
        assert(inputs.take(i).last() == inputs[i - 1]);
    }
}

/// Events that arrive within the quiet period of each other are one burst,
/// whatever ticks of the clock come between them: a tick between two such
/// events cannot find the quiet period over.
pub proof fn lemma_close_events_form_a_burst(inputs: Seq<DebounceInputView>, quiet: u64)
    requires
        inputs.len() > 0,
        inputs[0] is Request,
        inputs.last() is Request,
        time_ordered(inputs),
        events_close_together(inputs, quiet),
    ensures
        is_burst(inputs, quiet),
{
    assert forall|j: int| 0 < j < inputs.len() implies !quiet_elapsed(
        last_request_time(inputs.take(j)),
        time_of(#[trigger] inputs[j]),
        quiet,
    ) by {
        let i = lemma_next_request(inputs, j);
        lemma_ticks_keep_last_request(inputs, j, i);
        assert(time_of(inputs[j]) <= time_of(inputs[i]));
    }
}

/// A burst of events for one key leads to exactly one evaluation. Whatever
/// the number of events in the burst, as long as each comes before the quiet
/// period since the one before is over, nothing is evaluated during the
/// burst; of the ticks that follow, the first that finds the quiet period
/// over asks for the one evaluation, which is for the first event of the
/// burst; and nothing that comes later is answered with another.
pub proof fn lemma_burst_is_evaluated_once(
    triggers: Seq<EventKind>,
    burst: Seq<DebounceInputView>,
    ticks: Seq<DebounceInputView>,
    k: int,
    later: Seq<DebounceInputView>,
    quiet: u64,
)
    requires
        is_burst(burst, quiet),
        triggers_accept(triggers, burst[0]->Request_event.kind),
        all_ticks(ticks),
        first_quiet_tick(ticks, k, last_request_time(burst), quiet),
    ensures
        run(DebounceStateView::Idle, triggers, burst + ticks + later, quiet) is Settled,
        evaluated_once_at(
            outputs(DebounceStateView::Idle, triggers, burst + ticks + later, quiet),
            burst.len() + k,
            burst[0]->Request_event,
        ),
{
    let idle = DebounceStateView::Idle;
    let representative = burst[0]->Request_event;
    let last = last_request_time(burst);
    let pending = DebounceStateView::Pending { representative, last_activity: last };
    lemma_burst_stays_pending(triggers, burst, quiet);
    lemma_ticks_settle_once(representative, last, triggers, ticks, quiet);
    lemma_run_concat(idle, triggers, burst, ticks, quiet);
    lemma_run_concat(idle, triggers, burst + ticks, later, quiet);
    let settled = run(pending, triggers, ticks, quiet);
    lemma_terminal_is_final(settled, triggers, later, quiet);
    lemma_outputs_len(idle, triggers, burst, quiet);
    lemma_outputs_len(pending, triggers, ticks, quiet);
    lemma_outputs_len(settled, triggers, later, quiet);
    let during = outputs(idle, triggers, burst, quiet);
    let after = outputs(pending, triggers, ticks, quiet);
    let tail = outputs(settled, triggers, later, quiet);
    let outs = outputs(idle, triggers, burst + ticks + later, quiet);
    assert(outs == during + after + tail);
    assert(outs[burst.len() + k] == after[k]);
    assert forall|j: int| 0 <= j < outs.len() && j != burst.len() + k implies !(
    #[trigger] outs[j] is Evaluate) by {
        if j < burst.len() {
            assert(outs[j] == during[j]);
        } else if j < burst.len() + ticks.len() {
            assert(outs[j] == after[j - burst.len()]);
        } else {
            assert(outs[j] == tail[j - burst.len() - ticks.len()]);
        }
    }
}

/// Which event is evaluated does not depend on the events that follow the
/// first: two bursts that begin with the same event have the same
/// representative.
pub proof fn lemma_representative_is_first_event(
    triggers: Seq<EventKind>,
    one: Seq<DebounceInputView>,
    other: Seq<DebounceInputView>,
    quiet: u64,
)
    requires
        is_burst(one, quiet),
        is_burst(other, quiet),
        one[0]->Request_event == other[0]->Request_event,
        triggers_accept(triggers, one[0]->Request_event.kind),
    ensures
        run(DebounceStateView::Idle, triggers, one, quiet)->representative == run(
            DebounceStateView::Idle,
            triggers,
            other,
            quiet,
        )->representative,
{
    lemma_burst_stays_pending(triggers, one, quiet);
    lemma_burst_stays_pending(triggers, other, quiet);
}

/// A first event that no trigger accepts aborts the process at once, and
/// nothing is ever evaluated for it.
pub proof fn lemma_rejected_event_aborts(
    triggers: Seq<EventKind>,
    event: EventView,
    now: u64,
    later: Seq<DebounceInputView>,
    quiet: u64,
)
    requires
        !triggers_accept(triggers, event.kind),
    ensures
        run(
            DebounceStateView::Idle,
            triggers,
            seq![DebounceInputView::Request { event, now }] + later,
            quiet,
        ) is Aborted,
        never_evaluated(
            outputs(
                DebounceStateView::Idle,
                triggers,
                seq![DebounceInputView::Request { event, now }] + later,
                quiet,
            ),
        ),
{
    let idle = DebounceStateView::Idle;
    let first = seq![DebounceInputView::Request { event, now }];
    assert(first.drop_last() =~= Seq::empty());
    assert(first.last() == first[0]);
    assert(run(idle, triggers, first.drop_last(), quiet) == idle);
    assert(outputs(idle, triggers, first.drop_last(), quiet) =~= Seq::empty());
    let aborted = run(idle, triggers, first, quiet);
    assert(aborted is Aborted);
    lemma_run_concat(idle, triggers, first, later, quiet);
    lemma_terminal_is_final(aborted, triggers, later, quiet);
    lemma_outputs_len(idle, triggers, first, quiet);
    let head = outputs(idle, triggers, first, quiet);
    let tail = outputs(aborted, triggers, later, quiet);
    let outs = outputs(idle, triggers, first + later, quiet);
    assert forall|j: int| 0 <= j < outs.len() implies !(#[trigger] outs[j] is Evaluate) by {
        if j < 1 {
            assert(outs[j] == head[j]);
        } else {
            assert(outs[j] == tail[j - 1]);
        }
    }
}

} // verus!
