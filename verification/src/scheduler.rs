//! When each monitor fires: the start-up stagger and the per-monitor loop.

use crate::config::ResolvedMonitor;
use crate::span::{duration_nanos, from_total_nanos, total_nanos, NANOS_PER_SEC};
use std::time::Duration;
use vstd::prelude::*;

verus! {

/// The interval, in seconds, that stands in for the shortest one when there
/// is no monitor.
pub const FALLBACK_INTERVAL_SECS: u64 = 120;

/// The shortest interval among `monitors` in nanoseconds, or the fallback
/// interval where there is none.
pub open spec fn min_interval_nanos(monitors: Seq<ResolvedMonitor>) -> nat
    decreases monitors.len(),
{
    if monitors.len() == 0 {
        FALLBACK_INTERVAL_SECS as nat * 1_000_000_000
    } else if monitors.len() == 1 {
        duration_nanos(monitors[0].interval)
    } else {
        let head = min_interval_nanos(monitors.drop_last());
        let last = duration_nanos(monitors.last().interval);
        if last < head {
            last
        } else {
            head
        }
    }
}

/// The distance in nanoseconds between the first ticks of neighbouring
/// monitors: the shortest interval shared out among the monitors, and
/// nothing where there are fewer than two.
pub open spec fn stagger_step_nanos(monitors: Seq<ResolvedMonitor>) -> nat {
    if monitors.len() > 1 {
        min_interval_nanos(monitors) / monitors.len()
    } else {
        0
    }
}

/// The one-time delay in nanoseconds before the first tick of the monitor
/// at position `i`.
pub open spec fn stagger_delay_nanos(monitors: Seq<ResolvedMonitor>, i: int) -> nat {
    stagger_step_nanos(monitors) * (i as nat)
}

/// The shortest interval is no longer than any monitor's, and where there
/// is a monitor it is the interval of one of them.
pub proof fn lemma_min_interval_is_minimum(monitors: Seq<ResolvedMonitor>)
    ensures
        forall|i: int|
            0 <= i < monitors.len() ==> min_interval_nanos(monitors) <= duration_nanos(
                #[trigger] monitors[i].interval,
            ),
        monitors.len() > 0 ==> exists|i: int|
            0 <= i < monitors.len() && min_interval_nanos(monitors) == duration_nanos(
                #[trigger] monitors[i].interval,
            ),
    decreases monitors.len(),
{
    if monitors.len() > 1 {
        let head = monitors.drop_last();
        lemma_min_interval_is_minimum(head);
        assert forall|i: int| 0 <= i < monitors.len() implies min_interval_nanos(monitors)
            <= duration_nanos(#[trigger] monitors[i].interval) by {
            if i < head.len() {
                assert(head[i] == monitors[i]);
            }
        }
        let k = choose|k: int|
            0 <= k < head.len() && min_interval_nanos(head) == duration_nanos(
                #[trigger] head[k].interval,
            );
        assert(head[k] == monitors[k]);
        if duration_nanos(monitors.last().interval) < min_interval_nanos(head) {
            assert(min_interval_nanos(monitors) == duration_nanos(
                monitors[monitors.len() - 1].interval,
            ));
        } else {
            assert(min_interval_nanos(monitors) == duration_nanos(monitors[k].interval));
        }
    } else if monitors.len() == 1 {
        assert(min_interval_nanos(monitors) == duration_nanos(monitors[0].interval));
    }
}

/// A single monitor starts at once, and every delay stays within the
/// shortest interval: the first ticks are spread over one shortest period.
pub proof fn lemma_stagger_within_shortest_interval(monitors: Seq<ResolvedMonitor>, i: int)
    requires
        0 <= i < monitors.len(),
    ensures
        monitors.len() == 1 ==> stagger_delay_nanos(monitors, i) == 0,
        stagger_delay_nanos(monitors, i) <= min_interval_nanos(monitors),
        i > 0 && stagger_step_nanos(monitors) > 0 ==> stagger_delay_nanos(monitors, i - 1)
            < stagger_delay_nanos(monitors, i),
{
    let n = monitors.len();
    let m = min_interval_nanos(monitors);
    let step = stagger_step_nanos(monitors);
    if n > 1 {
        assert(step * (i as nat) <= m) by (nonlinear_arith)
            requires
                step == m / n,
                0 <= i < n,
        ;
        if i > 0 && step > 0 {
            assert(step * ((i - 1) as nat) < step * (i as nat)) by (nonlinear_arith)
                requires
                    step > 0,
                    i > 0,
            ;
        }
    } else {
        assert(step * (i as nat) == 0) by (nonlinear_arith)
            requires
                step == 0,
        ;
    }
}

/// The shortest interval of `monitors` in nanoseconds.
fn shortest_interval(monitors: &[ResolvedMonitor]) -> (m: u128)
    ensures
        m as nat == min_interval_nanos(monitors@),
        m / NANOS_PER_SEC <= u64::MAX,
{
    let count = monitors.len();
    if count == 0 {
        return FALLBACK_INTERVAL_SECS as u128 * NANOS_PER_SEC;
    }
    let mut m = total_nanos(&monitors[0].interval);
    assert(monitors@.take(1).len() == 1);
    assert(monitors@.take(1)[0] == monitors@[0]);
    let mut i: usize = 1;
    while i < count
        invariant
            count == monitors@.len(),
            1 <= i <= count,
            m as nat == min_interval_nanos(monitors@.take(i as int)),
            m / NANOS_PER_SEC <= u64::MAX,
        decreases count - i,
    {
        let next = total_nanos(&monitors[i].interval);
        assert(monitors@.take(i as int + 1).drop_last() =~= monitors@.take(i as int));
        assert(monitors@.take(i as int + 1).last() == monitors@[i as int]);
        if next < m {
            m = next;
        }
        i += 1;
    }
    assert(monitors@.take(count as int) =~= monitors@);
    m
}

/// The one-time start-up delay of each monitor, in the order of `monitors`.
pub fn stagger_delays(monitors: &[ResolvedMonitor]) -> (delays: Vec<Duration>)
    ensures
        delays@.len() == monitors@.len(),
        forall|i: int|
            0 <= i < delays@.len() ==> duration_nanos(#[trigger] delays@[i])
                == stagger_delay_nanos(monitors@, i),
{
    let count = monitors.len();
    let min_interval = shortest_interval(monitors);
    let step: u128 = if count > 1 {
        min_interval / (count as u128)
    } else {
        0
    };
    let mut delays: Vec<Duration> = Vec::new();
    let mut i: usize = 0;
    while i < count
        invariant
            count == monitors@.len(),
            i <= count,
            step as nat == stagger_step_nanos(monitors@),
            min_interval as nat == min_interval_nanos(monitors@),
            min_interval / NANOS_PER_SEC <= u64::MAX,
            delays@.len() == i,
            forall|k: int|
                0 <= k < i ==> duration_nanos(#[trigger] delays@[k]) == stagger_delay_nanos(
                    monitors@,
                    k,
                ),
        decreases count - i,
    {
        proof {
            lemma_stagger_within_shortest_interval(monitors@, i as int);
        }
        let delay: u128 = step * (i as u128);
        assert(delay / NANOS_PER_SEC <= min_interval / NANOS_PER_SEC) by (nonlinear_arith)
            requires
                delay <= min_interval,
                NANOS_PER_SEC == 1_000_000_000,
        ;
        delays.push(from_total_nanos(delay));
        i += 1;
    }
    delays
}

/// Where the loop of one monitor stands.
#[derive(Clone, Copy, Debug, PartialEq, Eq, Structural)]
pub enum LoopState {
    /// Spawned; the one-time stagger delay is not over yet.
    Init,
    /// Waiting for the interval timer.
    AwaitingTick,
    /// A probe is in flight.
    Probing,
    /// The result of the probe is being handed to the sinks.
    Sinking,
}

/// What the loop of one monitor is told from outside.
#[derive(Clone, Copy, Debug, PartialEq, Eq, Structural)]
pub enum LoopEvent {
    /// The loop was spawned.
    Started,
    /// The stagger delay is over.
    DelayElapsed,
    /// The interval timer fired.
    Tick,
    /// The probe gave its result.
    ProbeFinished,
    /// The sinks are done; each flag says whether that write succeeded.
    SinkFinished { history_written: bool, status_merged: bool },
}

/// What the loop of one monitor asks to be done next.
#[derive(Clone, Copy, Debug, PartialEq, Eq, Structural)]
pub enum LoopAction {
    /// Nothing: the event does not concern the loop in its state.
    Ignore,
    /// Sleep for the stagger delay, then report `DelayElapsed`.
    Sleep,
    /// Wait for the interval timer, then report `Tick`.
    AwaitTick,
    /// Run one probe, then report `ProbeFinished`.
    Probe,
    /// Hand the result to the sinks, then report `SinkFinished`.
    Sink,
    /// Report the writes that failed to the operator, then wait for the
    /// interval timer and report `Tick`.
    ReportAndAwaitTick { history_failed: bool, status_failed: bool },
}

/// The state that follows `state` on `event`, and what is to be done. A
/// loop with a stagger delay (`has_delay`) sleeps once before its first
/// wait for the timer. An event that does not fit the state changes
/// nothing: a tick during a probe or a sink is dropped, not queued.
pub open spec fn next(state: LoopState, event: LoopEvent, has_delay: bool) -> (
    LoopState,
    LoopAction,
) {
    match (state, event) {
        (LoopState::Init, LoopEvent::Started) => if has_delay {
            (LoopState::Init, LoopAction::Sleep)
        } else {
            (LoopState::AwaitingTick, LoopAction::AwaitTick)
        },
        (LoopState::Init, LoopEvent::DelayElapsed) => (
            LoopState::AwaitingTick,
            LoopAction::AwaitTick,
        ),
        (LoopState::AwaitingTick, LoopEvent::Tick) => (LoopState::Probing, LoopAction::Probe),
        (LoopState::Probing, LoopEvent::ProbeFinished) => (LoopState::Sinking, LoopAction::Sink),
        (LoopState::Sinking, LoopEvent::SinkFinished { history_written, status_merged }) => (
            LoopState::AwaitingTick,
            if history_written && status_merged {
                LoopAction::AwaitTick
            } else {
                LoopAction::ReportAndAwaitTick {
                    history_failed: !history_written,
                    status_failed: !status_merged,
                }
            },
        ),
        _ => (state, LoopAction::Ignore),
    }
}

/// One step of the loop of a monitor.
pub fn step(state: LoopState, event: LoopEvent, has_delay: bool) -> (out: (LoopState, LoopAction))
    ensures
        out == next(state, event, has_delay),
{
    match (state, event) {
        (LoopState::Init, LoopEvent::Started) => {
            if has_delay {
                (LoopState::Init, LoopAction::Sleep)
            } else {
                (LoopState::AwaitingTick, LoopAction::AwaitTick)
            }
        },
        (LoopState::Init, LoopEvent::DelayElapsed) => (
            LoopState::AwaitingTick,
            LoopAction::AwaitTick,
        ),
        (LoopState::AwaitingTick, LoopEvent::Tick) => (LoopState::Probing, LoopAction::Probe),
        (LoopState::Probing, LoopEvent::ProbeFinished) => (LoopState::Sinking, LoopAction::Sink),
        (LoopState::Sinking, LoopEvent::SinkFinished { history_written, status_merged }) => {
            if history_written && status_merged {
                (LoopState::AwaitingTick, LoopAction::AwaitTick)
            } else {
                (
                    LoopState::AwaitingTick,
                    LoopAction::ReportAndAwaitTick {
                        history_failed: !history_written,
                        status_failed: !status_merged,
                    },
                )
            }
        },
        _ => (state, LoopAction::Ignore),
    }
}

/// Whether the loop sleeps before its first wait for the timer.
pub fn needs_stagger(delay: &Duration) -> (has_delay: bool)
    ensures
        has_delay == (duration_nanos(*delay) > 0),
{
    total_nanos(delay) > 0
}

/// The state of a loop that started in `state` after `events`.
pub open spec fn state_after(state: LoopState, events: Seq<LoopEvent>, has_delay: bool) -> LoopState
    decreases events.len(),
{
    if events.len() == 0 {
        state
    } else {
        next(state_after(state, events.drop_last(), has_delay), events.last(), has_delay).0
    }
}

/// A probe is started only on a tick that finds the loop waiting for one,
/// so at most one probe of a monitor is in flight; a tick that comes during
/// a probe or a sink is dropped.
pub proof fn lemma_one_probe_in_flight(state: LoopState, event: LoopEvent, has_delay: bool)
    ensures
        next(state, event, has_delay).1 == LoopAction::Probe <==> state == LoopState::AwaitingTick
            && event == LoopEvent::Tick,
        next(state, event, has_delay).0 == LoopState::Probing ==> state == LoopState::Probing
            || next(state, event, has_delay).1 == LoopAction::Probe,
        (state == LoopState::Probing || state == LoopState::Sinking) && event == LoopEvent::Tick
            ==> next(state, event, has_delay) == (state, LoopAction::Ignore),
{
}

/// The stagger delay applies once: the loop sleeps only when it is started,
/// and once it has left its initial state it never comes back to it.
pub proof fn lemma_stagger_once(state: LoopState, event: LoopEvent, has_delay: bool)
    ensures
        next(state, event, has_delay).1 == LoopAction::Sleep <==> state == LoopState::Init && event
            == LoopEvent::Started && has_delay,
        next(state, event, has_delay).0 == LoopState::Init ==> state == LoopState::Init,
{
}

/// Once a loop has left its initial state, no sequence of events brings it
/// back there.
pub proof fn lemma_init_is_never_reentered(
    state: LoopState,
    events: Seq<LoopEvent>,
    has_delay: bool,
)
    requires
        state != LoopState::Init,
    ensures
        state_after(state, events, has_delay) != LoopState::Init,
    decreases events.len(),
{
    if events.len() > 0 {
        lemma_init_is_never_reentered(state, events.drop_last(), has_delay);
    }
}

/// No state is terminal: in every state some event moves the loop on. And
/// whatever the sinks report, the loop goes back to waiting for the timer:
/// a failed write is reported and does not stop the loop.
pub proof fn lemma_loop_goes_on(state: LoopState, has_delay: bool)
    ensures
        exists|event: LoopEvent| #[trigger] next(state, event, has_delay).1 != LoopAction::Ignore,
        forall|history_written: bool, status_merged: bool|
            (#[trigger] next(
                LoopState::Sinking,
                LoopEvent::SinkFinished { history_written, status_merged },
                has_delay,
            )).0 == LoopState::AwaitingTick,
{
    match state {
        LoopState::Init => {
            assert(next(state, LoopEvent::DelayElapsed, has_delay).1 != LoopAction::Ignore);
        },
        LoopState::AwaitingTick => {
            assert(next(state, LoopEvent::Tick, has_delay).1 != LoopAction::Ignore);
        },
        LoopState::Probing => {
            assert(next(state, LoopEvent::ProbeFinished, has_delay).1 != LoopAction::Ignore);
        },
        LoopState::Sinking => {
            assert(next(
                state,
                LoopEvent::SinkFinished { history_written: true, status_merged: true },
                has_delay,
            ).1 != LoopAction::Ignore);
        },
    }
}

} // verus!
