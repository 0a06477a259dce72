use std::time::Duration;

use upmon::config::ResolvedMonitor;
use upmon::scheduler::{
    needs_stagger, stagger_delays, step, LoopAction, LoopEvent, LoopState,
};

fn make_monitor(interval_secs: u64) -> ResolvedMonitor {
    ResolvedMonitor {
        project_id: "p".into(),
        site_key: "s".into(),
        url: "http://example.com".into(),
        interval: Duration::from_secs(interval_secs),
        timeout: Duration::from_secs(10),
        expected_status_code: 200,
        http_method: "GET".into(),
        expected_body: None,
    }
}

#[test]
fn single_monitor_zero_delay() {
    let monitors = vec![make_monitor(120)];
    let delays = stagger_delays(&monitors);
    assert_eq!(delays, vec![Duration::ZERO]);
}

#[test]
fn two_monitors_evenly_spaced() {
    let monitors = vec![make_monitor(120), make_monitor(120)];
    let delays = stagger_delays(&monitors);
    assert_eq!(delays, vec![Duration::ZERO, Duration::from_secs(60)]);
}

#[test]
fn three_monitors_uses_min_interval() {
    let monitors = vec![
        make_monitor(300),
        make_monitor(60),
        make_monitor(120),
    ];
    let delays = stagger_delays(&monitors);
    // min_interval = 60s, step = 60/3 = 20s
    assert_eq!(delays, vec![
        Duration::ZERO,
        Duration::from_secs(20),
        Duration::from_secs(40),
    ]);
}

#[test]
fn no_monitors_no_delays() {
    let monitors: Vec<ResolvedMonitor> = vec![];
    assert!(stagger_delays(&monitors).is_empty());
}

#[test]
fn stagger_step_keeps_nanoseconds() {
    // 10 s shared out among 3 monitors: 3.333333333 s each.
    let monitors = vec![make_monitor(10), make_monitor(20), make_monitor(10)];
    let delays = stagger_delays(&monitors);
    assert_eq!(delays, vec![
        Duration::ZERO,
        Duration::new(3, 333_333_333),
        Duration::new(6, 666_666_666),
    ]);
}

#[test]
fn stagger_agrees_with_duration_arithmetic() {
    let monitors = vec![
        make_monitor(97),
        make_monitor(45),
        make_monitor(61),
        make_monitor(1000),
        make_monitor(45),
        make_monitor(46),
        make_monitor(3600),
    ];
    let step = Duration::from_secs(45) / 7;
    let delays = stagger_delays(&monitors);
    assert_eq!(delays.len(), 7);
    for (i, d) in delays.iter().enumerate() {
        assert_eq!(*d, step * i as u32);
        assert!(*d < Duration::from_secs(45));
    }
}

#[test]
fn stagger_with_longest_spans() {
    let monitors = vec![make_monitor(u64::MAX), make_monitor(u64::MAX)];
    let delays = stagger_delays(&monitors);
    assert_eq!(delays, vec![Duration::ZERO, Duration::from_secs(u64::MAX) / 2]);
}

#[test]
fn stagger_with_zero_interval() {
    let monitors = vec![make_monitor(0), make_monitor(60)];
    let delays = stagger_delays(&monitors);
    assert_eq!(delays, vec![Duration::ZERO, Duration::ZERO]);
}

#[test]
fn needs_stagger_only_for_a_positive_delay() {
    assert!(!needs_stagger(&Duration::ZERO));
    assert!(needs_stagger(&Duration::from_nanos(1)));
    assert!(needs_stagger(&Duration::from_secs(20)));
}

#[test]
fn loop_without_delay_goes_round() {
    let mut state = LoopState::Init;
    let (s, a) = step(state, LoopEvent::Started, false);
    assert_eq!((s, a), (LoopState::AwaitingTick, LoopAction::AwaitTick));
    state = s;
    let (s, a) = step(state, LoopEvent::Tick, false);
    assert_eq!((s, a), (LoopState::Probing, LoopAction::Probe));
    state = s;
    let (s, a) = step(state, LoopEvent::ProbeFinished, false);
    assert_eq!((s, a), (LoopState::Sinking, LoopAction::Sink));
    state = s;
    let done = LoopEvent::SinkFinished { history_written: true, status_merged: true };
    let (s, a) = step(state, done, false);
    assert_eq!((s, a), (LoopState::AwaitingTick, LoopAction::AwaitTick));
}

#[test]
fn loop_with_delay_sleeps_once() {
    let (s, a) = step(LoopState::Init, LoopEvent::Started, true);
    assert_eq!((s, a), (LoopState::Init, LoopAction::Sleep));
    let (s, a) = step(s, LoopEvent::DelayElapsed, true);
    assert_eq!((s, a), (LoopState::AwaitingTick, LoopAction::AwaitTick));
    // A second start is of no concern to a loop that runs.
    let (s, a) = step(s, LoopEvent::Started, true);
    assert_eq!((s, a), (LoopState::AwaitingTick, LoopAction::Ignore));
}

#[test]
fn loop_drops_ticks_while_busy() {
    assert_eq!(
        step(LoopState::Probing, LoopEvent::Tick, false),
        (LoopState::Probing, LoopAction::Ignore)
    );
    assert_eq!(
        step(LoopState::Sinking, LoopEvent::Tick, true),
        (LoopState::Sinking, LoopAction::Ignore)
    );
    assert_eq!(
        step(LoopState::Init, LoopEvent::Tick, true),
        (LoopState::Init, LoopAction::Ignore)
    );
}

#[test]
fn loop_reports_failed_writes_and_goes_on() {
    let cases = [(false, true), (true, false), (false, false)];
    for (history_written, status_merged) in cases {
        let event = LoopEvent::SinkFinished { history_written, status_merged };
        assert_eq!(
            step(LoopState::Sinking, event, false),
            (
                LoopState::AwaitingTick,
                LoopAction::ReportAndAwaitTick {
                    history_failed: !history_written,
                    status_failed: !status_merged,
                }
            )
        );
    }
}
