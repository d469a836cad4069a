use pastelink::gathering::quiescence_run;
use pastelink::gathering::quiescence_step;
use pastelink::supervise::established;
use pastelink::supervise::readiness_step;
use pastelink::supervise::send_step;
use pastelink::supervise::supervise_run;
use pastelink::supervise::supervise_step;
use pastelink::supervise::ConnectionPhase;
use pastelink::supervise::EngineState;
use pastelink::supervise::Obs;
use pastelink::supervise::ReadyDecision;
use pastelink::supervise::SendAction;
use pastelink::supervise::SendPhase;

#[test]
fn quiescence_stops_one_poll_after_stabilizing() {
    // the buffer stops growing after the second poll: the third poll decides
    let (polls, count) = quiescence_run(&vec![2, 5, 5, 9, 9]);
    assert_eq!((polls, count), (3, 5));
}

#[test]
fn quiescence_exhausts_a_growing_buffer() {
    let samples: Vec<usize> = (1..=10).collect();
    let (polls, count) = quiescence_run(&samples);
    assert_eq!((polls, count), (10, 10));
}

#[test]
fn quiescence_never_stops_on_an_empty_buffer() {
    let (polls, count) = quiescence_run(&vec![0, 0, 0]);
    assert_eq!((polls, count), (3, 0));
}

#[test]
fn quiescence_step_requires_nonzero_unchanged() {
    assert!(quiescence_step(5, 5));
    assert!(!quiescence_step(0, 0));
    assert!(!quiescence_step(4, 5));
}

#[test]
fn supervisor_connects() {
    let obs = vec![
        Obs { state: EngineState::New, elapsed_ms: 0 },
        Obs { state: EngineState::Connecting, elapsed_ms: 500 },
        Obs { state: EngineState::Connected, elapsed_ms: 1000 },
        Obs { state: EngineState::Failed, elapsed_ms: 1500 },
    ];
    let phase = supervise_run(&obs, 60_000).unwrap();
    assert_eq!(phase, ConnectionPhase::Connected);
    assert!(established(phase));
}

#[test]
fn supervisor_reports_failure_and_close() {
    let failed = vec![Obs { state: EngineState::Failed, elapsed_ms: 500 }];
    assert_eq!(supervise_run(&failed, 60_000), Some(ConnectionPhase::Failed));
    let closed = vec![Obs { state: EngineState::Closed, elapsed_ms: 500 }];
    assert_eq!(supervise_run(&closed, 60_000), Some(ConnectionPhase::Closed));
    assert!(!established(ConnectionPhase::Failed));
}

#[test]
fn supervisor_times_out_before_any_terminal_state() {
    let obs = vec![
        Obs { state: EngineState::Connecting, elapsed_ms: 500 },
        Obs { state: EngineState::Connecting, elapsed_ms: 60_500 },
    ];
    assert_eq!(supervise_run(&obs, 60_000), Some(ConnectionPhase::TimedOut));
}

#[test]
fn terminal_state_wins_over_timeout_in_the_same_tick() {
    assert_eq!(
        supervise_step(EngineState::Connected, 99_000, 60_000),
        Some(ConnectionPhase::Connected)
    );
    assert_eq!(
        supervise_step(EngineState::Failed, 99_000, 60_000),
        Some(ConnectionPhase::Failed)
    );
}

#[test]
fn supervisor_keeps_polling_without_a_decision() {
    assert_eq!(supervise_step(EngineState::Connecting, 500, 60_000), None);
    let obs = vec![
        Obs { state: EngineState::New, elapsed_ms: 0 },
        Obs { state: EngineState::Connecting, elapsed_ms: 500 },
    ];
    assert_eq!(supervise_run(&obs, 60_000), None);
}

#[test]
fn readiness_open_wins_then_timeout_then_wait() {
    assert_eq!(readiness_step(true, 99_000, 30_000), ReadyDecision::Ready);
    assert_eq!(readiness_step(false, 30_500, 30_000), ReadyDecision::GiveUp);
    assert_eq!(readiness_step(false, 500, 30_000), ReadyDecision::KeepWaiting);
}

#[test]
fn send_retries_exactly_once() {
    assert_eq!(send_step(SendPhase::FirstTry, true), SendAction::Transmit);
    assert_eq!(send_step(SendPhase::FirstTry, false), SendAction::WaitThenRetry);
    assert_eq!(send_step(SendPhase::Retry, true), SendAction::Transmit);
    assert_eq!(send_step(SendPhase::Retry, false), SendAction::GiveUp);
}
