//! The restart policy, the log of restarts, the count of failures and the end of a child.
use ractor_supervisor::restart::{decide_restart, note_failure, note_start, track_restart};
use ractor_supervisor::{
    ChildBackoffFn, ChildFailureState, ChildMap, ChildSpec, ChildStop, CoreSupervisorOptions,
    Duration, DynamicSupervisorOptions, Restart, RestartDecision, RestartLog, SpawnFn,
    SupervisorError, SupervisorOptions, SupervisorStrategy, Timestamp,
};
use std::sync::Arc;

type Backoff = fn(&str, usize, Timestamp, Option<Duration>) -> Option<Duration>;

fn at(secs: u128) -> Timestamp {
    Timestamp { nanos: secs * 1_000_000_000 }
}

fn limits(max_restarts: usize, window: u64, reset: Option<u64>) -> DynamicSupervisorOptions {
    DynamicSupervisorOptions {
        max_children: None,
        max_restarts,
        max_window: Duration::from_secs(window),
        reset_after: reset.map(Duration::from_secs),
    }
}

fn track(
    log: &mut Vec<RestartLog>,
    options: &DynamicSupervisorOptions,
    secs: u128,
) -> Result<(), SupervisorError> {
    track_restart::<(), DynamicSupervisorOptions>(log, options, "c", at(secs))
}

fn spec(restart: Restart, reset_after: Option<Duration>) -> ChildSpec<(), Backoff> {
    ChildSpec {
        id: "c".to_string(),
        restart,
        spawn_fn: SpawnFn::new(()),
        backoff_fn: None,
        reset_after,
    }
}

#[test]
fn the_restart_after_max_restarts_is_one_too_many() {
    let options = limits(2, 10, None);
    let mut log = Vec::new();
    assert_eq!(track(&mut log, &options, 1), Ok(()));
    assert_eq!(track(&mut log, &options, 2), Ok(()));
    let reason = "max_restarts exceeded".to_string();
    assert_eq!(track(&mut log, &options, 3), Err(SupervisorError::Meltdown { reason }));
    assert_eq!(log.len(), 3);
    assert_eq!(log[2].child_id, "c");
    assert_eq!(log[2].timestamp, at(3));
}

#[test]
fn restarts_before_the_window_do_not_count() {
    let options = limits(1, 10, None);
    let mut log = Vec::new();
    assert!(track(&mut log, &options, 0).is_ok());
    // The first restart lies just within the window.
    assert!(track(&mut log, &options, 10).is_err());
    assert_eq!(log.len(), 2);
    assert!(track(&mut log, &options, 21).is_ok());
    assert_eq!(log.len(), 1);
}

#[test]
fn the_log_starts_anew_after_a_pause() {
    let options = limits(5, 100, Some(4));
    let mut log = Vec::new();
    for secs in [0, 1, 4] {
        assert!(track(&mut log, &options, secs).is_ok());
    }
    assert_eq!(log.len(), 3);
    assert!(track(&mut log, &options, 8).is_ok());
    assert_eq!(log.len(), 1);
    assert_eq!(log[0].timestamp, at(8));
}

#[test]
fn policies_say_who_is_started_again() {
    for (policy, after_normal, after_abnormal) in [
        (Restart::Permanent, true, true),
        (Restart::Transient, false, true),
        (Restart::Temporary, false, false),
    ] {
        for (abnormal, expected) in [(false, after_normal), (true, after_abnormal)] {
            assert_eq!(policy.should_restart(abnormal), expected);
            let mut failures = ChildMap::new();
            let decision = decide_restart(&mut failures, &spec(policy, None), abnormal, at(3));
            if expected {
                assert_eq!(decision, RestartDecision::Restart { delay: None });
                let known = ChildFailureState { restart_count: 1, last_fail_instant: at(3) };
                assert_eq!(failures.get("c"), Some(&known));
            } else {
                assert_eq!(decision, RestartDecision::Leave);
                assert!(failures.is_empty());
            }
        }
    }
}

#[test]
fn failures_in_a_row_are_counted() {
    let spec = spec(Restart::Permanent, Some(Duration::from_secs(5)));
    let mut failures = ChildMap::new();
    note_start(&mut failures, "c", at(0));
    assert_eq!(failures.get("c").unwrap().restart_count, 0);
    assert_eq!(note_failure(&mut failures, &spec, at(4)).restart_count, 1);
    assert_eq!(note_failure(&mut failures, &spec, at(8)).restart_count, 2);
    // A start does not touch what is known.
    note_start(&mut failures, "c", at(9));
    assert_eq!(failures.get("c").unwrap().last_fail_instant, at(8));
    // Five seconds without a failure: the count starts anew.
    assert_eq!(note_failure(&mut failures, &spec, at(13)).restart_count, 1);
}

#[test]
fn a_full_count_stays_full() {
    let mut failures = ChildMap::new();
    failures.insert(
        "c".to_string(),
        ChildFailureState { restart_count: usize::MAX, last_fail_instant: at(1) },
    );
    let state = note_failure(&mut failures, &spec(Restart::Permanent, None), at(2));
    assert_eq!(state.restart_count, usize::MAX);
}

fn doubling(
    id: &str,
    count: usize,
    last: Timestamp,
    reset_after: Option<Duration>,
) -> Option<Duration> {
    assert_eq!(id, "c");
    assert_eq!(last, at(count as u128));
    assert_eq!(reset_after, Some(Duration::from_secs(60)));
    if count <= 1 {
        None
    } else {
        Some(Duration::from_secs(1 << count))
    }
}

#[test]
fn the_backoff_function_sets_the_delay() {
    let mut spec = spec(Restart::Transient, Some(Duration::from_secs(60)));
    spec.backoff_fn = Some(ChildBackoffFn::new(doubling));
    let spec = spec.clone();
    let mut failures = ChildMap::new();
    let delays: Vec<RestartDecision> =
        (1..4).map(|secs| decide_restart(&mut failures, &spec, true, at(secs))).collect();
    assert_eq!(
        delays,
        vec![
            RestartDecision::Restart { delay: None },
            RestartDecision::Restart { delay: Some(Duration::from_secs(4)) },
            RestartDecision::Restart { delay: Some(Duration::from_secs(8)) },
        ]
    );
}

#[test]
fn a_copied_spec_shares_its_functions() {
    let spec = spec(Restart::Permanent, None);
    assert_eq!(Arc::strong_count(&spec.spawn_fn.f), 1);
    let copy = spec.clone();
    assert_eq!(Arc::strong_count(&spec.spawn_fn.f), 2);
    assert!(Arc::ptr_eq(&spec.spawn_fn.f, &copy.spawn_fn.f));
    assert_eq!(copy.id, "c");
    assert_eq!(copy.restart, Restart::Permanent);
}

#[test]
fn options_give_what_they_hold() {
    let options = SupervisorOptions {
        strategy: SupervisorStrategy::RestForOne,
        max_restarts: 3,
        max_window: Duration::from_secs(7),
        reset_after: None,
    };
    assert_eq!(options.max_restarts(), 3);
    assert_eq!(options.max_window(), Duration::from_secs(7));
    assert_eq!(options.reset_after(), None);
    assert_eq!(options.strategy(), SupervisorStrategy::RestForOne);
    let options = limits(4, 9, Some(2));
    assert_eq!(options.max_restarts(), 4);
    assert_eq!(options.max_window(), Duration::from_secs(9));
    assert_eq!(options.reset_after(), Some(Duration::from_secs(2)));
}

#[test]
fn a_child_that_does_not_stop_is_killed() {
    let timeout = Duration::from_millis(500);
    let stop = ChildStop::begin(timeout);
    assert_eq!(stop, ChildStop::Unlink { timeout });
    let stop = stop.advance(true);
    assert_eq!(stop, ChildStop::StopAndWait { timeout });
    assert_eq!(stop.advance(true), ChildStop::Finished);
    assert_eq!(stop.advance(false), ChildStop::Kill);
    assert_eq!(stop.advance(false).advance(true), ChildStop::Finished);
    assert_eq!(ChildStop::Finished.advance(false), ChildStop::Finished);
}

#[test]
fn a_child_map_holds_each_id_once() {
    let mut map: ChildMap<u8> = ChildMap::new();
    assert!(map.is_empty());
    map.insert("a".to_string(), 1);
    map.insert("b".to_string(), 2);
    map.insert("a".to_string(), 3);
    assert_eq!(map.len(), 2);
    assert_eq!(map.get("a"), Some(&3));
    let copy = map.clone();
    assert_eq!(map.remove("a"), Some(3));
    assert_eq!(map.remove("a"), None);
    assert!(!map.contains_key("a"));
    assert_eq!(map.get("b"), Some(&2));
    assert_eq!(copy.len(), 2);
    assert_eq!(copy.get("a"), Some(&3));
}
