//! The restart policy: when a child is started again, and when its supervisor gives up.
use vstd::prelude::*;
use crate::actor::{ExitReason, SupervisorError};
use crate::child::{ChildFailureState, ChildSpec};
use crate::child_map::ChildMap;
use crate::time::{Duration, Timestamp};

verus! {

/// One restart in the log of a supervisor.
#[derive(Debug)]
pub struct RestartLog {
    pub child_id: String,
    pub timestamp: Timestamp,
}

/// The contents of one entry in the log.
pub struct RestartEntry {
    pub child_id: Seq<char>,
    pub timestamp: Timestamp,
}

impl View for RestartLog {
    type V = RestartEntry;

    open spec fn view(&self) -> RestartEntry {
        RestartEntry { child_id: self.child_id@, timestamp: self.timestamp }
    }
}

impl Clone for RestartLog {
    fn clone(&self) -> (copy: Self)
        ensures
            copy == *self,
    {
        RestartLog { child_id: self.child_id.clone(), timestamp: self.timestamp }
    }
}

/// The contents of a log.
pub open spec fn log_view(log: Seq<RestartLog>) -> Seq<RestartEntry> {
    log.map_values(|entry: RestartLog| entry@)
}

/// How many restarts a supervisor tolerates.
pub struct RestartLimits {
    /// How many restarts may lie within `max_window`.
    pub max_restarts: usize,
    /// The span over which restarts are counted.
    pub max_window: Duration,
    /// After how long without a restart the count starts anew.
    pub reset_after: Option<Duration>,
}

/// What the options of every supervisor hold.
pub trait CoreSupervisorOptions<Strategy> {
    /// How many restarts the supervisor tolerates.
    spec fn limits(&self) -> RestartLimits;

    /// Which children are started again when one of them fails.
    spec fn chosen_strategy(&self) -> Strategy;

    /// How many restarts may lie within `max_window`.
    fn max_restarts(&self) -> (n: usize)
        ensures
            n == self.limits().max_restarts,
    ;

    /// The span over which restarts are counted.
    fn max_window(&self) -> (window: Duration)
        ensures
            window == self.limits().max_window,
    ;

    /// After how long without a restart the count starts anew.
    fn reset_after(&self) -> (span: Option<Duration>)
        ensures
            span == self.limits().reset_after,
    ;

    /// Which children are started again when one of them fails.
    fn strategy(&self) -> (strategy: Strategy)
        ensures
            strategy == self.chosen_strategy(),
    ;
}

/// Whether at least `span` lies between two points in time.
pub open spec fn quiet_between(
    span: Option<Duration>,
    earlier: Timestamp,
    later: Timestamp,
) -> bool {
    span matches Some(span) && later.nanos_since(earlier) >= span.nanos
}

/// Whether a restart lies within `window` before `now`.
pub open spec fn within_window(window: Duration, now: Timestamp) -> spec_fn(RestartEntry) -> bool {
    |entry: RestartEntry| now.nanos_since(entry.timestamp) <= window.nanos
}

/// The log once a restart has been added to it: without what was there if no restart happened for
/// `reset_after`, and without what lies before the window.
pub open spec fn log_after(
    log: Seq<RestartEntry>,
    limits: RestartLimits,
    entry: RestartEntry,
) -> Seq<RestartEntry> {
    let kept = if log.len() > 0 && quiet_between(
        limits.reset_after,
        log.last().timestamp,
        entry.timestamp,
    ) {
        Seq::<RestartEntry>::empty()
    } else {
        log
    };
    kept.filter(within_window(limits.max_window, entry.timestamp)).push(entry)
}

/// Whether a log holds more restarts than are tolerated.
pub open spec fn too_many(log: Seq<RestartEntry>, limits: RestartLimits) -> bool {
    log.len() > limits.max_restarts
}

/// Adding an element that passes a filter, before or after filtering.
pub proof fn lemma_filter_push<T>(s: Seq<T>, keep: spec_fn(T) -> bool, x: T)
    ensures
        s.push(x).filter(keep) == if keep(x) {
            s.filter(keep).push(x)
        } else {
            s.filter(keep)
        },
{
    reveal(Seq::filter);
    assert(s.push(x).drop_last() =~= s);
}

/// Takes the entries that lie before the window out of the log.
fn drop_old(log: &mut Vec<RestartLog>, window: Duration, now: Timestamp)
    ensures
        log_view(final(log)@) == log_view(old(log)@).filter(within_window(window, now)),
{
    let ghost all = log_view(log@);
    let ghost keep = within_window(window, now);
    let ghost mut done: int = 0;
    let mut i: usize = 0;
    proof {
        assert(all.take(0) =~= Seq::<RestartEntry>::empty());
        reveal(Seq::filter);
        assert(all.skip(0) =~= all);
        assert(all.take(0).filter(keep) =~= Seq::<RestartEntry>::empty());
        assert(log_view(log@) =~= all.take(0).filter(keep) + all.skip(0));
    }
    while i < log.len()
        invariant
            0 <= done <= all.len(),
            keep == within_window(window, now),
            i == all.take(done).filter(keep).len(),
            log_view(log@) == all.take(done).filter(keep) + all.skip(done),
        decreases log@.len() - i,
    {
        let ghost before = log_view(log@);
        let ghost kept = all.take(done).filter(keep);
        proof {
            assert(before.len() == kept.len() + all.skip(done).len());
            assert(before[i as int] == all.skip(done)[0]);
            assert(log_view(log@)[i as int] == log@[i as int]@);
            assert(all.take(done + 1) =~= all.take(done).push(all[done]));
            lemma_filter_push(all.take(done), keep, all[done]);
        }
        if now.duration_since(log[i].timestamp).nanos <= window.nanos {
            i = i + 1;
            proof {
                assert(kept.push(all[done]) + all.skip(done + 1) =~= kept + all.skip(done));
            }
        } else {
            let ghost was = log@;
            log.remove(i);
            proof {
                assert(log_view(log@) =~= log_view(was).remove(i as int));
                assert(log_view(log@) =~= kept + all.skip(done + 1));
            }
        }
        proof {
            done = done + 1;
        }
    }
    proof {
        assert(all.skip(done).len() == 0);
        assert(all.take(done) =~= all);
        assert(log_view(log@) =~= all.filter(keep));
    }
}

/// Adds a restart of `child_id` to the log of a supervisor, and fails if the supervisor has to give
/// up: if more restarts than `max_restarts` lie within `max_window`. The log starts anew if no
/// restart happened for `reset_after`.
pub fn track_restart<Strategy, Options: CoreSupervisorOptions<Strategy>>(
    log: &mut Vec<RestartLog>,
    options: &Options,
    child_id: &str,
    now: Timestamp,
) -> (result: Result<(), SupervisorError>)
    ensures
        log_view(final(log)@) == log_after(
            log_view(old(log)@),
            options.limits(),
            RestartEntry { child_id: child_id@, timestamp: now },
        ),
        result is Err <==> final(log)@.len() > options.limits().max_restarts,
        match result {
            Ok(()) => !too_many(log_view(final(log)@), options.limits()),
            Err(error) => {
                &&& too_many(log_view(final(log)@), options.limits())
                &&& error matches SupervisorError::Meltdown { reason }
                &&& reason@ == "max_restarts exceeded"@
            },
        },
{
    let ghost before = log_view(log@);
    if log.len() > 0 {
        match options.reset_after() {
            Some(span) => {
                let latest = log[log.len() - 1].timestamp;
                assert(before.last() == log@.last()@);
                if now.duration_since(latest).nanos >= span.nanos {
                    log.clear();
                    assert(log_view(log@) =~= Seq::<RestartEntry>::empty());
                }
            },
            None => {},
        }
    }
    drop_old(log, options.max_window(), now);
    let ghost kept = log_view(log@);
    let ghost was = log@;
    log.push(RestartLog { child_id: child_id.to_owned(), timestamp: now });
    assert(log_view(log@) =~= kept.push(RestartEntry { child_id: child_id@, timestamp: now }));
    if log.len() > options.max_restarts() {
        Err(SupervisorError::Meltdown { reason: "max_restarts exceeded".to_owned() })
    } else {
        Ok(())
    }
}

/// The failures of a child once it has failed at `now`. The count starts anew if the child has not
/// failed for `reset_after`.
pub open spec fn failure_after(
    before: Option<ChildFailureState>,
    reset_after: Option<Duration>,
    now: Timestamp,
) -> ChildFailureState {
    let counted = match before {
        Some(state) => if quiet_between(reset_after, state.last_fail_instant, now) {
            0
        } else {
            state.restart_count
        },
        None => 0,
    };
    ChildFailureState {
        restart_count: if counted < usize::MAX {
            (counted + 1) as usize
        } else {
            usize::MAX
        },
        last_fail_instant: now,
    }
}

/// The failures of the child `id`, if any are known.
pub open spec fn failure_of(
    failures: Map<Seq<char>, ChildFailureState>,
    id: Seq<char>,
) -> Option<ChildFailureState> {
    if failures.contains_key(id) {
        Some(failures[id])
    } else {
        None
    }
}

/// Notes that the child `id` has started, at `now`, if nothing is known of it yet.
pub open spec fn failures_after_start(
    failures: Map<Seq<char>, ChildFailureState>,
    id: Seq<char>,
    now: Timestamp,
) -> Map<Seq<char>, ChildFailureState> {
    if failures.contains_key(id) {
        failures
    } else {
        failures.insert(id, ChildFailureState { restart_count: 0, last_fail_instant: now })
    }
}

/// Notes that the child `id` has started, at `now`, if nothing is known of it yet.
pub fn note_start(failures: &mut ChildMap<ChildFailureState>, id: &str, now: Timestamp)
    ensures
        final(failures)@ == failures_after_start(old(failures)@, id@, now),
{
    if !failures.contains_key(id) {
        failures.insert(
            id.to_owned(),
            ChildFailureState { restart_count: 0, last_fail_instant: now },
        );
    }
}

/// Counts a failure of the child that `spec` describes.
pub fn note_failure<S, B>(
    failures: &mut ChildMap<ChildFailureState>,
    spec: &ChildSpec<S, B>,
    now: Timestamp,
) -> (state: ChildFailureState) where
    B: Fn(&str, usize, Timestamp, Option<Duration>) -> Option<Duration>,

    ensures
        state == failure_after(failure_of(old(failures)@, spec.id@), spec.reset_after, now),
        final(failures)@ == old(failures)@.insert(spec.id@, state),
{
    let counted: usize = match failures.get(spec.id.as_str()) {
        Some(state) => {
            let quiet = match spec.reset_after {
                Some(span) => now.duration_since(state.last_fail_instant).nanos >= span.nanos,
                None => false,
            };
            if quiet {
                0
            } else {
                state.restart_count
            }
        },
        None => 0,
    };
    let restart_count: usize = if counted < usize::MAX {
        counted + 1
    } else {
        usize::MAX
    };
    let state = ChildFailureState { restart_count, last_fail_instant: now };
    failures.insert(spec.id.clone(), state);
    state
}

/// Whether `delay` is what the child's backoff function asks for after a failure; none without
/// such a function.
pub open spec fn delay_of<S, B>(
    spec: ChildSpec<S, B>,
    state: ChildFailureState,
    delay: Option<Duration>,
) -> bool where B: Fn(&str, usize, Timestamp, Option<Duration>) -> Option<Duration> {
    match spec.backoff_fn {
        None => delay is None,
        Some(backoff) => exists|id: &str|
            id@ == spec.id@ && #[trigger] call_ensures(
                backoff.function(),
                (id, state.restart_count, state.last_fail_instant, spec.reset_after),
                delay,
            ),
    }
}

/// What becomes of a child that has gone.
#[derive(Clone, Copy, Debug, PartialEq, Eq, Structural)]
pub enum RestartDecision {
    /// It is not started again.
    Leave,
    /// It is started again, after `delay` if there is one.
    Restart { delay: Option<Duration> },
}

/// Whether a decision about a child that has gone, together with what is then known of its
/// failures, follows its restart policy, its failure count and its backoff function.
pub open spec fn decided<S, B>(
    failures: Map<Seq<char>, ChildFailureState>,
    spec: ChildSpec<S, B>,
    abnormal: bool,
    now: Timestamp,
    decision: RestartDecision,
    failures_after: Map<Seq<char>, ChildFailureState>,
) -> bool where B: Fn(&str, usize, Timestamp, Option<Duration>) -> Option<Duration> {
    let state = failure_after(failure_of(failures, spec.id@), spec.reset_after, now);
    match decision {
        RestartDecision::Leave => !spec.restart.applies(abnormal) && failures_after == failures,
        RestartDecision::Restart { delay } => {
            &&& spec.restart.applies(abnormal)
            &&& failures_after == failures.insert(spec.id@, state)
            &&& delay_of(spec, state, delay)
        },
    }
}

/// Decides what becomes of a child that has gone, and counts its failure if it is started again.
pub fn decide_restart<S, B>(
    failures: &mut ChildMap<ChildFailureState>,
    spec: &ChildSpec<S, B>,
    abnormal: bool,
    now: Timestamp,
) -> (decision: RestartDecision) where
    B: Fn(&str, usize, Timestamp, Option<Duration>) -> Option<Duration>,

    ensures
        decided(old(failures)@, *spec, abnormal, now, decision, final(failures)@),
{
    if !spec.restart.should_restart(abnormal) {
        return RestartDecision::Leave;
    }
    let state = note_failure(failures, spec, now);
    let delay = match &spec.backoff_fn {
        Some(backoff) => {
            let id = spec.id.as_str();
            backoff.call(id, state.restart_count, state.last_fail_instant, spec.reset_after)
        },
        None => None,
    };
    RestartDecision::Restart { delay }
}

/// A message that a supervisor is to send itself so that a child is started again.
pub struct RestartRequest<M> {
    /// The message.
    pub msg: M,
    /// How long to wait before it is sent; it is sent at once without a delay.
    pub delay: Option<Duration>,
    /// Why the child has gone.
    pub reason: ExitReason,
}

} // verus!
