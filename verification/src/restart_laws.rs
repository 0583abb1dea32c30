//! What holds of whole histories of restarts and failures.
use vstd::prelude::*;
use crate::child::{ChildFailureState, ChildSpec, Restart};
use crate::restart;
use crate::restart::{RestartDecision, RestartEntry, RestartLimits};
use crate::time::{Duration, Timestamp};

verus! {

/// The log after a history of restarts, the oldest first, that began with an empty log.
pub open spec fn log_of_history(limits: RestartLimits, history: Seq<RestartEntry>) -> Seq<
    RestartEntry,
>
    decreases history.len(),
{
    if history.len() == 0 {
        Seq::empty()
    } else {
        restart::log_after(log_of_history(limits, history.drop_last()), limits, history.last())
    }
}

/// A log that every restart of a history was added to, one after the other, is the log of that
/// history.
pub proof fn lemma_log_of_history(
    limits: RestartLimits,
    history: Seq<RestartEntry>,
    logs: Seq<Seq<RestartEntry>>,
)
    requires
        logs.len() == history.len() + 1,
        logs[0] == Seq::<RestartEntry>::empty(),
        forall|k: int|
            0 <= k < history.len() ==> #[trigger] logs[k + 1] == restart::log_after(
                logs[k],
                limits,
                history[k],
            ),
    ensures
        logs.last() == log_of_history(limits, history),
    decreases history.len(),
{
    let n = history.len() as int;
    if n > 0 {
        let front = history.drop_last();
        let logs_0 = logs.drop_last();
        assert forall|k: int| 0 <= k < front.len() implies #[trigger] logs_0[k + 1]
            == restart::log_after(logs_0[k], limits, front[k]) by {
            assert(logs[k + 1] == restart::log_after(logs[k], limits, history[k]));
        }
        lemma_log_of_history(limits, front, logs_0);
        let k = n - 1;
        assert(logs[k + 1] == restart::log_after(logs[k], limits, history[k]));
    }
}

/// Whether no restart in a history is older than one before it.
pub open spec fn in_order(history: Seq<RestartEntry>) -> bool {
    forall|i: int, j: int|
        0 <= i <= j < history.len() ==> (#[trigger] history[i]).timestamp.nanos <= (
        #[trigger] history[j]).timestamp.nanos
}

/// The restarts of a history since the last pause of `reset_after`.
pub open spec fn since_pause(reset_after: Option<Duration>, history: Seq<RestartEntry>) -> Seq<
    RestartEntry,
>
    decreases history.len(),
{
    if history.len() == 0 {
        Seq::empty()
    } else if history.len() > 1 && restart::quiet_between(
        reset_after,
        history[history.len() - 2].timestamp,
        history.last().timestamp,
    ) {
        seq![history.last()]
    } else {
        since_pause(reset_after, history.drop_last()).push(history.last())
    }
}

/// A filter after a weaker one does what it does alone.
proof fn lemma_filter_twice<T>(s: Seq<T>, weak: spec_fn(T) -> bool, strong: spec_fn(T) -> bool)
    requires
        forall|i: int| 0 <= i < s.len() && strong(#[trigger] s[i]) ==> weak(s[i]),
    ensures
        s.filter(weak).filter(strong) == s.filter(strong),
    decreases s.len(),
{
    reveal(Seq::filter);
    if s.len() > 0 {
        let front = s.drop_last();
        assert forall|i: int| 0 <= i < front.len() && strong(#[trigger] front[i]) implies weak(
            front[i],
        ) by {
            assert(front[i] == s[i]);
        }
        lemma_filter_twice(front, weak, strong);
        assert(s =~= front.push(s.last()));
        assert(s[s.len() - 1] == s.last());
        restart::lemma_filter_push(front, weak, s.last());
        restart::lemma_filter_push(front, strong, s.last());
        restart::lemma_filter_push(front.filter(weak), strong, s.last());
    }
}

/// The restarts since a pause belong to the history, and end as it ends.
proof fn lemma_since_pause(reset_after: Option<Duration>, history: Seq<RestartEntry>)
    ensures
        history.len() > 0 ==> since_pause(reset_after, history).len() > 0 && since_pause(
            reset_after,
            history,
        ).last() == history.last(),
        forall|i: int|
            0 <= i < since_pause(reset_after, history).len() ==> history.contains(
                #[trigger] since_pause(reset_after, history)[i],
            ),
    decreases history.len(),
{
    if history.len() > 0 {
        let front = history.drop_last();
        lemma_since_pause(reset_after, front);
        let recent = since_pause(reset_after, history);
        assert forall|i: int| 0 <= i < recent.len() implies history.contains(
            #[trigger] recent[i],
        ) by {
            if recent[i] == history.last() {
                assert(history[history.len() - 1] == recent[i]);
            } else {
                let x = since_pause(reset_after, front)[i];
                assert(front.contains(x));
                let j = choose|j: int| 0 <= j < front.len() && front[j] == x;
                assert(history[j] == x);
            }
        }
    }
}

/// The log of a supervisor holds exactly the restarts that happened since the last pause of
/// `reset_after` and that lie within `max_window` before the latest one, in the order in which they
/// happened.
pub proof fn law_log_holds_the_recent_restarts(limits: RestartLimits, history: Seq<RestartEntry>)
    requires
        history.len() > 0,
        in_order(history),
    ensures
        log_of_history(limits, history) == since_pause(limits.reset_after, history).filter(
            restart::within_window(limits.max_window, history.last().timestamp),
        ),
    decreases history.len(),
{
    let last = history.last();
    let front = history.drop_last();
    let keep = restart::within_window(limits.max_window, last.timestamp);
    let log = log_of_history(limits, front);
    assert(keep(last));
    if front.len() == 0 {
        assert(log =~= Seq::<RestartEntry>::empty());
        assert(since_pause(limits.reset_after, front) =~= Seq::<RestartEntry>::empty());
        restart::lemma_filter_push(Seq::<RestartEntry>::empty(), keep, last);
    } else {
        assert forall|i: int, j: int| 0 <= i <= j < front.len() implies (
        #[trigger] front[i]).timestamp.nanos <= (#[trigger] front[j]).timestamp.nanos by {
            assert(front[i] == history[i] && front[j] == history[j]);
        }
        law_log_holds_the_recent_restarts(limits, front);
        lemma_since_pause(limits.reset_after, front);
        let recent = since_pause(limits.reset_after, front);
        let kept_before = restart::within_window(limits.max_window, front.last().timestamp);
        // The latest restart is always in the log.
        assert(recent =~= recent.drop_last().push(recent.last()));
        restart::lemma_filter_push(recent.drop_last(), kept_before, recent.last());
        assert(log.last() == front.last());
        assert(front.last() == history[history.len() - 2]);
        if restart::quiet_between(limits.reset_after, front.last().timestamp, last.timestamp) {
            restart::lemma_filter_push(Seq::<RestartEntry>::empty(), keep, last);
            assert(since_pause(limits.reset_after, history) =~= Seq::<RestartEntry>::empty().push(
                last,
            ));
        } else {
            assert forall|i: int| 0 <= i < recent.len() && keep(
                #[trigger] recent[i],
            ) implies kept_before(recent[i]) by {
                assert(front.contains(recent[i]));
                let j = choose|j: int| 0 <= j < front.len() && front[j] == recent[i];
                assert(history[j] == recent[i]);
                assert(history[history.len() - 1] == last);
            }
            lemma_filter_twice(recent, kept_before, keep);
            restart::lemma_filter_push(recent, keep, last);
        }
    }
}

/// A supervisor gives up at a restart exactly if more than `max_restarts` restarts, this one
/// counted, lie within `max_window` before it and after the last pause of `reset_after`.
pub proof fn law_meltdown_counts_the_recent_restarts(
    limits: RestartLimits,
    history: Seq<RestartEntry>,
)
    requires
        history.len() > 0,
        in_order(history),
    ensures
        restart::too_many(log_of_history(limits, history), limits) <==> since_pause(
            limits.reset_after,
            history,
        ).filter(restart::within_window(limits.max_window, history.last().timestamp)).len()
            > limits.max_restarts,
{
    law_log_holds_the_recent_restarts(limits, history);
}

proof fn lemma_filter_keeps_all<T>(s: Seq<T>, keep: spec_fn(T) -> bool)
    requires
        forall|i: int| 0 <= i < s.len() ==> keep(#[trigger] s[i]),
    ensures
        s.filter(keep) == s,
    decreases s.len(),
{
    reveal(Seq::filter);
    if s.len() > 0 {
        assert forall|i: int| 0 <= i < s.drop_last().len() implies keep(
            #[trigger] s.drop_last()[i],
        ) by {
            assert(s.drop_last()[i] == s[i]);
        }
        lemma_filter_keeps_all(s.drop_last(), keep);
        assert(keep(s[s.len() - 1]));
        assert(s =~= s.drop_last().push(s.last()));
    }
}

proof fn lemma_no_pause(reset_after: Option<Duration>, history: Seq<RestartEntry>)
    requires
        forall|i: int|
            0 < i < history.len() ==> !restart::quiet_between(
                reset_after,
                history[i - 1].timestamp,
                (#[trigger] history[i]).timestamp,
            ),
    ensures
        since_pause(reset_after, history) == history,
    decreases history.len(),
{
    if history.len() > 0 {
        let front = history.drop_last();
        assert forall|i: int| 0 < i < front.len() implies !restart::quiet_between(
            reset_after,
            front[i - 1].timestamp,
            (#[trigger] front[i]).timestamp,
        ) by {
            assert(front[i] == history[i] && front[i - 1] == history[i - 1]);
        }
        lemma_no_pause(reset_after, front);
        assert(history[history.len() - 1] == history.last());
        assert(history =~= front.push(history.last()));
    } else {
        assert(history =~= Seq::<RestartEntry>::empty());
    }
}

/// Restarts that all lie within `max_window`, without a pause of `reset_after` among them, are
/// tolerated as long as there are no more of them than `max_restarts`; the one after that makes the
/// supervisor give up.
pub proof fn law_meltdown_on_the_restart_after_max_restarts(
    limits: RestartLimits,
    history: Seq<RestartEntry>,
)
    requires
        history.len() > 0,
        in_order(history),
        history.last().timestamp.nanos - history[0].timestamp.nanos <= limits.max_window.nanos,
        forall|i: int|
            0 < i < history.len() ==> !restart::quiet_between(
                limits.reset_after,
                history[i - 1].timestamp,
                (#[trigger] history[i]).timestamp,
            ),
    ensures
        log_of_history(limits, history) == history,
        restart::too_many(log_of_history(limits, history), limits) <==> history.len()
            > limits.max_restarts,
{
    let keep = restart::within_window(limits.max_window, history.last().timestamp);
    law_log_holds_the_recent_restarts(limits, history);
    lemma_no_pause(limits.reset_after, history);
    assert forall|i: int| 0 <= i < history.len() implies keep(#[trigger] history[i]) by {
        assert(history[0].timestamp.nanos <= history[i].timestamp.nanos);
        assert(history[i].timestamp.nanos <= history[history.len() - 1].timestamp.nanos);
    }
    lemma_filter_keeps_all(history, keep);
}

/// After a pause of `reset_after` the log starts anew: it holds only the restart that follows.
pub proof fn law_log_starts_anew_after_a_pause(
    limits: RestartLimits,
    log: Seq<RestartEntry>,
    entry: RestartEntry,
)
    requires
        log.len() > 0,
        restart::quiet_between(limits.reset_after, log.last().timestamp, entry.timestamp),
    ensures
        restart::log_after(log, limits, entry) == seq![entry],
{
    reveal(Seq::filter);
    assert(restart::log_after(log, limits, entry) =~= seq![entry]);
}

/// What is known of a child's failures after a row of failures, the oldest first.
pub open spec fn failures_of_history(
    before: Option<ChildFailureState>,
    reset_after: Option<Duration>,
    times: Seq<Timestamp>,
) -> Option<ChildFailureState>
    decreases times.len(),
{
    if times.len() == 0 {
        before
    } else {
        Some(
            restart::failure_after(
                failures_of_history(before, reset_after, times.drop_last()),
                reset_after,
                times.last(),
            ),
        )
    }
}

/// The failures of a child are counted one by one as long as no two in a row are `reset_after`
/// apart, and the time of the latest is kept.
pub proof fn law_failures_in_a_row_are_counted(
    reset_after: Option<Duration>,
    times: Seq<Timestamp>,
)
    requires
        0 < times.len() <= usize::MAX,
        forall|i: int|
            0 < i < times.len() ==> !restart::quiet_between(
                reset_after,
                times[i - 1],
                #[trigger] times[i],
            ),
    ensures
        failures_of_history(None, reset_after, times) == Some(
            ChildFailureState {
                restart_count: times.len() as usize,
                last_fail_instant: times.last(),
            },
        ),
    decreases times.len(),
{
    let front = times.drop_last();
    reveal_with_fuel(failures_of_history, 2);
    if front.len() > 0 {
        assert forall|i: int| 0 < i < front.len() implies !restart::quiet_between(
            reset_after,
            front[i - 1],
            #[trigger] front[i],
        ) by {
            assert(front[i] == times[i] && front[i - 1] == times[i - 1]);
        }
        law_failures_in_a_row_are_counted(reset_after, front);
        assert(front.last() == times[times.len() - 2]);
        assert(times.last() == times[times.len() - 1]);
    }
}

/// A failure after `reset_after` without one counts as the first.
pub proof fn law_child_failures_start_anew_after_a_pause(
    before: ChildFailureState,
    reset_after: Option<Duration>,
    now: Timestamp,
)
    requires
        restart::quiet_between(reset_after, before.last_fail_instant, now),
    ensures
        restart::failure_after(Some(before), reset_after, now) == (ChildFailureState {
            restart_count: 1,
            last_fail_instant: now,
        }),
{
}

/// A permanent child is always started again, a transient one exactly after it went abnormally, a
/// temporary one never.
pub proof fn law_restart_policies(abnormal: bool)
    ensures
        Restart::Permanent.applies(abnormal),
        Restart::Transient.applies(abnormal) <==> abnormal,
        !Restart::Temporary.applies(abnormal),
{
}

/// A filter that keeps everything after the first element that it keeps leaves the end of a
/// sequence.
proof fn lemma_filter_suffix<T>(s: Seq<T>, keep: spec_fn(T) -> bool)
    requires
        forall|i: int, j: int|
            0 <= i <= j < s.len() && keep(#[trigger] s[i]) ==> keep(#[trigger] s[j]),
    ensures
        s.filter(keep).len() <= s.len(),
        s.filter(keep) == s.skip(s.len() - s.filter(keep).len()),
        forall|i: int|
            0 <= i < s.len() ==> (keep(#[trigger] s[i]) <==> i >= s.len() - s.filter(keep).len()),
    decreases s.len(),
{
    reveal(Seq::filter);
    if s.len() == 0 {
        assert(s.filter(keep) =~= s.skip(0));
    } else {
        let front = s.drop_last();
        let last = s.last();
        assert forall|i: int, j: int|
            0 <= i <= j < front.len() && keep(#[trigger] front[i]) implies keep(
            #[trigger] front[j],
        ) by {
            assert(front[i] == s[i] && front[j] == s[j]);
        }
        lemma_filter_suffix(front, keep);
        assert(s =~= front.push(last));
        restart::lemma_filter_push(front, keep, last);
        assert(s[s.len() - 1] == last);
        let d = front.len() - front.filter(keep).len();
        if keep(last) {
            assert(front.skip(d).push(last) =~= s.skip(d));
        } else {
            if d < front.len() {
                assert(front[d] == s[d]);
                assert(keep(s[d]));
            }
            assert(s.filter(keep) =~= s.skip(s.len() as int));
        }
        assert forall|i: int| 0 <= i < s.len() implies (keep(#[trigger] s[i]) <==> i >= s.len()
            - s.filter(keep).len()) by {
            if i < front.len() {
                assert(front[i] == s[i]);
            }
        }
    }
}

/// A filter leaves what is in the sequence and is kept.
proof fn lemma_filter_member<T>(s: Seq<T>, keep: spec_fn(T) -> bool, x: T)
    ensures
        s.filter(keep).contains(x) <==> s.contains(x) && keep(x),
    decreases s.len(),
{
    reveal(Seq::filter);
    if s.len() > 0 {
        let front = s.drop_last();
        lemma_filter_member(front, keep, x);
        assert(s =~= front.push(s.last()));
        restart::lemma_filter_push(front, keep, s.last());
        vstd::seq_lib::lemma_seq_contains_after_push(front, s.last(), x);
        vstd::seq_lib::lemma_seq_contains_after_push(front.filter(keep), s.last(), x);
    }
}

/// What a restart does to a log whose restarts are in order. The restart is at the end of the log.
/// If the one before it lies at least `reset_after` back, it is alone there. Otherwise the log
/// loses from its beginning exactly those restarts that lie more than `max_window` back, and keeps
/// the others as they are.
pub proof fn law_a_restart_pushes_out_what_lies_before_the_window(
    log: Seq<RestartEntry>,
    limits: RestartLimits,
    entry: RestartEntry,
)
    requires
        forall|i: int, j: int|
            0 <= i <= j < log.len() ==> (#[trigger] log[i]).timestamp.nanos <= (
            #[trigger] log[j]).timestamp.nanos,
        log.len() > 0 ==> log.last().timestamp.nanos <= entry.timestamp.nanos,
    ensures
        ({
            let after = restart::log_after(log, limits, entry);
            let lost = log.len() + 1 - after.len();
            let paused = log.len() > 0 && (limits.reset_after matches Some(span)
                && entry.timestamp.nanos - log.last().timestamp.nanos >= span.nanos);
            &&& 1 <= after.len() <= log.len() + 1
            &&& after.last() == entry
            &&& paused ==> after.len() == 1
            &&& !paused ==> {
                &&& forall|k: int| 0 <= k < after.len() - 1 ==> #[trigger] after[k] == log[lost + k]
                &&& forall|i: int|
                    0 <= i < lost ==> entry.timestamp.nanos - (#[trigger] log[i]).timestamp.nanos
                        > limits.max_window.nanos
                &&& forall|i: int|
                    lost <= i < log.len() ==> entry.timestamp.nanos - (
                    #[trigger] log[i]).timestamp.nanos <= limits.max_window.nanos
            }
        }),
{
    let keep = restart::within_window(limits.max_window, entry.timestamp);
    let paused = log.len() > 0 && (limits.reset_after matches Some(span)
        && entry.timestamp.nanos - log.last().timestamp.nanos >= span.nanos);
    let after = restart::log_after(log, limits, entry);
    if paused {
        law_log_starts_anew_after_a_pause(limits, log, entry);
    } else {
        assert forall|i: int| 0 <= i < log.len() implies (#[trigger] log[i]).timestamp.nanos
            <= entry.timestamp.nanos by {
            assert(log[i].timestamp.nanos <= log[log.len() - 1].timestamp.nanos);
        }
        lemma_filter_suffix(log, keep);
        assert(after == log.filter(keep).push(entry));
        let lost = log.len() + 1 - after.len();
        assert forall|k: int| 0 <= k < after.len() - 1 implies #[trigger] after[k] == log[lost
            + k] by {
            assert(after[k] == log.filter(keep)[k]);
        }
    }
}

/// Which restarts are in a log after another one, however the log is ordered: none that lies more
/// than `max_window` back, and, without a pause of `reset_after`, all that do not.
pub proof fn law_the_log_holds_no_restart_before_the_window(
    log: Seq<RestartEntry>,
    limits: RestartLimits,
    entry: RestartEntry,
    other: RestartEntry,
)
    ensures
        entry.timestamp.nanos - other.timestamp.nanos > limits.max_window.nanos
            ==> !restart::log_after(log, limits, entry).contains(other),
        other != entry && !log.contains(other) ==> !restart::log_after(
            log,
            limits,
            entry,
        ).contains(other),
        limits.reset_after is None && log.contains(other) && entry.timestamp.nanos
            - other.timestamp.nanos <= limits.max_window.nanos ==> restart::log_after(
            log,
            limits,
            entry,
        ).contains(other),
{
    let keep = restart::within_window(limits.max_window, entry.timestamp);
    let after = restart::log_after(log, limits, entry);
    let source = if log.len() > 0 && restart::quiet_between(
        limits.reset_after,
        log.last().timestamp,
        entry.timestamp,
    ) {
        Seq::<RestartEntry>::empty()
    } else {
        log
    };
    let kept = source.filter(keep);
    assert(after == kept.push(entry));
    lemma_filter_member(source, keep, other);
    if after.contains(other) {
        let k = choose|k: int| 0 <= k < after.len() && after[k] == other;
        if k < kept.len() {
            assert(kept[k] == other);
        }
    }
    if kept.contains(other) {
        let k = choose|k: int| 0 <= k < kept.len() && kept[k] == other;
        assert(after[k] == other);
    }
}

/// The count of a child's failures after another one, and the time that is kept. The count is one
/// if nothing was known of the child or its last failure lies at least `reset_after` back, and is
/// one more than before otherwise, as far as a count can go.
pub proof fn law_a_failure_is_counted(
    before: Option<ChildFailureState>,
    reset_after: Option<Duration>,
    now: Timestamp,
)
    ensures
        ({
            let after = restart::failure_after(before, reset_after, now);
            &&& after.last_fail_instant.nanos == now.nanos
            &&& before is None ==> after.restart_count == 1
            &&& before matches Some(known) ==> {
                let passed = if known.last_fail_instant.nanos <= now.nanos {
                    now.nanos - known.last_fail_instant.nanos
                } else {
                    0
                };
                let paused = reset_after matches Some(span) && passed >= span.nanos;
                &&& paused ==> after.restart_count == 1
                &&& !paused && known.restart_count < usize::MAX ==> after.restart_count
                    == known.restart_count + 1
                &&& !paused && known.restart_count == usize::MAX ==> after.restart_count
                    == usize::MAX
            }
        }),
{
}

/// The start of a child is noted if nothing was known of it, with no failure so far, and changes
/// nothing otherwise.
pub proof fn law_a_start_is_noted_once(
    failures: Map<Seq<char>, ChildFailureState>,
    id: Seq<char>,
    other: Seq<char>,
    now: Timestamp,
)
    ensures
        ({
            let after = restart::failures_after_start(failures, id, now);
            &&& after.contains_key(id)
            &&& failures.contains_key(id) ==> after == failures
            &&& !failures.contains_key(id) ==> after[id].restart_count == 0
                && after[id].last_fail_instant.nanos == now.nanos
            &&& other != id ==> after.contains_key(other) == failures.contains_key(other)
            &&& other != id && failures.contains_key(other) ==> after[other] == failures[other]
        }),
{
}

/// What becomes of a child that has gone. A permanent child is started again, a transient one if it
/// went abnormally, a temporary one not. If it is not, nothing is counted. If it is, one failure of
/// this child is counted, and nothing of another; and the delay is what the child's own backoff
/// function gives for the child's id, that count, the time of the failure and the child's
/// `reset_after`, or none without such a function.
pub proof fn law_what_becomes_of_a_gone_child<S, B>(
    failures: Map<Seq<char>, ChildFailureState>,
    spec: ChildSpec<S, B>,
    abnormal: bool,
    now: Timestamp,
    decision: RestartDecision,
    after: Map<Seq<char>, ChildFailureState>,
) where B: Fn(&str, usize, Timestamp, Option<Duration>) -> Option<Duration>
    requires
        restart::decided(failures, spec, abnormal, now, decision, after),
    ensures
        decision is Restart <==> (spec.restart is Permanent || (spec.restart is Transient
            && abnormal)),
        decision is Leave ==> after == failures,
        decision is Restart ==> {
            let id = spec.id@;
            let known = failures.contains_key(id);
            let last = failures[id].last_fail_instant.nanos;
            let passed = if last <= now.nanos {
                now.nanos - last
            } else {
                0
            };
            let paused = spec.reset_after matches Some(span) && passed >= span.nanos;
            &&& after.contains_key(id)
            &&& after[id].last_fail_instant == now
            &&& !known || paused ==> after[id].restart_count == 1
            &&& known && !paused && failures[id].restart_count < usize::MAX
                ==> after[id].restart_count == failures[id].restart_count + 1
            &&& known && !paused && failures[id].restart_count == usize::MAX
                ==> after[id].restart_count == usize::MAX
            &&& forall|other: Seq<char>|
                other != id ==> #[trigger] after.contains_key(other) == failures.contains_key(other)
            &&& forall|other: Seq<char>|
                other != id && failures.contains_key(other) ==> #[trigger] after[other]
                    == failures[other]
            &&& spec.backoff_fn is None ==> decision->delay is None
            &&& spec.backoff_fn matches Some(backoff) ==> exists|name: &str|
                name@ == id && #[trigger] call_ensures(
                    backoff.function(),
                    (name, after[id].restart_count, now, spec.reset_after),
                    decision->delay,
                )
        },
{
}

/// A backoff function that always gives the same delay, or always none, sets that delay, whatever
/// it is.
pub proof fn law_a_constant_backoff_is_the_delay<S, B>(
    failures: Map<Seq<char>, ChildFailureState>,
    spec: ChildSpec<S, B>,
    abnormal: bool,
    now: Timestamp,
    delay: Option<Duration>,
    after: Map<Seq<char>, ChildFailureState>,
    wanted: Option<Duration>,
) where B: Fn(&str, usize, Timestamp, Option<Duration>) -> Option<Duration>
    requires
        restart::decided(
            failures,
            spec,
            abnormal,
            now,
            RestartDecision::Restart { delay },
            after,
        ),
        spec.backoff_fn matches Some(backoff) && forall|
            name: &str,
            count: usize,
            at: Timestamp,
            reset_after: Option<Duration>,
            given: Option<Duration>,
        | #[trigger]
            call_ensures(backoff.function(), (name, count, at, reset_after), given) ==> given
                == wanted,
    ensures
        delay == wanted,
{
}

} // verus!
