//! What the handlers of the supervisor of children that come and go do, said of their inputs and
//! results.
use vstd::prelude::*;
use crate::actor::{ActorCell, ActorProcessingErr, ExitReason, SupervisionEvent, SupervisorError};
use crate::child::ChildSpec;
use crate::dynamic;
use crate::dynamic::{DynamicOutcome, DynamicSupervisorMsg, DynamicSupervisorState, DynamicWork};
use crate::restart::{CoreSupervisorOptions, RestartEntry, RestartRequest};
use crate::restart_laws;
use crate::time::{Duration, Timestamp};

verus! {

/// What a restart does to the log, for a log whose restarts are in order. The restart is at the end
/// of the log. If the one before it lies at least `reset_after` back, it is alone there. Otherwise
/// the log loses from its beginning exactly those restarts that lie more than `max_window` back and
/// keeps the others. The supervisor gives up exactly if more than `max_restarts` are left. Nothing
/// else changes, and the log stays in order.
pub proof fn law_a_restart_is_logged<S, B>(
    before: DynamicSupervisorState<S, B>,
    after: DynamicSupervisorState<S, B>,
    child_id: Seq<char>,
    now: Timestamp,
    result: Result<(), SupervisorError>,
) where B: Fn(&str, usize, Timestamp, Option<Duration>) -> Option<Duration>
    requires
        after.restart_logged(before, child_id, now, result),
        forall|i: int, j: int|
            0 <= i <= j < before.restart_log@.len() ==> (
            #[trigger] before.restart_log@[i]).timestamp.nanos <= (
            #[trigger] before.restart_log@[j]).timestamp.nanos,
        before.restart_log@.len() > 0 ==> before.restart_log@.last().timestamp.nanos <= now.nanos,
    ensures
        ({
            let old_log = before.restart_log@;
            let new_log = after.restart_log@;
            let lost = old_log.len() + 1 - new_log.len();
            let paused = old_log.len() > 0 && (before.options.reset_after matches Some(span)
                && now.nanos - old_log.last().timestamp.nanos >= span.nanos);
            &&& 1 <= new_log.len() <= old_log.len() + 1
            &&& new_log.last().child_id@ == child_id
            &&& new_log.last().timestamp == now
            &&& paused ==> new_log.len() == 1
            &&& !paused ==> {
                &&& forall|k: int|
                    0 <= k < new_log.len() - 1 ==> {
                        &&& (#[trigger] new_log[k]).child_id@ == old_log[lost + k].child_id@
                        &&& new_log[k].timestamp == old_log[lost + k].timestamp
                    }
                &&& forall|i: int|
                    0 <= i < lost ==> now.nanos - (#[trigger] old_log[i]).timestamp.nanos
                        > before.options.max_window.nanos
                &&& forall|i: int|
                    lost <= i < old_log.len() ==> now.nanos - (
                    #[trigger] old_log[i]).timestamp.nanos <= before.options.max_window.nanos
            }
            &&& forall|i: int, j: int|
                0 <= i <= j < new_log.len() ==> (#[trigger] new_log[i]).timestamp.nanos <= (
                #[trigger] new_log[j]).timestamp.nanos
        }),
        result is Err <==> after.restart_log@.len() > before.options.max_restarts,
        result matches Err(error) ==> (error matches SupervisorError::Meltdown { reason }
            && reason@ == "max_restarts exceeded"@),
        after.child_failure_state == before.child_failure_state,
        after.active_children == before.active_children,
        after.options == before.options,
{
    let limits = before.options.limits();
    let entry = RestartEntry { child_id, timestamp: now };
    let (old_log, new_log) = (before.restart_log@, after.restart_log@);
    let (old_view, new_view) = (before.log(), after.log());
    assert forall|i: int| 0 <= i < old_log.len() implies #[trigger] old_view[i]
        == old_log[i]@ by {}
    assert forall|i: int| 0 <= i < new_log.len() implies (#[trigger] new_log[i])@
        == new_view[i] by {}
    restart_laws::law_a_restart_pushes_out_what_lies_before_the_window(old_view, limits, entry);
    let lost = old_log.len() + 1 - new_log.len();
    assert(old_view.len() == old_log.len() && new_view.len() == new_log.len());
    assert(new_log.last()@ == new_view.last());
    if old_log.len() > 0 {
        assert(old_log.last()@ == old_view.last());
    }
    assert forall|i: int| 0 <= i < lost && new_log.len() > 1 implies now.nanos - (
    #[trigger] old_log[i]).timestamp.nanos > before.options.max_window.nanos by {
        assert(old_view[i] == old_log[i]@);
    }
    assert forall|i: int| 0 <= i < old_log.len() implies (
    #[trigger] old_log[i]).timestamp == old_view[i].timestamp by {
        assert(old_view[i] == old_log[i]@);
    }
    assert forall|k: int| 0 <= k < new_log.len() - 1 && new_view[k] == old_view[lost
        + k] implies (#[trigger] new_log[k]).child_id@ == old_log[lost + k].child_id@
        && new_log[k].timestamp == old_log[lost + k].timestamp by {
        assert(new_log[k]@ == new_view[k]);
        assert(old_view[lost + k] == old_log[lost + k]@);
    }
    assert forall|i: int, j: int| 0 <= i <= j < new_log.len() implies (
    #[trigger] new_log[i]).timestamp.nanos <= (#[trigger] new_log[j]).timestamp.nanos by {
        let last = new_log.len() - 1;
        if i < last {
            assert(new_view[i] == old_view[lost + i]);
            assert(new_log[i].timestamp == old_log[lost + i].timestamp);
            if j < last {
                assert(new_view[j] == old_view[lost + j]);
                assert(new_log[j].timestamp == old_log[lost + j].timestamp);
            } else {
                assert(old_log[lost + i].timestamp.nanos <= old_log[old_log.len()
                    - 1].timestamp.nanos);
            }
        }
    }
}

/// Restarts that lie further apart than `max_window` never count together: a supervisor that
/// tolerates one restart never gives up over them. `befores` and `afters` are the states before and
/// after the handling of each, whatever was handled in between.
pub proof fn law_restarts_far_apart_are_no_meltdown<S, B>(
    befores: Seq<DynamicSupervisorState<S, B>>,
    afters: Seq<DynamicSupervisorState<S, B>>,
    ids: Seq<Seq<char>>,
    times: Seq<Timestamp>,
    results: Seq<Result<(), SupervisorError>>,
) where B: Fn(&str, usize, Timestamp, Option<Duration>) -> Option<Duration>
    requires
        times.len() > 0,
        befores.len() == times.len(),
        afters.len() == times.len(),
        befores[0].restart_log@.len() == 0,
        befores[0].options.max_restarts >= 1,
        forall|k: int|
            0 <= k < times.len() ==> (#[trigger] afters[k]).restart_logged(
                befores[k],
                ids[k],
                times[k],
                results[k],
            ),
        forall|k: int|
            0 < k < times.len() ==> {
                &&& (#[trigger] befores[k]).restart_log == afters[k - 1].restart_log
                &&& befores[k].options == afters[k - 1].options
                &&& times[k].nanos - times[k - 1].nanos > befores[0].options.max_window.nanos
            },
    ensures
        forall|k: int| 0 <= k < times.len() ==> #[trigger] results[k] is Ok,
        afters.last().restart_log@.len() == 1,
        afters.last().restart_log@[0].timestamp == times.last(),
        afters.last().options == befores[0].options,
    decreases times.len(),
{
    let n = times.len() - 1;
    let (before, after) = (befores[n], afters[n]);
    assert(after.restart_logged(before, ids[n], times[n], results[n]));
    if n > 0 {
        let (befores_0, afters_0) = (befores.drop_last(), afters.drop_last());
        let times_0 = times.drop_last();
        assert forall|k: int| 0 <= k < times_0.len() implies (
        #[trigger] afters_0[k]).restart_logged(
            befores_0[k],
            ids[k],
            times_0[k],
            results[k],
        ) by {
            assert(afters[k].restart_logged(befores[k], ids[k], times[k], results[k]));
        }
        assert forall|k: int| 0 < k < times_0.len() implies {
            &&& (#[trigger] befores_0[k]).restart_log == afters_0[k - 1].restart_log
            &&& befores_0[k].options == afters_0[k - 1].options
            &&& times_0[k].nanos - times_0[k - 1].nanos > befores_0[0].options.max_window.nanos
        } by {
            assert(befores[k].restart_log == afters[k - 1].restart_log);
        }
        law_restarts_far_apart_are_no_meltdown(befores_0, afters_0, ids, times_0, results);
        assert(before.restart_log == afters[n - 1].restart_log);
        assert(afters_0.last() == afters[n - 1]);
        assert(times_0.last() == times[n - 1]);
    }
    law_a_restart_is_logged(before, after, ids[n], times[n], results[n]);
    if n > 0 && after.restart_log@.len() == 2 {
        assert(before.restart_log@[0].timestamp == times[n - 1]);
        assert(times[n].nanos - before.restart_log@[0].timestamp.nanos
            > before.options.max_window.nanos);
    }
    assert(after.restart_log@.len() == 1);
    assert forall|k: int| 0 <= k < times.len() implies #[trigger] results[k] is Ok by {}
}

/// Restarts that all lie within `max_window` of the latest, with no pause of `reset_after` between
/// them, all count: the supervisor gives up over the latest exactly if there are more of them than
/// `max_restarts`.
pub proof fn law_restarts_close_together_all_count<S, B>(
    befores: Seq<DynamicSupervisorState<S, B>>,
    afters: Seq<DynamicSupervisorState<S, B>>,
    ids: Seq<Seq<char>>,
    times: Seq<Timestamp>,
    results: Seq<Result<(), SupervisorError>>,
) where B: Fn(&str, usize, Timestamp, Option<Duration>) -> Option<Duration>
    requires
        times.len() > 0,
        befores.len() == times.len(),
        afters.len() == times.len(),
        befores[0].restart_log@.len() == 0,
        forall|k: int|
            0 <= k < times.len() ==> (#[trigger] afters[k]).restart_logged(
                befores[k],
                ids[k],
                times[k],
                results[k],
            ),
        forall|k: int|
            0 < k < times.len() ==> {
                &&& (#[trigger] befores[k]).restart_log == afters[k - 1].restart_log
                &&& befores[k].options == afters[k - 1].options
                &&& times[k - 1].nanos <= times[k].nanos
                &&& befores[0].options.reset_after matches Some(span) ==> times[k].nanos - times[k
                    - 1].nanos < span.nanos
            },
        times.last().nanos - times[0].nanos <= befores[0].options.max_window.nanos,
    ensures
        afters.last().restart_log@.len() == times.len(),
        forall|k: int|
            0 <= k < times.len() ==> {
                &&& (#[trigger] afters.last().restart_log@[k]).timestamp == times[k]
                &&& afters.last().restart_log@[k].child_id@ == ids[k]
            },
        forall|i: int, j: int|
            0 <= i <= j < times.len() ==> (#[trigger] times[i]).nanos <= (
            #[trigger] times[j]).nanos,
        results[times.len() - 1] is Err <==> times.len() > befores[0].options.max_restarts,
        afters.last().options == befores[0].options,
    decreases times.len(),
{
    let n = times.len() - 1;
    let (before, after) = (befores[n], afters[n]);
    assert(after.restart_logged(before, ids[n], times[n], results[n]));
    if n > 0 {
        let (befores_0, afters_0) = (befores.drop_last(), afters.drop_last());
        let times_0 = times.drop_last();
        assert forall|k: int| 0 <= k < times_0.len() implies (
        #[trigger] afters_0[k]).restart_logged(
            befores_0[k],
            ids[k],
            times_0[k],
            results[k],
        ) by {
            assert(afters[k].restart_logged(befores[k], ids[k], times[k], results[k]));
        }
        assert forall|k: int| 0 < k < times_0.len() implies {
            &&& (#[trigger] befores_0[k]).restart_log == afters_0[k - 1].restart_log
            &&& befores_0[k].options == afters_0[k - 1].options
            &&& times_0[k - 1].nanos <= times_0[k].nanos
            &&& befores_0[0].options.reset_after matches Some(span) ==> times_0[k].nanos
                - times_0[k - 1].nanos < span.nanos
        } by {
            assert(befores[k].restart_log == afters[k - 1].restart_log);
        }
        assert(before.restart_log == afters[n - 1].restart_log);
        assert(times_0.last() == times[n - 1]);
        law_restarts_close_together_all_count(befores_0, afters_0, ids, times_0, results);
        assert(afters_0.last() == afters[n - 1]);
        let log = before.restart_log@;
        assert forall|k: int| 0 <= k < log.len() implies (#[trigger] log[k]).timestamp
            == times[k] && log[k].child_id@ == ids[k] by {
            assert(afters_0.last().restart_log@[k].timestamp == times_0[k]);
        }
        assert forall|i: int, j: int| 0 <= i <= j < times.len() implies (
        #[trigger] times[i]).nanos <= (#[trigger] times[j]).nanos by {
            if j < n {
                assert(times_0[i].nanos <= times_0[j].nanos);
            } else if i < n {
                assert(times_0[i].nanos <= times_0[n - 1].nanos);
            }
        }
        assert forall|i: int, j: int| 0 <= i <= j < log.len() implies (
        #[trigger] log[i]).timestamp.nanos <= (#[trigger] log[j]).timestamp.nanos by {
            assert(times[i].nanos <= times[j].nanos);
        }
    }
    law_a_restart_is_logged(before, after, ids[n], times[n], results[n]);
    let lost = before.restart_log@.len() + 1 - after.restart_log@.len();
    if lost > 0 {
        assert(before.restart_log@[0].timestamp == times[0]);
        assert(times[n].nanos - before.restart_log@[0].timestamp.nanos
            > before.options.max_window.nanos);
    }
    assert(lost == 0);
    assert forall|k: int| 0 <= k < times.len() implies (
    #[trigger] after.restart_log@[k]).timestamp == times[k]
        && after.restart_log@[k].child_id@ == ids[k] by {
        if k < n {
            assert(before.restart_log@[lost + k].timestamp == times[k]);
        }
    }
}

/// What the supervisor does about a child that has gone. A permanent child is started again, a
/// transient one if it went abnormally, a temporary one not. If it is not, nothing changes. If it
/// is, one failure of this child is counted and nothing of another: the count is one if nothing was
/// known of the child or its last failure lies at least `reset_after` back, and one more than
/// before otherwise. The supervisor sends itself one message, to spawn the child.
/// The delay is what the child's own backoff function gives for the child's id, that count, the
/// time of the failure and the child's `reset_after`, or none without such a function.
pub proof fn law_what_is_done_about_a_gone_child<S, B>(
    before: DynamicSupervisorState<S, B>,
    after: DynamicSupervisorState<S, B>,
    spec: ChildSpec<S, B>,
    abnormal: bool,
    reason: ExitReason,
    now: Timestamp,
    request: Option<RestartRequest<DynamicSupervisorMsg<S, B>>>,
) where B: Fn(&str, usize, Timestamp, Option<Duration>) -> Option<Duration>
    requires
        after.restart_handled(before, spec, abnormal, reason, now, request),
    ensures
        request is Some <==> (spec.restart is Permanent || (spec.restart is Transient && abnormal)),
        request is None ==> after.child_failure_state@ == before.child_failure_state@,
        request matches Some(request) ==> {
            let (old_failures, failures) = (
                before.child_failure_state@,
                after.child_failure_state@,
            );
            let id = spec.id@;
            let known = old_failures.contains_key(id);
            let last = old_failures[id].last_fail_instant.nanos;
            let passed = if last <= now.nanos {
                now.nanos - last
            } else {
                0
            };
            let paused = spec.reset_after matches Some(span) && passed >= span.nanos;
            &&& request.msg == (DynamicSupervisorMsg::SpawnChild { spec, reply: false })
            &&& request.reason == reason
            &&& failures.contains_key(id)
            &&& failures[id].last_fail_instant == now
            &&& !known || paused ==> failures[id].restart_count == 1
            &&& known && !paused && old_failures[id].restart_count < usize::MAX
                ==> failures[id].restart_count == old_failures[id].restart_count + 1
            &&& known && !paused && old_failures[id].restart_count == usize::MAX
                ==> failures[id].restart_count == usize::MAX
            &&& forall|other: Seq<char>|
                other != id ==> #[trigger] failures.contains_key(other)
                    == old_failures.contains_key(other)
            &&& forall|other: Seq<char>|
                other != id && old_failures.contains_key(other) ==> #[trigger] failures[other]
                    == old_failures[other]
            &&& spec.backoff_fn is None ==> request.delay is None
            &&& spec.backoff_fn matches Some(backoff) ==> exists|name: &str|
                name@ == id && #[trigger] call_ensures(
                    backoff.function(),
                    (name, failures[id].restart_count, now, spec.reset_after),
                    request.delay,
                )
        },
        after.restart_log == before.restart_log,
        after.options == before.options,
{
}

/// A backoff function that always gives the same delay, or always none, sets the delay of the
/// message that has a child started again, whatever that delay is.
pub proof fn law_a_constant_backoff_delays_the_restart<S, B>(
    before: DynamicSupervisorState<S, B>,
    after: DynamicSupervisorState<S, B>,
    spec: ChildSpec<S, B>,
    abnormal: bool,
    reason: ExitReason,
    now: Timestamp,
    request: RestartRequest<DynamicSupervisorMsg<S, B>>,
    wanted: Option<Duration>,
) where B: Fn(&str, usize, Timestamp, Option<Duration>) -> Option<Duration>
    requires
        after.restart_handled(before, spec, abnormal, reason, now, Some(request)),
        spec.backoff_fn matches Some(backoff) && forall|
            name: &str,
            count: usize,
            at: Timestamp,
            reset_after: Option<Duration>,
            given: Option<Duration>,
        | #[trigger]
            call_ensures(backoff.function(), (name, count, at, reset_after), given) ==> given
                == wanted,
    ensures
        request.delay == wanted,
{
}

/// What a request for a child leads to. While there is no `max_children`, or there are fewer
/// children, the child is spawned. Otherwise it is not, and whoever asked is told that there are
/// too many. Nothing changes yet, and the request is no restart.
pub proof fn law_what_a_request_leads_to<S, B>(
    before: DynamicSupervisorState<S, B>,
    after: DynamicSupervisorState<S, B>,
    spec: ChildSpec<S, B>,
    now: Timestamp,
    work: DynamicWork<S, B>,
) where B: Fn(&str, usize, Timestamp, Option<Duration>) -> Option<Duration>
    requires
        dynamic::handled(
            before,
            after,
            DynamicSupervisorMsg::SpawnChild { spec, reply: true },
            now,
            work,
        ),
    ensures
        after == before,
        ({
            let room = match before.options.max_children {
                Some(max) => before.active_children@.len() < max,
                None => true,
            };
            &&& room ==> work == (DynamicWork::Spawn { spec, reply: true })
            &&& !room ==> {
                &&& work matches DynamicWork::ReplySpawned { answer }
                &&& answer matches Err(ActorProcessingErr::Supervisor(error))
                &&& error matches SupervisorError::Meltdown { reason }
                &&& reason@ == "max_children exceeded"@
            }
        }),
{
}

/// A child that is asked for while there is room for it, and that can be spawned, is then among the
/// children under its id, and whoever asked is told that it was. The other children, the log and
/// the options stay as they are.
pub proof fn law_a_child_is_spawned_on_request<S, B>(
    before: DynamicSupervisorState<S, B>,
    during: DynamicSupervisorState<S, B>,
    spawned: DynamicSupervisorState<S, B>,
    after: DynamicSupervisorState<S, B>,
    spec: ChildSpec<S, B>,
    cell: ActorCell,
    times: (Timestamp, Timestamp, Timestamp),
    works: (DynamicWork<S, B>, DynamicWork<S, B>, DynamicWork<S, B>),
) where B: Fn(&str, usize, Timestamp, Option<Duration>) -> Option<Duration>
    requires
        match before.options.max_children {
            Some(max) => before.active_children@.len() < max,
            None => true,
        },
        dynamic::handled(
            before,
            during,
            DynamicSupervisorMsg::SpawnChild { spec, reply: true },
            times.0,
            works.0,
        ),
        dynamic::resumed(
            during,
            spawned,
            works.0,
            DynamicOutcome::Spawned { cell },
            times.1,
            works.1,
        ),
        dynamic::resumed(spawned, after, works.1, DynamicOutcome::Done, times.2, works.2),
    ensures
        works.0 == (DynamicWork::Spawn { spec, reply: true }),
        works.1 matches DynamicWork::ReplySpawned { answer } && answer is Ok,
        works.2 matches DynamicWork::Finished(result) && result is Ok,
        after.active_children@.contains_key(spec.id@),
        after.active_children@[spec.id@].spec == spec,
        after.active_children@[spec.id@].cell == cell,
        forall|other: Seq<char>|
            other != spec.id@ ==> #[trigger] after.active_children@.contains_key(other)
                == before.active_children@.contains_key(other),
        forall|other: Seq<char>|
            other != spec.id@ && before.active_children@.contains_key(other)
                ==> #[trigger] after.active_children@[other] == before.active_children@[other],
        after.child_failure_state@.contains_key(spec.id@),
        after.restart_log == before.restart_log,
        after.options == before.options,
{
}

/// What the message leads to by which the supervisor has a child started again: that is a restart,
/// which is logged at the end of the log. If more than `max_restarts` are in the log then, the
/// supervisor ends with an error; otherwise it waits ten milliseconds before it does anything else.
pub proof fn law_what_a_restart_leads_to<S, B>(
    before: DynamicSupervisorState<S, B>,
    after: DynamicSupervisorState<S, B>,
    spec: ChildSpec<S, B>,
    now: Timestamp,
    work: DynamicWork<S, B>,
) where B: Fn(&str, usize, Timestamp, Option<Duration>) -> Option<Duration>
    requires
        dynamic::handled(
            before,
            after,
            DynamicSupervisorMsg::SpawnChild { spec, reply: false },
            now,
            work,
        ),
    ensures
        after.restart_log@.last().child_id@ == spec.id@,
        after.restart_log@.last().timestamp == now,
        after.restart_log@.len() <= before.options.max_restarts ==> {
            &&& work matches DynamicWork::Sleep { duration, spec: same, reply }
            &&& duration.nanos == 10_000_000
            &&& same == spec
            &&& !reply
            &&& after.restart_logged(before, spec.id@, now, Ok(()))
        },
        after.restart_log@.len() > before.options.max_restarts ==> {
            &&& work matches DynamicWork::Finished(Err(ActorProcessingErr::Supervisor(error)))
            &&& error matches SupervisorError::Meltdown { reason }
            &&& reason@ == "max_restarts exceeded"@
            &&& after.restart_logged(before, spec.id@, now, Err(error))
        },
        after.active_children == before.active_children,
        after.child_failure_state == before.child_failure_state,
        after.options == before.options,
{
    assert(after.log().len() == after.restart_log@.len());
    assert(after.log().last() == after.restart_log@.last()@);
}

/// What the other messages lead to. A child of the given id is no longer among the children and is
/// to be stopped, with a tenth of a second for it; without one there is nothing to stop. Whoever
/// waits for the end is answered. The state is handed out on request, and then nothing changes.
pub proof fn law_what_the_other_messages_lead_to<S, B>(
    before: DynamicSupervisorState<S, B>,
    after: DynamicSupervisorState<S, B>,
    msg: DynamicSupervisorMsg<S, B>,
    now: Timestamp,
    work: DynamicWork<S, B>,
) where B: Fn(&str, usize, Timestamp, Option<Duration>) -> Option<Duration>
    requires
        dynamic::handled(before, after, msg, now, work),
    ensures
        msg is InspectState ==> after == before && work is ReplyState,
        msg matches DynamicSupervisorMsg::TerminateChild { child_id, reply } ==> {
            let id = child_id@;
            &&& before.active_children@.contains_key(id) ==> {
                &&& work matches DynamicWork::Stop { cell, timeout, reply: waits }
                &&& cell == before.active_children@[id].cell
                &&& timeout.nanos == 100_000_000
                &&& waits == reply
            }
            &&& !before.active_children@.contains_key(id) && reply ==> work is ReplyTerminated
            &&& !before.active_children@.contains_key(id) && !reply ==> (
            work matches DynamicWork::Finished(result) && result is Ok)
            &&& !after.active_children@.contains_key(id)
            &&& forall|other: Seq<char>|
                other != id ==> #[trigger] after.active_children@.contains_key(other)
                    == before.active_children@.contains_key(other)
            &&& forall|other: Seq<char>|
                other != id && before.active_children@.contains_key(other)
                    ==> #[trigger] after.active_children@[other] == before.active_children@[other]
            &&& after.child_failure_state == before.child_failure_state
            &&& after.restart_log == before.restart_log
            &&& after.options == before.options
        },
{
}

/// How a handler goes on after the wait before a restart, and after an attempt to spawn a child.
///
/// After the wait the child is spawned if there is room for it; otherwise the supervisor ends with
/// an error. A child that was spawned is among the children under its id, and its start is noted if
/// nothing was known of it. One that could not be spawned has gone abnormally, for that reason: it
/// is not among the children, and unless it is temporary the supervisor sends itself a message so
/// that it is tried again. Whoever waits for the child is told that all went well in both cases.
pub proof fn law_how_the_spawning_of_a_child_goes_on<S, B>(
    before: DynamicSupervisorState<S, B>,
    after: DynamicSupervisorState<S, B>,
    work: DynamicWork<S, B>,
    outcome: DynamicOutcome,
    now: Timestamp,
    next: DynamicWork<S, B>,
) where B: Fn(&str, usize, Timestamp, Option<Duration>) -> Option<Duration>
    requires
        dynamic::resumed(before, after, work, outcome, now, next),
        work is Sleep || work is Spawn,
    ensures
        work matches DynamicWork::Sleep { spec, reply, .. } ==> {
            let room = match before.options.max_children {
                Some(max) => before.active_children@.len() < max,
                None => true,
            };
            &&& after == before
            &&& !(outcome is Done) ==> next == work
            &&& outcome is Done && room ==> next == (DynamicWork::Spawn { spec, reply })
            &&& outcome is Done && !room ==> {
                let answer = match next {
                    DynamicWork::ReplySpawned { answer } => answer,
                    DynamicWork::Finished(result) => result,
                    _ => Ok(()),
                };
                &&& reply ==> next is ReplySpawned
                &&& !reply ==> next is Finished
                &&& answer matches Err(ActorProcessingErr::Supervisor(error))
                &&& error matches SupervisorError::Meltdown { reason }
                &&& reason@ == "max_children exceeded"@
            }
        },
        work matches DynamicWork::Spawn { spec, reply } ==> {
            let id = spec.id@;
            let well = if reply {
                next matches DynamicWork::ReplySpawned { answer } && answer is Ok
            } else {
                next matches DynamicWork::Finished(result) && result is Ok
            };
            &&& after.restart_log == before.restart_log
            &&& after.options == before.options
            &&& outcome is Done || outcome is SendFailed ==> after == before && next == work
            &&& outcome matches DynamicOutcome::Spawned { cell } ==> {
                let (old_failures, failures) = (
                    before.child_failure_state@,
                    after.child_failure_state@,
                );
                &&& well
                &&& after.active_children@.contains_key(id)
                &&& after.active_children@[id].spec == spec
                &&& after.active_children@[id].cell == cell
                &&& forall|other: Seq<char>|
                    other != id ==> #[trigger] after.active_children@.contains_key(other)
                        == before.active_children@.contains_key(other)
                &&& forall|other: Seq<char>|
                    other != id && before.active_children@.contains_key(other)
                        ==> #[trigger] after.active_children@[other]
                        == before.active_children@[other]
                &&& old_failures.contains_key(id) ==> failures == old_failures
                &&& !old_failures.contains_key(id) ==> {
                    &&& failures.contains_key(id)
                    &&& failures[id].restart_count == 0
                    &&& failures[id].last_fail_instant == now
                    &&& forall|other: Seq<char>|
                        other != id ==> #[trigger] failures.contains_key(other)
                            == old_failures.contains_key(other)
                    &&& forall|other: Seq<char>|
                        other != id && old_failures.contains_key(other)
                            ==> #[trigger] failures[other] == old_failures[other]
                }
            }
            &&& outcome matches DynamicOutcome::SpawnFailed { reason } ==> {
                let gone = ExitReason::Error(
                    ActorProcessingErr::Supervisor(
                        SupervisorError::ChildSpawnError { child_id: spec.id, reason },
                    ),
                );
                &&& after.active_children == before.active_children
                &&& spec.restart is Temporary ==> well && after.child_failure_state@
                    == before.child_failure_state@
                &&& !(spec.restart is Temporary) ==> {
                    &&& next matches DynamicWork::Retry { request, child_id, reply: waits }
                    &&& child_id == spec.id
                    &&& waits == reply
                    &&& request.reason == gone
                    &&& request.msg == (DynamicSupervisorMsg::SpawnChild { spec, reply: false })
                    &&& after.restart_handled(before, spec, true, gone, now, Some(request))
                }
            }
        },
{
}

/// How a handler goes on after any other piece of work. What was done is followed by the answer
/// that somebody waits for, if any, and by nothing else. What could not be delivered ends the
/// handler with an error, except that whoever waits for a child gets the error in its place. The
/// state stays as it is.
pub proof fn law_how_a_handler_goes_on<S, B>(
    before: DynamicSupervisorState<S, B>,
    after: DynamicSupervisorState<S, B>,
    work: DynamicWork<S, B>,
    outcome: DynamicOutcome,
    now: Timestamp,
    next: DynamicWork<S, B>,
) where B: Fn(&str, usize, Timestamp, Option<Duration>) -> Option<Duration>
    requires
        dynamic::resumed(before, after, work, outcome, now, next),
        !(work is Sleep || work is Spawn),
    ensures
        after == before,
        outcome is Spawned || outcome is SpawnFailed ==> next == work,
        work is Finished ==> next == work,
        ({
            let ended = next matches DynamicWork::Finished(result) && result is Ok;
            match work {
                DynamicWork::Retry { child_id, reply, .. } => {
                    let answer = match next {
                        DynamicWork::ReplySpawned { answer } => answer,
                        DynamicWork::Finished(result) => result,
                        _ => Ok(()),
                    };
                    &&& outcome is Done || outcome is SendFailed ==> if reply {
                        next is ReplySpawned
                    } else {
                        next is Finished
                    }
                    &&& outcome is Done ==> answer is Ok
                    &&& outcome matches DynamicOutcome::SendFailed { reason } ==> {
                        &&& answer matches Err(ActorProcessingErr::Supervisor(error))
                        &&& error == (SupervisorError::ChildSpawnError { child_id, reason })
                    }
                },
                DynamicWork::Stop { reply, .. } => {
                    &&& outcome is Done && reply ==> next is ReplyTerminated
                    &&& outcome is Done && !reply ==> ended
                    &&& outcome is SendFailed ==> next == work
                },
                DynamicWork::Finished(_) => true,
                _ => {
                    &&& outcome is Done ==> ended
                    &&& outcome matches DynamicOutcome::SendFailed { reason } ==> next
                        == DynamicWork::<S, B>::Finished(
                        Err(ActorProcessingErr::Messaging(reason)),
                    )
                },
            }
        }),
{
}

/// What the end of an actor leads to. One that failed went abnormally, one that stopped normally.
///
/// If it is one of the children it no longer is one. If it is permanent, or transient and failed,
/// the supervisor sends itself one message so that it is started again, and the failure is counted;
/// otherwise nothing is done. An actor that is not one of the children, or has no name, is refused,
/// and then nothing changes. The other children stay as they are in any case.
pub proof fn law_what_the_end_of_an_actor_leads_to<S, B>(
    before: DynamicSupervisorState<S, B>,
    after: DynamicSupervisorState<S, B>,
    evt: SupervisionEvent,
    now: Timestamp,
    work: Result<DynamicWork<S, B>, SupervisorError>,
) where B: Fn(&str, usize, Timestamp, Option<Duration>) -> Option<Duration>
    requires
        dynamic::event_handled(before, after, evt, now, work),
        evt is ActorTerminated || evt is ActorFailed,
    ensures
        ({
            let cell = match evt {
                SupervisionEvent::ActorTerminated(cell, _) => cell,
                SupervisionEvent::ActorFailed(cell, _) => cell,
                SupervisionEvent::ActorStarted(cell) => cell,
                SupervisionEvent::ProcessGroupChanged => arbitrary(),
            };
            let abnormal = evt is ActorFailed;
            let reason = match evt {
                SupervisionEvent::ActorFailed(_, text) => ExitReason::Error(
                    ActorProcessingErr::Actor(text),
                ),
                SupervisionEvent::ActorTerminated(_, text) => ExitReason::Reason(text),
                _ => arbitrary(),
            };
            &&& cell.name is None ==> {
                &&& work matches Err(error)
                &&& error == (SupervisorError::ChildNameNotSet { pid: cell.id })
                &&& after == before
            }
            &&& cell.name matches Some(name) ==> !before.active_children@.contains_key(name@) ==> {
                &&& work matches Err(error)
                &&& error == (SupervisorError::ChildNotFound { child_id: name })
                &&& after.active_children@ == before.active_children@
                &&& after.child_failure_state@ == before.child_failure_state@
            }
            &&& cell.name matches Some(name) ==> before.active_children@.contains_key(name@) ==> {
                let spec = before.active_children@[name@].spec;
                let again = spec.restart is Permanent || (spec.restart is Transient && abnormal);
                &&& work is Ok
                &&& again ==> {
                    &&& work->Ok_0 matches DynamicWork::Restart { request }
                    &&& request.msg == (DynamicSupervisorMsg::SpawnChild { spec, reply: false })
                    &&& request.reason == reason
                    &&& after.restart_handled(before, spec, abnormal, reason, now, Some(request))
                }
                &&& !again ==> {
                    &&& work->Ok_0 matches DynamicWork::Finished(result)
                    &&& result is Ok
                    &&& after.child_failure_state@ == before.child_failure_state@
                }
                &&& !after.active_children@.contains_key(name@)
                &&& forall|other: Seq<char>|
                    other != name@ ==> #[trigger] after.active_children@.contains_key(other)
                        == before.active_children@.contains_key(other)
                &&& forall|other: Seq<char>|
                    other != name@ && before.active_children@.contains_key(other)
                        ==> #[trigger] after.active_children@[other]
                        == before.active_children@[other]
            }
        }),
        after.restart_log == before.restart_log,
        after.options == before.options,
{
}

/// What the other events lead to. The start of a child is noted if nothing was known of the child;
/// the start of another actor, and a change of a process group, change nothing; and an actor
/// without a name is refused, with nothing changed.
pub proof fn law_what_the_other_events_lead_to<S, B>(
    before: DynamicSupervisorState<S, B>,
    after: DynamicSupervisorState<S, B>,
    evt: SupervisionEvent,
    now: Timestamp,
    work: Result<DynamicWork<S, B>, SupervisorError>,
) where B: Fn(&str, usize, Timestamp, Option<Duration>) -> Option<Duration>
    requires
        dynamic::event_handled(before, after, evt, now, work),
        evt is ActorStarted || evt is ProcessGroupChanged,
    ensures
        evt is ProcessGroupChanged ==> after == before && (work matches Ok(
            DynamicWork::Finished(result),
        ) && result is Ok),
        evt matches SupervisionEvent::ActorStarted(cell) ==> cell.name is None ==> {
            &&& work matches Err(error)
            &&& error == (SupervisorError::ChildNameNotSet { pid: cell.id })
            &&& after == before
        },
        evt matches SupervisionEvent::ActorStarted(cell) ==> (cell.name matches Some(name) ==> {
            let (old_failures, failures) = (
                before.child_failure_state@,
                after.child_failure_state@,
            );
            let new = before.active_children@.contains_key(name@) && !old_failures.contains_key(
                name@,
            );
            &&& work matches Ok(DynamicWork::Finished(result))
            &&& result is Ok
            &&& !new ==> failures == old_failures
            &&& new ==> {
                &&& failures.contains_key(name@)
                &&& failures[name@].restart_count == 0
                &&& failures[name@].last_fail_instant == now
                &&& forall|other: Seq<char>|
                    other != name@ ==> #[trigger] failures.contains_key(other)
                        == old_failures.contains_key(other)
                &&& forall|other: Seq<char>|
                    other != name@ && old_failures.contains_key(other)
                        ==> #[trigger] failures[other] == old_failures[other]
            }
            &&& after.active_children == before.active_children
            &&& after.restart_log == before.restart_log
            &&& after.options == before.options
        }),
{
}

} // verus!
