//! What the handlers of the supervisor of a fixed list of children do, said of their inputs and
//! results.
use vstd::prelude::*;
use crate::actor::{ActorCell, ActorProcessingErr, ExitReason, SupervisionEvent, SupervisorError};
use crate::child::ChildSpec;
use crate::plan;
use crate::plan::{PlannedTask, SupervisorOutcome, SupervisorTask, SupervisorWork};
use crate::restart::{CoreSupervisorOptions, RestartEntry, RestartRequest};
use crate::restart_laws;
use crate::supervisor;
use crate::supervisor::{SupervisorMsg, SupervisorState, SupervisorStrategy};
use crate::time::{Duration, Timestamp};

verus! {

/// What a restart does to the log, for a log whose restarts are in order. The restart is at the end
/// of the log. If the one before it lies at least `reset_after` back, it is alone there. Otherwise
/// the log loses from its beginning exactly those restarts that lie more than `max_window` back and
/// keeps the others. The supervisor gives up exactly if more than `max_restarts` are left. Nothing
/// else changes, and the log stays in order.
pub proof fn law_a_restart_is_logged<S, B>(
    before: SupervisorState<S, B>,
    after: SupervisorState<S, B>,
    child_id: Seq<char>,
    now: Timestamp,
    result: Result<(), SupervisorError>,
) where B: Fn(&str, usize, Timestamp, Option<Duration>) -> Option<Duration>
    requires
        after.restart_logged(before, child_id, now, result),
        forall|i: int, j: int|
            0 <= i <= j < before.restart_log@.len() ==> (
            #[trigger] before.restart_log@[i]).timestamp.nanos <= (
            #[trigger] before.restart_log@[j]).timestamp.nanos,
        before.restart_log@.len() > 0 ==> before.restart_log@.last().timestamp.nanos <= now.nanos,
    ensures
        ({
            let old_log = before.restart_log@;
            let new_log = after.restart_log@;
            let lost = old_log.len() + 1 - new_log.len();
            let paused = old_log.len() > 0 && (before.options.reset_after matches Some(span)
                && now.nanos - old_log.last().timestamp.nanos >= span.nanos);
            &&& 1 <= new_log.len() <= old_log.len() + 1
            &&& new_log.last().child_id@ == child_id
            &&& new_log.last().timestamp == now
            &&& paused ==> new_log.len() == 1
            &&& !paused ==> {
                &&& forall|k: int|
                    0 <= k < new_log.len() - 1 ==> {
                        &&& (#[trigger] new_log[k]).child_id@ == old_log[lost + k].child_id@
                        &&& new_log[k].timestamp == old_log[lost + k].timestamp
                    }
                &&& forall|i: int|
                    0 <= i < lost ==> now.nanos - (#[trigger] old_log[i]).timestamp.nanos
                        > before.options.max_window.nanos
                &&& forall|i: int|
                    lost <= i < old_log.len() ==> now.nanos - (
                    #[trigger] old_log[i]).timestamp.nanos <= before.options.max_window.nanos
            }
            &&& forall|i: int, j: int|
                0 <= i <= j < new_log.len() ==> (#[trigger] new_log[i]).timestamp.nanos <= (
                #[trigger] new_log[j]).timestamp.nanos
        }),
        result is Err <==> after.restart_log@.len() > before.options.max_restarts,
        result matches Err(error) ==> (error matches SupervisorError::Meltdown { reason }
            && reason@ == "max_restarts exceeded"@),
        after.child_failure_state == before.child_failure_state,
        after.child_specs == before.child_specs,
        after.options == before.options,
{
    let limits = before.options.limits();
    let entry = RestartEntry { child_id, timestamp: now };
    let (old_log, new_log) = (before.restart_log@, after.restart_log@);
    let (old_view, new_view) = (before.log(), after.log());
    assert forall|i: int| 0 <= i < old_log.len() implies #[trigger] old_view[i]
        == old_log[i]@ by {}
    assert forall|i: int| 0 <= i < new_log.len() implies (#[trigger] new_log[i])@
        == new_view[i] by {}
    restart_laws::law_a_restart_pushes_out_what_lies_before_the_window(old_view, limits, entry);
    let lost = old_log.len() + 1 - new_log.len();
    assert(old_view.len() == old_log.len() && new_view.len() == new_log.len());
    assert(new_log.last()@ == new_view.last());
    if old_log.len() > 0 {
        assert(old_log.last()@ == old_view.last());
    }
    assert forall|i: int| 0 <= i < lost && new_log.len() > 1 implies now.nanos - (
    #[trigger] old_log[i]).timestamp.nanos > before.options.max_window.nanos by {
        assert(old_view[i] == old_log[i]@);
    }
    assert forall|i: int| 0 <= i < old_log.len() implies (
    #[trigger] old_log[i]).timestamp == old_view[i].timestamp by {
        assert(old_view[i] == old_log[i]@);
    }
    assert forall|k: int| 0 <= k < new_log.len() - 1 && new_view[k] == old_view[lost
        + k] implies (#[trigger] new_log[k]).child_id@ == old_log[lost + k].child_id@
        && new_log[k].timestamp == old_log[lost + k].timestamp by {
        assert(new_log[k]@ == new_view[k]);
        assert(old_view[lost + k] == old_log[lost + k]@);
    }
    assert forall|i: int, j: int| 0 <= i <= j < new_log.len() implies (
    #[trigger] new_log[i]).timestamp.nanos <= (#[trigger] new_log[j]).timestamp.nanos by {
        let last = new_log.len() - 1;
        if i < last {
            assert(new_view[i] == old_view[lost + i]);
            assert(new_log[i].timestamp == old_log[lost + i].timestamp);
            if j < last {
                assert(new_view[j] == old_view[lost + j]);
                assert(new_log[j].timestamp == old_log[lost + j].timestamp);
            } else {
                assert(old_log[lost + i].timestamp.nanos <= old_log[old_log.len()
                    - 1].timestamp.nanos);
            }
        }
    }
}

/// Restarts that lie further apart than `max_window` never count together: a supervisor that
/// tolerates one restart never gives up over them. `befores` and `afters` are the states before and
/// after the handling of each, whatever was handled in between.
pub proof fn law_restarts_far_apart_are_no_meltdown<S, B>(
    befores: Seq<SupervisorState<S, B>>,
    afters: Seq<SupervisorState<S, B>>,
    ids: Seq<Seq<char>>,
    times: Seq<Timestamp>,
    results: Seq<Result<(), SupervisorError>>,
) where B: Fn(&str, usize, Timestamp, Option<Duration>) -> Option<Duration>
    requires
        times.len() > 0,
        befores.len() == times.len(),
        afters.len() == times.len(),
        befores[0].restart_log@.len() == 0,
        befores[0].options.max_restarts >= 1,
        forall|k: int|
            0 <= k < times.len() ==> (#[trigger] afters[k]).restart_logged(
                befores[k],
                ids[k],
                times[k],
                results[k],
            ),
        forall|k: int|
            0 < k < times.len() ==> {
                &&& (#[trigger] befores[k]).restart_log == afters[k - 1].restart_log
                &&& befores[k].options == afters[k - 1].options
                &&& times[k].nanos - times[k - 1].nanos > befores[0].options.max_window.nanos
            },
    ensures
        forall|k: int| 0 <= k < times.len() ==> #[trigger] results[k] is Ok,
        afters.last().restart_log@.len() == 1,
        afters.last().restart_log@[0].timestamp == times.last(),
        afters.last().options == befores[0].options,
    decreases times.len(),
{
    let n = times.len() - 1;
    let (before, after) = (befores[n], afters[n]);
    assert(after.restart_logged(before, ids[n], times[n], results[n]));
    if n > 0 {
        let (befores_0, afters_0) = (befores.drop_last(), afters.drop_last());
        let times_0 = times.drop_last();
        assert forall|k: int| 0 <= k < times_0.len() implies (
        #[trigger] afters_0[k]).restart_logged(
            befores_0[k],
            ids[k],
            times_0[k],
            results[k],
        ) by {
            assert(afters[k].restart_logged(befores[k], ids[k], times[k], results[k]));
        }
        assert forall|k: int| 0 < k < times_0.len() implies {
            &&& (#[trigger] befores_0[k]).restart_log == afters_0[k - 1].restart_log
            &&& befores_0[k].options == afters_0[k - 1].options
            &&& times_0[k].nanos - times_0[k - 1].nanos > befores_0[0].options.max_window.nanos
        } by {
            assert(befores[k].restart_log == afters[k - 1].restart_log);
        }
        law_restarts_far_apart_are_no_meltdown(befores_0, afters_0, ids, times_0, results);
        assert(before.restart_log == afters[n - 1].restart_log);
        assert(afters_0.last() == afters[n - 1]);
        assert(times_0.last() == times[n - 1]);
    }
    law_a_restart_is_logged(before, after, ids[n], times[n], results[n]);
    if n > 0 && after.restart_log@.len() == 2 {
        assert(before.restart_log@[0].timestamp == times[n - 1]);
        assert(times[n].nanos - before.restart_log@[0].timestamp.nanos
            > before.options.max_window.nanos);
    }
    assert(after.restart_log@.len() == 1);
    assert forall|k: int| 0 <= k < times.len() implies #[trigger] results[k] is Ok by {}
}

/// Restarts that all lie within `max_window` of the latest, with no pause of `reset_after` between
/// them, all count: the supervisor gives up over the latest exactly if there are more of them than
/// `max_restarts`.
pub proof fn law_restarts_close_together_all_count<S, B>(
    befores: Seq<SupervisorState<S, B>>,
    afters: Seq<SupervisorState<S, B>>,
    ids: Seq<Seq<char>>,
    times: Seq<Timestamp>,
    results: Seq<Result<(), SupervisorError>>,
) where B: Fn(&str, usize, Timestamp, Option<Duration>) -> Option<Duration>
    requires
        times.len() > 0,
        befores.len() == times.len(),
        afters.len() == times.len(),
        befores[0].restart_log@.len() == 0,
        forall|k: int|
            0 <= k < times.len() ==> (#[trigger] afters[k]).restart_logged(
                befores[k],
                ids[k],
                times[k],
                results[k],
            ),
        forall|k: int|
            0 < k < times.len() ==> {
                &&& (#[trigger] befores[k]).restart_log == afters[k - 1].restart_log
                &&& befores[k].options == afters[k - 1].options
                &&& times[k - 1].nanos <= times[k].nanos
                &&& befores[0].options.reset_after matches Some(span) ==> times[k].nanos - times[k
                    - 1].nanos < span.nanos
            },
        times.last().nanos - times[0].nanos <= befores[0].options.max_window.nanos,
    ensures
        afters.last().restart_log@.len() == times.len(),
        forall|k: int|
            0 <= k < times.len() ==> {
                &&& (#[trigger] afters.last().restart_log@[k]).timestamp == times[k]
                &&& afters.last().restart_log@[k].child_id@ == ids[k]
            },
        forall|i: int, j: int|
            0 <= i <= j < times.len() ==> (#[trigger] times[i]).nanos <= (
            #[trigger] times[j]).nanos,
        results[times.len() - 1] is Err <==> times.len() > befores[0].options.max_restarts,
        afters.last().options == befores[0].options,
    decreases times.len(),
{
    let n = times.len() - 1;
    let (before, after) = (befores[n], afters[n]);
    assert(after.restart_logged(before, ids[n], times[n], results[n]));
    if n > 0 {
        let (befores_0, afters_0) = (befores.drop_last(), afters.drop_last());
        let times_0 = times.drop_last();
        assert forall|k: int| 0 <= k < times_0.len() implies (
        #[trigger] afters_0[k]).restart_logged(
            befores_0[k],
            ids[k],
            times_0[k],
            results[k],
        ) by {
            assert(afters[k].restart_logged(befores[k], ids[k], times[k], results[k]));
        }
        assert forall|k: int| 0 < k < times_0.len() implies {
            &&& (#[trigger] befores_0[k]).restart_log == afters_0[k - 1].restart_log
            &&& befores_0[k].options == afters_0[k - 1].options
            &&& times_0[k - 1].nanos <= times_0[k].nanos
            &&& befores_0[0].options.reset_after matches Some(span) ==> times_0[k].nanos
                - times_0[k - 1].nanos < span.nanos
        } by {
            assert(befores[k].restart_log == afters[k - 1].restart_log);
        }
        assert(before.restart_log == afters[n - 1].restart_log);
        assert(times_0.last() == times[n - 1]);
        law_restarts_close_together_all_count(befores_0, afters_0, ids, times_0, results);
        assert(afters_0.last() == afters[n - 1]);
        let log = before.restart_log@;
        assert forall|k: int| 0 <= k < log.len() implies (#[trigger] log[k]).timestamp
            == times[k] && log[k].child_id@ == ids[k] by {
            assert(afters_0.last().restart_log@[k].timestamp == times_0[k]);
        }
        assert forall|i: int, j: int| 0 <= i <= j < times.len() implies (
        #[trigger] times[i]).nanos <= (#[trigger] times[j]).nanos by {
            if j < n {
                assert(times_0[i].nanos <= times_0[j].nanos);
            } else if i < n {
                assert(times_0[i].nanos <= times_0[n - 1].nanos);
            }
        }
        assert forall|i: int, j: int| 0 <= i <= j < log.len() implies (
        #[trigger] log[i]).timestamp.nanos <= (#[trigger] log[j]).timestamp.nanos by {
            assert(times[i].nanos <= times[j].nanos);
        }
    }
    law_a_restart_is_logged(before, after, ids[n], times[n], results[n]);
    let lost = before.restart_log@.len() + 1 - after.restart_log@.len();
    if lost > 0 {
        assert(before.restart_log@[0].timestamp == times[0]);
        assert(times[n].nanos - before.restart_log@[0].timestamp.nanos
            > before.options.max_window.nanos);
    }
    assert(lost == 0);
    assert forall|k: int| 0 <= k < times.len() implies (
    #[trigger] after.restart_log@[k]).timestamp == times[k]
        && after.restart_log@[k].child_id@ == ids[k] by {
        if k < n {
            assert(before.restart_log@[lost + k].timestamp == times[k]);
        }
    }
}

/// What the supervisor does about a child that has gone. A permanent child is started again, a
/// transient one if it went abnormally, a temporary one not. If it is not, nothing changes. If it
/// is, one failure of this child is counted and nothing of another: the count is one if nothing was
/// known of the child or its last failure lies at least `reset_after` back, and one more than
/// before otherwise. The supervisor sends itself one message, which names the
/// child, by its strategy.
/// The delay is what the child's own backoff function gives for the child's id, that count, the
/// time of the failure and the child's `reset_after`, or none without such a function.
pub proof fn law_what_is_done_about_a_gone_child<S, B>(
    before: SupervisorState<S, B>,
    after: SupervisorState<S, B>,
    spec: ChildSpec<S, B>,
    abnormal: bool,
    reason: ExitReason,
    now: Timestamp,
    request: Option<RestartRequest<SupervisorMsg>>,
) where B: Fn(&str, usize, Timestamp, Option<Duration>) -> Option<Duration>
    requires
        after.restart_handled(before, spec, abnormal, reason, now, request),
    ensures
        request is Some <==> (spec.restart is Permanent || (spec.restart is Transient && abnormal)),
        request is None ==> after.child_failure_state@ == before.child_failure_state@,
        request matches Some(request) ==> {
            let (old_failures, failures) = (
                before.child_failure_state@,
                after.child_failure_state@,
            );
            let id = spec.id@;
            let known = old_failures.contains_key(id);
            let last = old_failures[id].last_fail_instant.nanos;
            let passed = if last <= now.nanos {
                now.nanos - last
            } else {
                0
            };
            let paused = spec.reset_after matches Some(span) && passed >= span.nanos;
            &&& request.msg == match before.options.strategy {
                SupervisorStrategy::OneForOne => SupervisorMsg::OneForOneSpawn {
                    child_id: spec.id,
                },
                SupervisorStrategy::OneForAll => SupervisorMsg::OneForAllSpawn {
                    child_id: spec.id,
                },
                SupervisorStrategy::RestForOne => SupervisorMsg::RestForOneSpawn {
                    child_id: spec.id,
                },
            }
            &&& request.reason == reason
            &&& failures.contains_key(id)
            &&& failures[id].last_fail_instant == now
            &&& !known || paused ==> failures[id].restart_count == 1
            &&& known && !paused && old_failures[id].restart_count < usize::MAX
                ==> failures[id].restart_count == old_failures[id].restart_count + 1
            &&& known && !paused && old_failures[id].restart_count == usize::MAX
                ==> failures[id].restart_count == usize::MAX
            &&& forall|other: Seq<char>|
                other != id ==> #[trigger] failures.contains_key(other)
                    == old_failures.contains_key(other)
            &&& forall|other: Seq<char>|
                other != id && old_failures.contains_key(other) ==> #[trigger] failures[other]
                    == old_failures[other]
            &&& spec.backoff_fn is None ==> request.delay is None
            &&& spec.backoff_fn matches Some(backoff) ==> exists|name: &str|
                name@ == id && #[trigger] call_ensures(
                    backoff.function(),
                    (name, failures[id].restart_count, now, spec.reset_after),
                    request.delay,
                )
        },
        after.child_specs == before.child_specs,
        after.restart_log == before.restart_log,
        after.options == before.options,
{
}

/// A backoff function that always gives the same delay, or always none, sets the delay of the
/// message that has a child started again, whatever that delay is.
pub proof fn law_a_constant_backoff_delays_the_restart<S, B>(
    before: SupervisorState<S, B>,
    after: SupervisorState<S, B>,
    spec: ChildSpec<S, B>,
    abnormal: bool,
    reason: ExitReason,
    now: Timestamp,
    request: RestartRequest<SupervisorMsg>,
    wanted: Option<Duration>,
) where B: Fn(&str, usize, Timestamp, Option<Duration>) -> Option<Duration>
    requires
        after.restart_handled(before, spec, abnormal, reason, now, Some(request)),
        spec.backoff_fn matches Some(backoff) && forall|
            name: &str,
            count: usize,
            at: Timestamp,
            reset_after: Option<Duration>,
            given: Option<Duration>,
        | #[trigger]
            call_ensures(backoff.function(), (name, count, at, reset_after), given) ==> given
                == wanted,
    ensures
        request.delay == wanted,
{
}

/// The supervisor spawns its children when it starts, and again after `OneForAllSpawn`, in the
/// order of the list: the tasks are as many as the children, and each spawns the child that stands
/// in the list where the task stands among the tasks.
pub proof fn law_all_children_are_spawned_in_order<S, B>(
    specs: Seq<ChildSpec<S, B>>,
    work: SupervisorWork<S, B>,
) where B: Fn(&str, usize, Timestamp, Option<Duration>) -> Option<Duration>
    requires
        work.carries_out(plan::spawns(specs)),
    ensures
        specs.len() == 0 ==> (work matches SupervisorWork::Finished(result) && result is Ok),
        specs.len() > 0 ==> {
            &&& work matches SupervisorWork::Perform { task, rest }
            &&& task == (SupervisorTask::SpawnChild { spec: specs[0] })
            &&& rest@.len() == specs.len() - 1
            &&& forall|k: int|
                0 < k < specs.len() ==> rest@[k - 1] == (SupervisorTask::SpawnChild {
                    spec: #[trigger] specs[k],
                })
        },
{
    match work {
        SupervisorWork::Perform { task, rest } => {
            assert(plan::spawns(specs)[0] == PlannedTask::SpawnChild { spec: specs[0] });
            assert forall|k: int| 0 < k < specs.len() implies rest@[k - 1] == (
            SupervisorTask::SpawnChild { spec: #[trigger] specs[k] }) by {
                lemma_task_at(plan::spawns(specs), rest@, k);
                assert(plan::spawns(specs)[k] == PlannedTask::SpawnChild { spec: specs[k] });
            }
        },
        _ => {},
    }
}

/// The tasks after the first one of a plan.
proof fn lemma_task_at<S, B>(
    planned: Seq<PlannedTask<S, B>>,
    rest: Seq<SupervisorTask<S, B>>,
    k: int,
) where B: Fn(&str, usize, Timestamp, Option<Duration>) -> Option<Duration>
    requires
        plan::tasks_view(rest) == planned.skip(1),
        0 < k < planned.len(),
    ensures
        rest.len() == planned.len() - 1,
        rest[k - 1]@ == planned[k],
{
    assert(plan::tasks_view(rest).len() == rest.len());
    assert(plan::tasks_view(rest)[k - 1] == rest[k - 1]@);
    assert(planned.skip(1)[k - 1] == planned[k]);
}

/// Whether the actor at `a` bears `name`, and none after it does.
pub open spec fn is_last_named(children: Seq<ActorCell>, a: int, name: Seq<char>) -> bool {
    &&& 0 <= a < children.len()
    &&& children[a].name is Some
    &&& children[a].name->Some_0@ == name
    &&& forall|b: int|
        a < b < children.len() ==> !((#[trigger] children[b]).name is Some
            && children[b].name->Some_0@ == name)
}

/// A child found by its name is the last of the children that have it.
proof fn lemma_last_named(children: Seq<ActorCell>, name: Seq<char>)
    ensures
        plan::child_named(children, name) matches Some(cell) ==> exists|a: int| #[trigger]
            is_last_named(children, a, name) && children[a] == cell,
        plan::child_named(children, name) is None ==> forall|a: int|
            0 <= a < children.len() ==> !(#[trigger] children[a]).is_named(name),
    decreases children.len(),
{
    if children.len() > 0 {
        let front = children.drop_last();
        let last = children.len() - 1;
        lemma_last_named(front, name);
        if children.last().is_named(name) {
            assert(is_last_named(children, last, name));
        } else {
            match plan::child_named(front, name) {
                Some(cell) => {
                    let a = choose|a: int| #[trigger]
                        is_last_named(front, a, name) && front[a] == cell;
                    assert(children[a] == front[a]);
                    assert forall|b: int| a < b < children.len() implies !((
                    #[trigger] children[b]).name is Some && children[b].name->Some_0@ == name) by {
                        if b < last {
                            assert(front[b] == children[b]);
                        } else {
                            assert(children[b] == children.last());
                        }
                    }
                    assert(is_last_named(children, a, name));
                },
                None => {
                    assert forall|a: int| 0 <= a < children.len() implies !(
                    #[trigger] children[a]).is_named(name) by {
                        if a < last {
                            assert(front[a] == children[a]);
                        }
                    }
                },
            }
        }
    }
}

/// The children that a list describes: each is the last of the children that bear the id of its
/// spec, and each such child is among them.
proof fn lemma_described<S, B>(specs: Seq<ChildSpec<S, B>>, children: Seq<ActorCell>) where
    B: Fn(&str, usize, Timestamp, Option<Duration>) -> Option<Duration>,

    ensures
        forall|c: int|
            0 <= c < plan::cells_of(specs, children).len() ==> exists|k: int|
                0 <= k < specs.len() && plan::child_named(
                    children,
                    (#[trigger] specs[k]).id@,
                ) == Some(#[trigger] plan::cells_of(specs, children)[c]),
        forall|k: int|
            0 <= k < specs.len() ==> (plan::child_named(
                children,
                (#[trigger] specs[k]).id@,
            ) matches Some(cell) ==> plan::cells_of(specs, children).contains(cell)),
    decreases specs.len(),
{
    if specs.len() > 0 {
        let front = specs.drop_last();
        let last = specs.last();
        let cells = plan::cells_of(specs, children);
        let cells_0 = plan::cells_of(front, children);
        lemma_described(front, children);
        assert(specs[specs.len() - 1] == last);
        assert forall|c: int| 0 <= c < cells.len() implies exists|k: int|
            0 <= k < specs.len() && plan::child_named(children, (#[trigger] specs[k]).id@) == Some(
                #[trigger] cells[c],
            ) by {
            if c < cells_0.len() {
                assert(cells[c] == cells_0[c]);
                let k = choose|k: int|
                    0 <= k < front.len() && plan::child_named(
                        children,
                        (#[trigger] front[k]).id@,
                    ) == Some(cells_0[c]);
                assert(specs[k] == front[k]);
            } else {
                assert(plan::child_named(children, specs[specs.len() - 1].id@) == Some(cells[c]));
            }
        }
        assert forall|k: int| 0 <= k < specs.len() implies (plan::child_named(
            children,
            (#[trigger] specs[k]).id@,
        ) matches Some(cell) ==> cells.contains(cell)) by {
            match plan::child_named(children, specs[k].id@) {
                Some(cell) => {
                    if k < front.len() {
                        assert(front[k] == specs[k]);
                        assert(cells_0.contains(cell));
                        let c = choose|c: int| 0 <= c < cells_0.len() && cells_0[c] == cell;
                        assert(cells[c] == cell);
                    } else {
                        assert(cells[cells.len() - 1] == cell);
                    }
                },
                None => {},
            }
        }
    }
}

/// What a message has the supervisor do, unless it gives up. `i` is where the first child of the
/// message's id stands in the list, or the length of the list if there is none.
///
/// After `OneForOneSpawn` only that child is spawned. After `OneForAllSpawn` all linked actors are
/// stopped, with half a second for each, and after ten milliseconds all children of the list are
/// spawned. After `RestForOneSpawn` the linked actors that bear the id of that child or of one
/// after it are killed (where several bear the same, the last of them), no others are, and after
/// ten milliseconds that child and all after it are spawned. Children are spawned in the order of
/// the list. After `InspectState` the state is handed out.
pub proof fn law_what_a_message_leads_to<S, B>(
    before: SupervisorState<S, B>,
    after: SupervisorState<S, B>,
    msg: SupervisorMsg,
    children: Seq<ActorCell>,
    now: Timestamp,
    work: SupervisorWork<S, B>,
    i: int,
) where B: Fn(&str, usize, Timestamp, Option<Duration>) -> Option<Duration>
    requires
        supervisor::handled(before, after, msg, children, now, Ok(work)),
        0 <= i <= before.child_specs@.len(),
        ({
            let id = match msg {
                SupervisorMsg::OneForOneSpawn { child_id } => child_id@,
                SupervisorMsg::OneForAllSpawn { child_id } => child_id@,
                SupervisorMsg::RestForOneSpawn { child_id } => child_id@,
                SupervisorMsg::InspectState => Seq::<char>::empty(),
            };
            &&& i < before.child_specs@.len() ==> before.child_specs@[i].id@ == id
            &&& forall|j: int| 0 <= j < i ==> (#[trigger] before.child_specs@[j]).id@ != id
        }),
    ensures
        after.child_specs == before.child_specs,
        after.child_failure_state == before.child_failure_state,
        after.options == before.options,
        ({
            let specs = before.child_specs@;
            match msg {
                SupervisorMsg::OneForOneSpawn { .. } => if i < specs.len() {
                    &&& work matches SupervisorWork::Perform { task, rest }
                    &&& task == (SupervisorTask::SpawnChild { spec: specs[i] })
                    &&& rest@.len() == 0
                } else {
                    work matches SupervisorWork::Finished(result) && result is Ok
                },
                SupervisorMsg::OneForAllSpawn { .. } => {
                    &&& work matches SupervisorWork::Perform { task, rest }
                    &&& task matches SupervisorTask::StopChildren { cells, timeout }
                    &&& cells@ == children
                    &&& timeout.nanos == 500_000_000
                    &&& rest@.len() == 1 + specs.len()
                    &&& rest@[0] matches SupervisorTask::Sleep { duration }
                    &&& duration.nanos == 10_000_000
                    &&& forall|k: int|
                        0 <= k < specs.len() ==> rest@[1 + k] == (SupervisorTask::SpawnChild {
                            spec: #[trigger] specs[k],
                        })
                },
                SupervisorMsg::RestForOneSpawn { .. } => if i < specs.len() {
                    &&& work matches SupervisorWork::Perform { task, rest }
                    &&& task matches SupervisorTask::KillChildren { cells }
                    &&& forall|cell: ActorCell| #[trigger]
                        cells@.contains(cell) ==> exists|k: int, a: int|
                            i <= k < specs.len() && children[a] == cell
                                && #[trigger] is_last_named(children, a, specs[k].id@)
                    &&& forall|k: int, a: int|
                        i <= k < specs.len() && #[trigger] is_last_named(children, a, specs[k].id@)
                            ==> cells@.contains(children[a])
                    &&& rest@.len() == 1 + specs.len() - i
                    &&& rest@[0] matches SupervisorTask::Sleep { duration }
                    &&& duration.nanos == 10_000_000
                    &&& forall|k: int|
                        i <= k < specs.len() ==> rest@[1 + k - i] == (SupervisorTask::SpawnChild {
                            spec: #[trigger] specs[k],
                        })
                } else {
                    work matches SupervisorWork::Finished(result) && result is Ok
                },
                SupervisorMsg::InspectState => {
                    &&& after == before
                    &&& work matches SupervisorWork::Perform { task, rest }
                    &&& task is ReplyState
                    &&& rest@.len() == 0
                },
            }
        }),
{
    let specs = before.child_specs@;
    let planned = supervisor::plan_of(msg, specs, children);
    match msg {
        SupervisorMsg::OneForOneSpawn { child_id } => {
            lemma_first_at(specs, child_id@, i);
        },
        SupervisorMsg::OneForAllSpawn { .. } => {
            match work {
                SupervisorWork::Perform { task, rest } => {
                    assert(planned[0] == task@);
                    lemma_task_at(planned, rest@, 1);
                    assert forall|k: int| 0 <= k < specs.len() implies rest@[1 + k] == (
                    SupervisorTask::SpawnChild { spec: #[trigger] specs[k] }) by {
                        lemma_task_at(planned, rest@, 2 + k);
                        assert(planned[2 + k] == plan::spawns(specs)[k]);
                    }
                },
                _ => {},
            }
        },
        SupervisorMsg::RestForOneSpawn { child_id } => {
            lemma_first_at(specs, child_id@, i);
            if i < specs.len() {
                let tail = specs.skip(i);
                match work {
                    SupervisorWork::Perform { task, rest } => {
                        assert(planned[0] == task@);
                        lemma_task_at(planned, rest@, 1);
                        assert forall|k: int| i <= k < specs.len() implies rest@[1 + k - i] == (
                        SupervisorTask::SpawnChild { spec: #[trigger] specs[k] }) by {
                            lemma_task_at(planned, rest@, 2 + k - i);
                            assert(planned[2 + k - i] == plan::spawns(tail)[k - i]);
                            assert(tail[k - i] == specs[k]);
                        }
                        lemma_killed(specs, i, children);
                    },
                    _ => {},
                }
            }
        },
        SupervisorMsg::InspectState => {},
    }
}

/// Where the first child of an id stands.
proof fn lemma_first_at<S, B>(specs: Seq<ChildSpec<S, B>>, id: Seq<char>, i: int) where
    B: Fn(&str, usize, Timestamp, Option<Duration>) -> Option<Duration>,

    requires
        0 <= i <= specs.len(),
        i < specs.len() ==> specs[i].id@ == id,
        forall|j: int| 0 <= j < i ==> (#[trigger] specs[j]).id@ != id,
    ensures
        plan::position(specs, id) == i,
{
    let p = plan::position(specs, id) as int;
    plan::lemma_position(specs, id);
    if p < i {
        assert(specs[p].id@ != id);
    } else if i < p {
        assert(specs[i].id@ != id);
    }
}

/// Which of the children are killed for the child at `i` and those after it.
proof fn lemma_killed<S, B>(
    specs: Seq<ChildSpec<S, B>>,
    i: int,
    children: Seq<ActorCell>,
) where B: Fn(&str, usize, Timestamp, Option<Duration>) -> Option<Duration>
    requires
        0 <= i < specs.len(),
    ensures
        ({
            let cells = plan::cells_of(specs.skip(i), children);
            &&& forall|cell: ActorCell| #[trigger]
                cells.contains(cell) ==> exists|k: int, a: int|
                    i <= k < specs.len() && #[trigger] is_last_named(children, a, specs[k].id@)
                        && children[a] == cell
            &&& forall|k: int, a: int|
                i <= k < specs.len() && #[trigger] is_last_named(children, a, specs[k].id@)
                    ==> cells.contains(children[a])
        }),
{
    let tail = specs.skip(i);
    let cells = plan::cells_of(tail, children);
    lemma_described(tail, children);
    assert forall|cell: ActorCell| #[trigger] cells.contains(cell) implies exists|k: int, a: int|
        i <= k < specs.len() && #[trigger] is_last_named(children, a, specs[k].id@) && children[a]
            == cell by {
        let c = choose|c: int| 0 <= c < cells.len() && cells[c] == cell;
        let t = choose|t: int|
            0 <= t < tail.len() && plan::child_named(children, (#[trigger] tail[t]).id@) == Some(
                cells[c],
            );
        let name = tail[t].id@;
        lemma_last_named(children, name);
        let a = choose|a: int| #[trigger]
            is_last_named(children, a, name) && children[a] == cells[c];
        assert(specs[i + t] == tail[t]);
        assert(is_last_named(children, a, specs[i + t].id@));
    }
    assert forall|k: int, a: int|
        i <= k < specs.len() && #[trigger] is_last_named(
            children,
            a,
            specs[k].id@,
        ) implies cells.contains(children[a]) by {
        let name = specs[k].id@;
        assert(tail[k - i] == specs[k]);
        lemma_last_named(children, name);
        assert(children[a].is_named(name));
        let cell = plan::child_named(children, name)->Some_0;
        let b = choose|b: int| #[trigger] is_last_named(children, b, name) && children[b] == cell;
        assert(a == b);
    }
}

/// The children that a list describes come in the order of the list.
proof fn lemma_described_in_order<S, B>(
    specs: Seq<ChildSpec<S, B>>,
    children: Seq<ActorCell>,
    c1: int,
    c2: int,
    k1: int,
    k2: int,
) where B: Fn(&str, usize, Timestamp, Option<Duration>) -> Option<Duration>
    requires
        forall|a: int, b: int|
            0 <= a < b < specs.len() ==> (#[trigger] specs[a]).id@ != (#[trigger] specs[b]).id@,
        0 <= c1 < c2 < plan::cells_of(specs, children).len(),
        0 <= k1 < specs.len(),
        0 <= k2 < specs.len(),
        plan::cells_of(specs, children)[c1].is_named(specs[k1].id@),
        plan::cells_of(specs, children)[c2].is_named(specs[k2].id@),
    ensures
        k1 < k2,
    decreases specs.len(),
{
    let front = specs.drop_last();
    let last = specs.len() - 1;
    let cells = plan::cells_of(specs, children);
    let cells_0 = plan::cells_of(front, children);
    lemma_described(front, children);
    assert(specs[last] == specs.last());
    assert(cells[c1] == cells_0[c1]);
    let f1 = choose|k: int|
        0 <= k < front.len() && plan::child_named(children, (#[trigger] front[k]).id@) == Some(
            cells_0[c1],
        );
    lemma_last_named(children, front[f1].id@);
    assert(specs[f1] == front[f1]);
    assert(k1 == f1);
    if c2 < cells_0.len() {
        assert(cells[c2] == cells_0[c2]);
        let f2 = choose|k: int|
            0 <= k < front.len() && plan::child_named(children, (#[trigger] front[k]).id@) == Some(
                cells_0[c2],
            );
        lemma_last_named(children, front[f2].id@);
        assert(specs[f2] == front[f2]);
        assert(k2 == f2);
        assert forall|a: int, b: int| 0 <= a < b < front.len() implies (
        #[trigger] front[a]).id@ != (#[trigger] front[b]).id@ by {
            assert(front[a] == specs[a] && front[b] == specs[b]);
        }
        lemma_described_in_order(front, children, c1, c2, k1, k2);
    } else {
        lemma_last_named(children, specs.last().id@);
        assert(k2 == last);
    }
}

/// After `RestForOneSpawn` children are killed in the order of the list, each once, if no two of
/// the list have the same id.
pub proof fn law_children_are_killed_in_order<S, B>(
    before: SupervisorState<S, B>,
    after: SupervisorState<S, B>,
    child_id: String,
    children: Seq<ActorCell>,
    now: Timestamp,
    cells: Vec<ActorCell>,
    rest: Vec<SupervisorTask<S, B>>,
    c1: int,
    c2: int,
    k1: int,
    k2: int,
) where B: Fn(&str, usize, Timestamp, Option<Duration>) -> Option<Duration>
    requires
        supervisor::handled(
            before,
            after,
            SupervisorMsg::RestForOneSpawn { child_id },
            children,
            now,
            Ok(SupervisorWork::Perform { task: SupervisorTask::KillChildren { cells }, rest }),
        ),
        forall|a: int, b: int|
            0 <= a < b < before.child_specs@.len() ==> (#[trigger] before.child_specs@[a]).id@ != (
            #[trigger] before.child_specs@[b]).id@,
        0 <= c1 < c2 < cells@.len(),
        0 <= k1 < before.child_specs@.len(),
        0 <= k2 < before.child_specs@.len(),
        cells@[c1].name matches Some(name) && name@ == before.child_specs@[k1].id@,
        cells@[c2].name matches Some(name) && name@ == before.child_specs@[k2].id@,
    ensures
        k1 < k2,
{
    let specs = before.child_specs@;
    let i = plan::position(specs, child_id@) as int;
    plan::lemma_position(specs, child_id@);
    let tail = specs.skip(i);
    lemma_described(tail, children);
    let t1 = choose|k: int|
        0 <= k < tail.len() && plan::child_named(children, (#[trigger] tail[k]).id@) == Some(
            cells@[c1],
        );
    let t2 = choose|k: int|
        0 <= k < tail.len() && plan::child_named(children, (#[trigger] tail[k]).id@) == Some(
            cells@[c2],
        );
    lemma_last_named(children, tail[t1].id@);
    lemma_last_named(children, tail[t2].id@);
    assert(specs[i + t1] == tail[t1] && specs[i + t2] == tail[t2]);
    assert(k1 == i + t1 && k2 == i + t2);
    assert forall|a: int, b: int| 0 <= a < b < tail.len() implies (#[trigger] tail[a]).id@ != (
    #[trigger] tail[b]).id@ by {
        assert(tail[a] == specs[i + a] && tail[b] == specs[i + b]);
    }
    lemma_described_in_order(tail, children, c1, c2, t1, t2);
}

/// A message that has children started again is a restart of the child that it names: it is logged,
/// at the end of the log, and the supervisor gives up over it exactly if more than `max_restarts`
/// are in the log then. Of the other messages there is one, and it is never refused.
pub proof fn law_a_message_is_a_restart<S, B>(
    before: SupervisorState<S, B>,
    after: SupervisorState<S, B>,
    msg: SupervisorMsg,
    children: Seq<ActorCell>,
    now: Timestamp,
    work: Result<SupervisorWork<S, B>, SupervisorError>,
) where B: Fn(&str, usize, Timestamp, Option<Duration>) -> Option<Duration>
    requires
        supervisor::handled(before, after, msg, children, now, work),
    ensures
        msg is InspectState ==> work is Ok && after == before,
        !(msg is InspectState) ==> {
            let id = match msg {
                SupervisorMsg::OneForOneSpawn { child_id } => child_id@,
                SupervisorMsg::OneForAllSpawn { child_id } => child_id@,
                SupervisorMsg::RestForOneSpawn { child_id } => child_id@,
                SupervisorMsg::InspectState => Seq::<char>::empty(),
            };
            let result = match work {
                Ok(_) => Ok::<(), SupervisorError>(()),
                Err(error) => Err(error),
            };
            &&& after.restart_logged(before, id, now, result)
            &&& after.restart_log@.last().child_id@ == id
            &&& after.restart_log@.last().timestamp == now
            &&& work is Err <==> after.restart_log@.len() > before.options.max_restarts
            &&& work matches Err(error) ==> (error matches SupervisorError::Meltdown { reason }
                && reason@ == "max_restarts exceeded"@)
            &&& after.child_specs == before.child_specs
            &&& after.child_failure_state == before.child_failure_state
            &&& after.options == before.options
        },
{
    if !(msg is InspectState) {
        assert(after.log().len() == after.restart_log@.len());
        assert(after.log().last() == after.restart_log@.last()@);
    }
}

/// What the end of an actor leads to. `i` is where the first child of its name stands in the list,
/// or the length of the list if there is none.
///
/// One that failed went abnormally, one that stopped normally. If it is a child of the list, and
/// permanent, or transient and failed, the supervisor sends itself one message, which names the
/// child, by its strategy; the failure is counted. Otherwise nothing is done and nothing changes.
pub proof fn law_what_the_end_of_an_actor_leads_to<S, B>(
    before: SupervisorState<S, B>,
    after: SupervisorState<S, B>,
    evt: SupervisionEvent,
    now: Timestamp,
    work: Result<SupervisorWork<S, B>, SupervisorError>,
    i: int,
) where B: Fn(&str, usize, Timestamp, Option<Duration>) -> Option<Duration>
    requires
        supervisor::event_handled(before, after, evt, now, work),
        evt is ActorTerminated || evt is ActorFailed,
        0 <= i <= before.child_specs@.len(),
        ({
            let cell = match evt {
                SupervisionEvent::ActorTerminated(cell, _) => cell,
                SupervisionEvent::ActorFailed(cell, _) => cell,
                SupervisionEvent::ActorStarted(cell) => cell,
                SupervisionEvent::ProcessGroupChanged => arbitrary(),
            };
            &&& cell.name is Some
            &&& i < before.child_specs@.len() ==> before.child_specs@[i].id@ == cell.name->Some_0@
            &&& forall|j: int|
                0 <= j < i ==> (#[trigger] before.child_specs@[j]).id@ != cell.name->Some_0@
        }),
    ensures
        ({
            let specs = before.child_specs@;
            let abnormal = evt is ActorFailed;
            let reason = match evt {
                SupervisionEvent::ActorFailed(_, text) => ExitReason::Error(
                    ActorProcessingErr::Actor(text),
                ),
                SupervisionEvent::ActorTerminated(_, text) => ExitReason::Reason(text),
                _ => arbitrary(),
            };
            let again = i < specs.len() && (specs[i].restart is Permanent || (
            specs[i].restart is Transient && abnormal));
            &&& work is Ok
            &&& again ==> {
                &&& work->Ok_0 matches SupervisorWork::Send { request, rest }
                &&& rest@.len() == 0
                &&& request.msg == match before.options.strategy {
                    SupervisorStrategy::OneForOne => SupervisorMsg::OneForOneSpawn {
                        child_id: specs[i].id,
                    },
                    SupervisorStrategy::OneForAll => SupervisorMsg::OneForAllSpawn {
                        child_id: specs[i].id,
                    },
                    SupervisorStrategy::RestForOne => SupervisorMsg::RestForOneSpawn {
                        child_id: specs[i].id,
                    },
                }
                &&& request.reason == reason
                &&& after.restart_handled(before, specs[i], abnormal, reason, now, Some(request))
            }
            &&& !again ==> {
                &&& work->Ok_0 matches SupervisorWork::Finished(result)
                &&& result is Ok
                &&& after.child_failure_state@ == before.child_failure_state@
            }
        }),
        after.child_specs == before.child_specs,
        after.restart_log == before.restart_log,
        after.options == before.options,
{
    let cell = match evt {
        SupervisionEvent::ActorTerminated(cell, _) => cell,
        SupervisionEvent::ActorFailed(cell, _) => cell,
        SupervisionEvent::ActorStarted(cell) => cell,
        SupervisionEvent::ProcessGroupChanged => arbitrary(),
    };
    lemma_first_at(before.child_specs@, cell.name->Some_0@, i);
}

/// What the end of a child leads to once the supervisor handles the message that it has sent
/// itself: however the child went, the strategy says which children are stopped and which started.
///
/// With `OneForOne` only the child that went is spawned. With `OneForAll` all linked actors are
/// stopped and all children of the list are spawned. With `RestForOne` those linked actors are
/// killed that bear the id of the child that went or of one after it, and that child and all after
/// it are spawned. Children are spawned in the order of the list.
pub proof fn law_the_strategy_decides_who_is_started_again<S, B>(
    before: SupervisorState<S, B>,
    after: SupervisorState<S, B>,
    evt: SupervisionEvent,
    now: Timestamp,
    request: RestartRequest<SupervisorMsg>,
    left: Vec<SupervisorTask<S, B>>,
    then: SupervisorState<S, B>,
    at_last: SupervisorState<S, B>,
    children: Seq<ActorCell>,
    later: Timestamp,
    work: SupervisorWork<S, B>,
    i: int,
) where B: Fn(&str, usize, Timestamp, Option<Duration>) -> Option<Duration>
    requires
        supervisor::event_handled(
            before,
            after,
            evt,
            now,
            Ok(SupervisorWork::Send { request, rest: left }),
        ),
        // What was handled in between has left the list as it was.
        then.child_specs == before.child_specs,
        supervisor::handled(then, at_last, request.msg, children, later, Ok(work)),
        ({
            let name = match evt {
                SupervisionEvent::ActorTerminated(cell, _) => cell.name,
                SupervisionEvent::ActorFailed(cell, _) => cell.name,
                _ => None,
            };
            &&& 0 <= i < before.child_specs@.len()
            &&& name matches Some(name) && before.child_specs@[i].id@ == name@ && forall|j: int|
                0 <= j < i ==> (#[trigger] before.child_specs@[j]).id@ != name@
        }),
    ensures
        ({
            let specs = before.child_specs@;
            match before.options.strategy {
                SupervisorStrategy::OneForOne => {
                    &&& work matches SupervisorWork::Perform { task, rest }
                    &&& task == (SupervisorTask::SpawnChild { spec: specs[i] })
                    &&& rest@.len() == 0
                },
                SupervisorStrategy::OneForAll => {
                    &&& work matches SupervisorWork::Perform { task, rest }
                    &&& task matches SupervisorTask::StopChildren { cells, timeout }
                    &&& cells@ == children
                    &&& timeout.nanos == 500_000_000
                    &&& rest@.len() == 1 + specs.len()
                    &&& rest@[0] matches SupervisorTask::Sleep { duration }
                    &&& duration.nanos == 10_000_000
                    &&& forall|k: int|
                        0 <= k < specs.len() ==> rest@[1 + k] == (SupervisorTask::SpawnChild {
                            spec: #[trigger] specs[k],
                        })
                },
                SupervisorStrategy::RestForOne => {
                    &&& work matches SupervisorWork::Perform { task, rest }
                    &&& task matches SupervisorTask::KillChildren { cells }
                    &&& forall|cell: ActorCell| #[trigger]
                        cells@.contains(cell) ==> exists|k: int, a: int|
                            i <= k < specs.len() && children[a] == cell
                                && #[trigger] is_last_named(children, a, specs[k].id@)
                    &&& forall|k: int, a: int|
                        i <= k < specs.len() && #[trigger] is_last_named(children, a, specs[k].id@)
                            ==> cells@.contains(children[a])
                    &&& rest@.len() == 1 + specs.len() - i
                    &&& rest@[0] matches SupervisorTask::Sleep { duration }
                    &&& duration.nanos == 10_000_000
                    &&& forall|k: int|
                        i <= k < specs.len() ==> rest@[1 + k - i] == (SupervisorTask::SpawnChild {
                            spec: #[trigger] specs[k],
                        })
                },
            }
        }),
{
    law_what_the_end_of_an_actor_leads_to(
        before,
        after,
        evt,
        now,
        Ok(SupervisorWork::Send { request, rest: left }),
        i,
    );
    law_what_a_message_leads_to(then, at_last, request.msg, children, later, work, i);
}

/// What the other events lead to. The start of a child of the list is noted if nothing was known of
/// the child; the start of another actor, and a change of a process group, change nothing; and an
/// actor without a name is refused, with nothing changed.
pub proof fn law_what_the_other_events_lead_to<S, B>(
    before: SupervisorState<S, B>,
    after: SupervisorState<S, B>,
    evt: SupervisionEvent,
    now: Timestamp,
    work: Result<SupervisorWork<S, B>, SupervisorError>,
    i: int,
) where B: Fn(&str, usize, Timestamp, Option<Duration>) -> Option<Duration>
    requires
        supervisor::event_handled(before, after, evt, now, work),
        0 <= i <= before.child_specs@.len(),
        evt matches SupervisionEvent::ActorStarted(cell) ==> (cell.name matches Some(name) ==> {
            &&& i < before.child_specs@.len() ==> before.child_specs@[i].id@ == name@
            &&& forall|j: int| 0 <= j < i ==> (#[trigger] before.child_specs@[j]).id@ != name@
        }),
    ensures
        ({
            let cell = match evt {
                SupervisionEvent::ActorTerminated(cell, _) => Some(cell),
                SupervisionEvent::ActorFailed(cell, _) => Some(cell),
                SupervisionEvent::ActorStarted(cell) => Some(cell),
                SupervisionEvent::ProcessGroupChanged => None,
            };
            cell matches Some(cell) ==> cell.name is None ==> {
                &&& work matches Err(error)
                &&& error == (SupervisorError::ChildNameNotSet { pid: cell.id })
                &&& after == before
            }
        }),
        evt is ProcessGroupChanged ==> after == before && (work matches Ok(
            SupervisorWork::Finished(result),
        ) && result is Ok),
        evt matches SupervisionEvent::ActorStarted(cell) ==> (cell.name matches Some(name) ==> {
            let (old_failures, failures) = (
                before.child_failure_state@,
                after.child_failure_state@,
            );
            let new = i < before.child_specs@.len() && !old_failures.contains_key(name@);
            &&& work matches Ok(SupervisorWork::Finished(result))
            &&& result is Ok
            &&& !new ==> failures == old_failures
            &&& new ==> {
                &&& failures.contains_key(name@)
                &&& failures[name@].restart_count == 0
                &&& failures[name@].last_fail_instant == now
                &&& forall|other: Seq<char>|
                    other != name@ ==> #[trigger] failures.contains_key(other)
                        == old_failures.contains_key(other)
                &&& forall|other: Seq<char>|
                    other != name@ && old_failures.contains_key(other)
                        ==> #[trigger] failures[other] == old_failures[other]
            }
            &&& after.child_specs == before.child_specs
            &&& after.restart_log == before.restart_log
            &&& after.options == before.options
        }),
{
    match evt {
        SupervisionEvent::ActorStarted(cell) => match cell.name {
            Some(name) => {
                lemma_first_at(before.child_specs@, name@, i);
            },
            None => {},
        },
        _ => {},
    }
}

/// How a handler goes on after a piece of work.
///
/// Work that was done is followed by the first of the tasks that are left, or by nothing. A child
/// that could not be spawned has gone abnormally, for the reason that it could not be spawned: if
/// its policy asks for it the supervisor sends itself a message by its strategy and keeps the tasks
/// that are left, and otherwise it goes on with them. A state that cannot be handed out, or a
/// message to itself that cannot be sent, ends the handler with an error; with the latter the list
/// of children is lost. Any other outcome changes nothing.
pub proof fn law_how_a_handler_goes_on<S, B>(
    before: SupervisorState<S, B>,
    after: SupervisorState<S, B>,
    work: SupervisorWork<S, B>,
    outcome: SupervisorOutcome,
    now: Timestamp,
    next: SupervisorWork<S, B>,
) where B: Fn(&str, usize, Timestamp, Option<Duration>) -> Option<Duration>
    requires
        after.resumed(before, work, outcome, now, next),
    ensures
        work is Finished ==> next == work && after == before,
        ({
            let rest = match work {
                SupervisorWork::Perform { rest, .. } => rest@,
                SupervisorWork::Send { rest, .. } => rest@,
                SupervisorWork::Finished(_) => Seq::<SupervisorTask<S, B>>::empty(),
            };
            let spec = match work {
                SupervisorWork::Perform { task: SupervisorTask::SpawnChild { spec }, .. } => Some(
                    spec,
                ),
                _ => None,
            };
            let done = !(work is Finished) && outcome is Done;
            let left_out = outcome is SpawnFailed && (spec matches Some(spec)
                && spec.restart is Temporary);
            &&& done ==> after == before
            &&& done || left_out ==> {
                &&& rest.len() == 0 ==> (next matches SupervisorWork::Finished(result)
                    && result is Ok)
                &&& rest.len() > 0 ==> {
                    &&& next matches SupervisorWork::Perform { task, rest: left }
                    &&& task == rest[0]
                    &&& left@.len() == rest.len() - 1
                    &&& forall|k: int|
                        0 < k < rest.len() ==> left@[k - 1] == #[trigger] rest[k]
                }
            }
            &&& outcome is SpawnFailed && spec is Some ==> {
                &&& after.child_specs == before.child_specs
                &&& after.restart_log == before.restart_log
                &&& after.options == before.options
            }
            &&& left_out ==> after.child_failure_state@ == before.child_failure_state@
            &&& outcome matches SupervisorOutcome::SpawnFailed { reason } ==> (spec matches Some(
                spec,
            ) ==> !(spec.restart is Temporary) ==> {
                let gone = ExitReason::Error(
                    ActorProcessingErr::Supervisor(
                        SupervisorError::ChildSpawnError { child_id: spec.id, reason },
                    ),
                );
                &&& next matches SupervisorWork::Send { request, rest: left }
                &&& left@ == rest
                &&& request.reason == gone
                &&& request.msg == match before.options.strategy {
                    SupervisorStrategy::OneForOne => SupervisorMsg::OneForOneSpawn {
                        child_id: spec.id,
                    },
                    SupervisorStrategy::OneForAll => SupervisorMsg::OneForAllSpawn {
                        child_id: spec.id,
                    },
                    SupervisorStrategy::RestForOne => SupervisorMsg::RestForOneSpawn {
                        child_id: spec.id,
                    },
                }
                &&& after.restart_handled(before, spec, true, gone, now, Some(request))
            })
            &&& outcome is SpawnFailed && spec is None ==> after == before && next == work
        }),
        outcome matches SupervisorOutcome::SendFailed { reason } ==> match work {
            SupervisorWork::Perform { task, .. } => if task is ReplyState {
                &&& after == before
                &&& next == SupervisorWork::<S, B>::Finished(
                    Err(ActorProcessingErr::Messaging(reason)),
                )
            } else {
                after == before && next == work
            },
            SupervisorWork::Send { .. } => {
                &&& after.child_specs@.len() == 0
                &&& after.child_failure_state == before.child_failure_state
                &&& after.restart_log == before.restart_log
                &&& after.options == before.options
                &&& next == SupervisorWork::<S, B>::Finished(
                    Err(ActorProcessingErr::Messaging(reason)),
                )
            },
            SupervisorWork::Finished(_) => true,
        },
{
    let rest = match work {
        SupervisorWork::Perform { rest, .. } => rest@,
        SupervisorWork::Send { rest, .. } => rest@,
        SupervisorWork::Finished(_) => Seq::<SupervisorTask<S, B>>::empty(),
    };
    match next {
        SupervisorWork::Perform { rest: left, .. } => {
            if left@ == rest.skip(1) {
                assert forall|k: int| 0 < k < rest.len() implies left@[k - 1]
                    == #[trigger] rest[k] by {
                    assert(rest.skip(1)[k - 1] == rest[k]);
                }
            }
        },
        _ => {},
    }
}

} // verus!
