//! What holds of the supervisor of a fixed list of children across its handlers.
use vstd::prelude::*;
use crate::actor::{ActorCell, ExitReason, SupervisorError};
use crate::child::{ChildSpec, Restart};
use crate::plan;
use crate::plan::{
    GRACEFUL_STOP_MILLIS, PlannedTask, SETTLE_MILLIS, SupervisorOutcome, SupervisorTask,
    SupervisorWork,
};
use crate::restart;
use crate::restart::{CoreSupervisorOptions, RestartEntry};
use crate::restart_laws;
use crate::supervisor;
use crate::supervisor::{SupervisorMsg, SupervisorState, SupervisorStrategy};
use crate::time::{Duration, Timestamp};

verus! {

/// Whether no two children of a list have the same id.
pub open spec fn distinct_ids<S, B>(specs: Seq<ChildSpec<S, B>>) -> bool where
    B: Fn(&str, usize, Timestamp, Option<Duration>) -> Option<Duration>,
 {
    forall|i: int, j: int|
        0 <= i < j < specs.len() ==> (#[trigger] specs[i]).id@ != (#[trigger] specs[j]).id@
}

/// A child whose id no other has is where its id is found.
proof fn lemma_found_at<S, B>(specs: Seq<ChildSpec<S, B>>, i: int) where
    B: Fn(&str, usize, Timestamp, Option<Duration>) -> Option<Duration>,

    requires
        distinct_ids(specs),
        0 <= i < specs.len(),
    ensures
        plan::position(specs, specs[i].id@) == i,
{
    let p = plan::position(specs, specs[i].id@) as int;
    plan::lemma_position(specs, specs[i].id@);
    if p < i {
        assert(specs[p].id@ != specs[i].id@);
    } else if i < p {
        assert(specs[i].id@ != specs[i].id@);
    }
}

/// What the message about a child that has gone leads to, for each strategy: only that child is
/// started; or all running children are stopped and all of the list are started; or those running
/// children that are that child or come after it are killed, and these are started. Children are
/// started in the order of the list.
pub proof fn law_strategies<S, B>(
    specs: Seq<ChildSpec<S, B>>,
    i: int,
    children: Seq<ActorCell>,
) where B: Fn(&str, usize, Timestamp, Option<Duration>) -> Option<Duration>
    requires
        distinct_ids(specs),
        0 <= i < specs.len(),
    ensures
        supervisor::plan_of(
            plan::restart_message(SupervisorStrategy::OneForOne, specs[i].id),
            specs,
            children,
        ) == seq![PlannedTask::SpawnChild { spec: specs[i] }],
        supervisor::plan_of(
            plan::restart_message(SupervisorStrategy::OneForAll, specs[i].id),
            specs,
            children,
        ) == seq![
            PlannedTask::StopChildren {
                cells: children,
                timeout: plan::millis(GRACEFUL_STOP_MILLIS),
            },
            PlannedTask::Sleep { duration: plan::millis(SETTLE_MILLIS) },
        ] + plan::spawns(specs),
        supervisor::plan_of(
            plan::restart_message(SupervisorStrategy::RestForOne, specs[i].id),
            specs,
            children,
        ) == seq![
            PlannedTask::KillChildren { cells: plan::cells_of(specs.skip(i), children) },
            PlannedTask::Sleep { duration: plan::millis(SETTLE_MILLIS) },
        ] + plan::spawns(specs.skip(i)),
{
    lemma_found_at(specs, i);
    assert(plan::spawns(seq![specs[i]]) =~= seq![PlannedTask::SpawnChild { spec: specs[i] }]);
}

/// A child found by its name has that name and is one of the children, and one is found if there is
/// any.
proof fn lemma_child_named(children: Seq<ActorCell>, name: Seq<char>)
    ensures
        plan::child_named(children, name) matches Some(cell) ==> cell.is_named(name)
            && children.contains(cell),
        plan::child_named(children, name) is None ==> forall|k: int|
            0 <= k < children.len() ==> !(#[trigger] children[k]).is_named(name),
    decreases children.len(),
{
    if children.len() > 0 {
        let front = children.drop_last();
        lemma_child_named(front, name);
        if children.last().is_named(name) {
            assert(children[children.len() - 1] == children.last());
        } else {
            match plan::child_named(front, name) {
                Some(cell) => {
                    let k = choose|k: int| 0 <= k < front.len() && front[k] == cell;
                    assert(children[k] == cell);
                },
                None => {
                    assert forall|k: int| 0 <= k < children.len() implies !(
                    #[trigger] children[k]).is_named(name) by {
                        if k < front.len() {
                            assert(front[k] == children[k]);
                        }
                    }
                },
            }
        }
    }
}

/// The children that a list describes are those that bear an id of the list as their name, as far
/// as no two bear the same.
proof fn lemma_cells_of<S, B>(specs: Seq<ChildSpec<S, B>>, children: Seq<ActorCell>) where
    B: Fn(&str, usize, Timestamp, Option<Duration>) -> Option<Duration>,

    ensures
        forall|c: int|
            0 <= c < plan::cells_of(specs, children).len() ==> {
                &&& children.contains(#[trigger] plan::cells_of(specs, children)[c])
                &&& exists|k: int|
                    0 <= k < specs.len() && plan::cells_of(specs, children)[c].is_named(
                        (#[trigger] specs[k]).id@,
                    )
            },
        forall|k: int|
            0 <= k < specs.len() ==> (plan::child_named(
                children,
                (#[trigger] specs[k]).id@,
            ) matches Some(cell) ==> plan::cells_of(specs, children).contains(cell)),
    decreases specs.len(),
{
    if specs.len() > 0 {
        let front = specs.drop_last();
        let last = specs.last();
        let cells = plan::cells_of(specs, children);
        let cells_front = plan::cells_of(front, children);
        lemma_cells_of(front, children);
        lemma_child_named(children, last.id@);
        assert forall|c: int| 0 <= c < cells.len() implies {
            &&& children.contains(#[trigger] cells[c])
            &&& exists|k: int| 0 <= k < specs.len() && cells[c].is_named((#[trigger] specs[k]).id@)
        } by {
            if c < cells_front.len() {
                assert(cells[c] == cells_front[c]);
                let k = choose|k: int|
                    0 <= k < front.len() && cells_front[c].is_named((#[trigger] front[k]).id@);
                assert(specs[k] == front[k]);
            } else {
                assert(specs[specs.len() - 1] == last);
            }
        }
        assert forall|k: int| 0 <= k < specs.len() implies (plan::child_named(
            children,
            (#[trigger] specs[k]).id@,
        ) matches Some(cell) ==> cells.contains(cell)) by {
            match plan::child_named(children, specs[k].id@) {
                Some(cell) => {
                    if k < front.len() {
                        assert(front[k] == specs[k]);
                        assert(cells_front.contains(cell));
                        let c = choose|c: int|
                            0 <= c < cells_front.len() && cells_front[c] == cell;
                        assert(cells[c] == cell);
                    } else {
                        assert(cells[cells.len() - 1] == cell);
                    }
                },
                None => {},
            }
        }
    }
}

/// With the strategy `RestForOne`, a running child is killed exactly if it is the child that has
/// gone or comes after it in the list. Those before it, and actors that the list does not describe,
/// are left alone.
pub proof fn law_rest_for_one_spares_the_children_before<S, B>(
    specs: Seq<ChildSpec<S, B>>,
    i: int,
    children: Seq<ActorCell>,
    cell: ActorCell,
) where B: Fn(&str, usize, Timestamp, Option<Duration>) -> Option<Duration>
    requires
        distinct_ids(specs),
        0 <= i < specs.len(),
        children.contains(cell),
        // No two running actors have the same name.
        forall|a: int, b: int, name: Seq<char>|
            0 <= a < b < children.len() && #[trigger] children[a].is_named(name)
                ==> !#[trigger] children[b].is_named(name),
    ensures
        plan::cells_of(specs.skip(i), children).contains(cell) <==> exists|k: int|
            i <= k < specs.len() && cell.is_named((#[trigger] specs[k]).id@),
        forall|k: int|
            0 <= k < i && cell.is_named((#[trigger] specs[k]).id@) ==> !plan::cells_of(
                specs.skip(i),
                children,
            ).contains(cell),
{
    let rest = specs.skip(i);
    let cells = plan::cells_of(rest, children);
    lemma_cells_of(rest, children);
    if cells.contains(cell) {
        let c = choose|c: int| 0 <= c < cells.len() && cells[c] == cell;
        let k = choose|k: int| 0 <= k < rest.len() && cells[c].is_named((#[trigger] rest[k]).id@);
        assert(specs[i + k] == rest[k]);
        assert(cell.is_named(specs[i + k].id@));
        assert forall|j: int| 0 <= j < i implies !cell.is_named((#[trigger] specs[j]).id@) by {
            assert(specs[j].id@ != specs[i + k].id@);
        }
    }
    if exists|k: int| i <= k < specs.len() && cell.is_named((#[trigger] specs[k]).id@) {
        let k = choose|k: int| i <= k < specs.len() && cell.is_named((#[trigger] specs[k]).id@);
        let name = specs[k].id@;
        assert(rest[k - i] == specs[k]);
        lemma_child_named(children, name);
        let a = choose|a: int| 0 <= a < children.len() && children[a] == cell;
        assert(children[a].is_named(name));
        let found = plan::child_named(children, name)->Some_0;
        let b = choose|b: int| 0 <= b < children.len() && children[b] == found;
        assert(children[b].is_named(name));
        assert(a == b);
    }
}

/// A child of the list that has gone is started again if its policy asks for it: the supervisor
/// sends itself a message, and what that message leads to holds the spawning of the child.
pub proof fn law_a_gone_child_is_spawned_again<S, B>(
    before: SupervisorState<S, B>,
    after: SupervisorState<S, B>,
    name: Seq<char>,
    abnormal: bool,
    reason: ExitReason,
    now: Timestamp,
    work: SupervisorWork<S, B>,
    children: Seq<ActorCell>,
) where B: Fn(&str, usize, Timestamp, Option<Duration>) -> Option<Duration>
    requires
        after.child_gone(before, name, abnormal, reason, now, work),
        plan::position(before.child_specs@, name) < before.child_specs@.len(),
    ensures
        ({
            let spec = before.child_specs@[plan::position(before.child_specs@, name) as int];
            &&& spec.id@ == name
            &&& work is Send <==> spec.restart.applies(abnormal)
            &&& work matches SupervisorWork::Send { request, .. } ==> supervisor::plan_of(
                request.msg,
                after.child_specs@,
                children,
            ).contains(PlannedTask::SpawnChild { spec })
        }),
{
    let specs = before.child_specs@;
    let i = plan::position(specs, name) as int;
    let spec = specs[i];
    let task = PlannedTask::SpawnChild { spec };
    plan::lemma_position(specs, name);
    match work {
        SupervisorWork::Send { request, .. } => {
            let tasks = supervisor::plan_of(request.msg, specs, children);
            match before.options.strategy {
                SupervisorStrategy::OneForOne => {
                    assert(tasks[0] == task);
                },
                SupervisorStrategy::OneForAll => {
                    assert(plan::spawns(specs)[i] == task);
                    assert(tasks[2 + i] == task);
                },
                SupervisorStrategy::RestForOne => {
                    assert(specs.skip(i)[0] == spec);
                    assert(plan::spawns(specs.skip(i))[0] == task);
                    assert(tasks[2] == task);
                },
            }
        },
        _ => {},
    }
}

/// A child that could not be spawned counts as one that failed: unless it is temporary, its failure
/// is counted and the supervisor sends itself the message of its strategy, and then goes on with
/// what was left to do.
pub proof fn law_a_failed_spawn_triggers_the_strategy<S, B>(
    before: SupervisorState<S, B>,
    after: SupervisorState<S, B>,
    spec: ChildSpec<S, B>,
    rest: Vec<SupervisorTask<S, B>>,
    reason: String,
    now: Timestamp,
    next: SupervisorWork<S, B>,
) where B: Fn(&str, usize, Timestamp, Option<Duration>) -> Option<Duration>
    requires
        after.resumed(
            before,
            SupervisorWork::Perform { task: SupervisorTask::SpawnChild { spec }, rest },
            SupervisorOutcome::SpawnFailed { reason },
            now,
            next,
        ),
    ensures
        spec.restart == Restart::Temporary ==> after.child_failure_state@
            == before.child_failure_state@ && next.carries_out(plan::tasks_view(rest@)),
        spec.restart != Restart::Temporary ==> {
            &&& next matches SupervisorWork::Send { request, rest: left }
            &&& left == rest
            &&& request.msg == plan::restart_message(before.options.strategy, spec.id)
            &&& after.child_failure_state@ == before.child_failure_state@.insert(
                spec.id@,
                restart::failure_after(
                    restart::failure_of(before.child_failure_state@, spec.id@),
                    spec.reset_after,
                    now,
                ),
            )
        },
{
}

/// The tasks that are still to do.
pub open spec fn remaining<S, B>(work: SupervisorWork<S, B>) -> Seq<PlannedTask<S, B>> where
    B: Fn(&str, usize, Timestamp, Option<Duration>) -> Option<Duration>,
 {
    match work {
        SupervisorWork::Perform { task, rest } => seq![task@] + plan::tasks_view(rest@),
        SupervisorWork::Send { rest, .. } => plan::tasks_view(rest@),
        SupervisorWork::Finished(_) => Seq::empty(),
    }
}

/// The tasks among some works, in order.
pub open spec fn performed<S, B>(works: Seq<SupervisorWork<S, B>>) -> Seq<PlannedTask<S, B>> where
    B: Fn(&str, usize, Timestamp, Option<Duration>) -> Option<Duration>,

    decreases works.len(),
{
    if works.len() == 0 {
        Seq::empty()
    } else {
        let front = performed(works.drop_last());
        match works.last() {
            SupervisorWork::Perform { task, .. } => front.push(task@),
            _ => front,
        }
    }
}

/// Whether a piece of work was done, or was the spawning of a child and failed.
pub open spec fn done_or_not_spawned<S, B>(
    work: SupervisorWork<S, B>,
    outcome: SupervisorOutcome,
) -> bool where B: Fn(&str, usize, Timestamp, Option<Duration>) -> Option<Duration> {
    match outcome {
        SupervisorOutcome::Done => !(work is Finished),
        SupervisorOutcome::SpawnFailed { .. } => {
            &&& work matches SupervisorWork::Perform { task, .. }
            &&& task is SpawnChild
        },
        SupervisorOutcome::SendFailed { .. } => false,
    }
}

/// Whether `states` and `works` are those of a handler in which each piece of work had the outcome
/// beside it.
pub open spec fn is_run<S, B>(
    states: Seq<SupervisorState<S, B>>,
    works: Seq<SupervisorWork<S, B>>,
    outcomes: Seq<SupervisorOutcome>,
    times: Seq<Timestamp>,
) -> bool where B: Fn(&str, usize, Timestamp, Option<Duration>) -> Option<Duration> {
    &&& works.len() == outcomes.len() + 1
    &&& states.len() == works.len()
    &&& times.len() == outcomes.len()
    &&& forall|k: int|
        0 <= k < outcomes.len() ==> (#[trigger] states[k + 1]).resumed(
            states[k],
            works[k],
            outcomes[k],
            times[k],
            works[k + 1],
        )
}

/// A handler of the supervisor does the tasks of its plan each once and in order, whatever children
/// cannot be spawned, as long as the supervisor can send itself messages. What was done and what is
/// still to do is at each moment the whole plan; the list of children stays as it is; and once
/// nothing is left the handler ends without an error.
pub proof fn law_the_plan_is_carried_out_in_order<S, B>(
    planned: Seq<PlannedTask<S, B>>,
    states: Seq<SupervisorState<S, B>>,
    works: Seq<SupervisorWork<S, B>>,
    outcomes: Seq<SupervisorOutcome>,
    times: Seq<Timestamp>,
) where B: Fn(&str, usize, Timestamp, Option<Duration>) -> Option<Duration>
    requires
        is_run(states, works, outcomes, times),
        works[0].carries_out(planned),
        forall|k: int|
            0 <= k < outcomes.len() ==> done_or_not_spawned(works[k], #[trigger] outcomes[k]),
    ensures
        performed(works.drop_last()) + remaining(works.last()) == planned,
        works.last() matches SupervisorWork::Finished(result) ==> result is Ok && performed(
            works.drop_last(),
        ) == planned,
        states.last().child_specs == states[0].child_specs,
        states.last().options == states[0].options,
        states.last().restart_log == states[0].restart_log,
    decreases outcomes.len(),
{
    let n = outcomes.len() as int;
    if n == 0 {
        assert(works.drop_last() =~= Seq::<SupervisorWork<S, B>>::empty());
        assert(works.last() == works[0]);
        assert(remaining(works[0]) =~= planned);
        assert(performed(works.drop_last()) + remaining(works.last()) =~= planned);
    } else {
        let (states_0, works_0) = (states.drop_last(), works.drop_last());
        let (outcomes_0, times_0) = (outcomes.drop_last(), times.drop_last());
        assert forall|k: int| 0 <= k < outcomes_0.len() implies (
        #[trigger] states_0[k + 1]).resumed(
            states_0[k],
            works_0[k],
            outcomes_0[k],
            times_0[k],
            works_0[k + 1],
        ) by {
            assert(states[k + 1].resumed(states[k], works[k], outcomes[k], times[k], works[k + 1]));
        }
        assert forall|k: int| 0 <= k < outcomes_0.len() implies done_or_not_spawned(
            works_0[k],
            #[trigger] outcomes_0[k],
        ) by {
            assert(done_or_not_spawned(works[k], outcomes[k]));
        }
        law_the_plan_is_carried_out_in_order(planned, states_0, works_0, outcomes_0, times_0);
        let k = n - 1;
        let (work, next) = (works[k], works[k + 1]);
        assert(states[k + 1].resumed(states[k], work, outcomes[k], times[k], next));
        assert(done_or_not_spawned(work, outcomes[k]));
        assert(works_0.last() == work);
        let done = performed(works_0.drop_last());
        match work {
            SupervisorWork::Perform { task, rest } => {
                assert(remaining(next) =~= plan::tasks_view(rest@));
                assert(performed(works_0) == done.push(task@));
                assert(done.push(task@) + remaining(next) =~= done + remaining(work));
            },
            SupervisorWork::Send { rest, .. } => {
                assert(remaining(next) =~= plan::tasks_view(rest@));
                assert(performed(works_0) == done);
            },
            SupervisorWork::Finished(_) => {},
        }
        assert(performed(works_0) + remaining(next) == planned);
        if next is Finished {
            assert(performed(works_0) + remaining(next) =~= performed(works_0));
        }
    }
}

/// The restart that a message asks for is logged in any case, and the supervisor gives up over it
/// exactly if its log then holds more restarts than are tolerated.
pub proof fn law_meltdown_is_decided_by_the_log<S, B>(
    before: SupervisorState<S, B>,
    after: SupervisorState<S, B>,
    msg: SupervisorMsg,
    now: Timestamp,
    work: Result<SupervisorWork<S, B>, SupervisorError>,
) where B: Fn(&str, usize, Timestamp, Option<Duration>) -> Option<Duration>
    requires
        supervisor::restarted_child(msg) matches Some(id) && after.restart_logged(
            before,
            id,
            now,
            supervisor::without_value(work),
        ),
    ensures
        after.log().last() == (RestartEntry {
            child_id: supervisor::restarted_child(msg)->Some_0,
            timestamp: now,
        }),
        work is Err <==> after.log().len() > before.options.max_restarts,
        after.child_specs == before.child_specs,
{
}

/// The options stay as they are while restarts are handled.
proof fn lemma_same_options<S, B>(
    befores: Seq<SupervisorState<S, B>>,
    afters: Seq<SupervisorState<S, B>>,
    history: Seq<RestartEntry>,
    results: Seq<Result<(), SupervisorError>>,
    k: int,
) where B: Fn(&str, usize, Timestamp, Option<Duration>) -> Option<Duration>
    requires
        0 <= k < history.len(),
        befores.len() == history.len(),
        afters.len() == history.len(),
        forall|k: int|
            0 <= k < history.len() ==> (#[trigger] afters[k]).restart_logged(
                befores[k],
                history[k].child_id,
                history[k].timestamp,
                results[k],
            ),
        forall|k: int|
            0 < k < history.len() ==> (#[trigger] befores[k]).options == afters[k - 1].options,
    ensures
        befores[k].options == befores[0].options,
        afters[k].options == befores[0].options,
    decreases k,
{
    assert(afters[k].restart_logged(
        befores[k],
        history[k].child_id,
        history[k].timestamp,
        results[k],
    ));
    if k > 0 {
        lemma_same_options(befores, afters, history, results, k - 1);
        assert(befores[k].options == afters[k - 1].options);
    }
}

/// A supervisor gives up over a restart exactly if more than `max_restarts` restarts, this one
/// counted, lie within `max_window` before it and after the last pause of `reset_after`. `befores`
/// and `afters` are the states before and after the handling of each restart so far,
/// whatever was handled in between.
pub proof fn law_meltdown_counts_the_recent_restarts<S, B>(
    befores: Seq<SupervisorState<S, B>>,
    afters: Seq<SupervisorState<S, B>>,
    history: Seq<RestartEntry>,
    results: Seq<Result<(), SupervisorError>>,
) where B: Fn(&str, usize, Timestamp, Option<Duration>) -> Option<Duration>
    requires
        history.len() > 0,
        befores.len() == history.len(),
        afters.len() == history.len(),
        results.len() == history.len(),
        befores[0].log() == Seq::<RestartEntry>::empty(),
        restart_laws::in_order(history),
        forall|k: int|
            0 <= k < history.len() ==> (#[trigger] afters[k]).restart_logged(
                befores[k],
                history[k].child_id,
                history[k].timestamp,
                results[k],
            ),
        forall|k: int|
            0 < k < history.len() ==> {
                &&& (#[trigger] befores[k]).log() == afters[k - 1].log()
                &&& befores[k].options == afters[k - 1].options
            },
    ensures
        ({
            let limits = befores[0].options.limits();
            let recent = restart_laws::since_pause(limits.reset_after, history).filter(
                restart::within_window(limits.max_window, history.last().timestamp),
            );
            &&& afters.last().log() == recent
            &&& results.last() is Err <==> recent.len() > limits.max_restarts
        }),
{
    let limits = befores[0].options.limits();
    let logs = Seq::new(
        history.len() + 1,
        |k: int|
            if k == 0 {
                befores[0].log()
            } else {
                afters[k - 1].log()
            },
    );
    assert forall|k: int| 0 <= k < history.len() implies befores[k].options
        == befores[0].options && (#[trigger] afters[k]).options == befores[0].options by {
        lemma_same_options(befores, afters, history, results, k);
    }
    assert forall|k: int| 0 <= k < history.len() implies #[trigger] logs[k + 1]
        == restart::log_after(logs[k], limits, history[k]) by {
        assert(afters[k].restart_logged(
            befores[k],
            history[k].child_id,
            history[k].timestamp,
            results[k],
        ));
        assert(befores[k].log() == logs[k]);
        assert(RestartEntry { child_id: history[k].child_id, timestamp: history[k].timestamp }
            == history[k]);
    }
    restart_laws::lemma_log_of_history(limits, history, logs);
    restart_laws::law_log_holds_the_recent_restarts(limits, history);
    let last = history.len() - 1;
    assert(logs.last() == afters[last].log());
    assert(afters[last].restart_logged(
        befores[last],
        history[last].child_id,
        history[last].timestamp,
        results[last],
    ));
}

} // verus!
