//! What holds of the supervisor of children that come and go across its handlers.
use vstd::prelude::*;
use crate::actor::{ActorCell, ActorProcessingErr, ExitReason, SupervisorError};
use crate::child::ChildSpec;
use crate::dynamic;
use crate::dynamic::{
    ActiveChild, DYNAMIC_STOP_MILLIS, DynamicOutcome, DynamicSupervisorMsg, DynamicSupervisorState,
    DynamicWork,
};
use crate::plan;
use crate::plan::SETTLE_MILLIS;
use crate::restart;
use crate::restart::{CoreSupervisorOptions, RestartEntry};
use crate::restart_laws;
use crate::time::{Duration, Timestamp};

verus! {

/// Whether the state is well formed, and there is room for the child that is to be spawned if
/// `work` is to spawn one.
pub open spec fn stays_well_formed<S, B>(
    state: DynamicSupervisorState<S, B>,
    work: DynamicWork<S, B>,
) -> bool where B: Fn(&str, usize, Timestamp, Option<Duration>) -> Option<Duration> {
    &&& state.well_formed()
    &&& work is Spawn ==> state.has_room()
}

/// There are never more children than `max_children`, and each stands under its own id: a message
/// keeps it so when it is handled.
pub proof fn law_messages_respect_max_children<S, B>(
    before: DynamicSupervisorState<S, B>,
    after: DynamicSupervisorState<S, B>,
    msg: DynamicSupervisorMsg<S, B>,
    now: Timestamp,
    work: DynamicWork<S, B>,
) where B: Fn(&str, usize, Timestamp, Option<Duration>) -> Option<Duration>
    requires
        before.well_formed(),
        dynamic::handled(before, after, msg, now, work),
    ensures
        stays_well_formed(after, work),
        after.options == before.options,
{
}

/// There are never more children than `max_children`, and each stands under its own id: what a
/// message leads to keeps it so while it is done, whatever the outcomes.
pub proof fn law_outcomes_respect_max_children<S, B>(
    before: DynamicSupervisorState<S, B>,
    after: DynamicSupervisorState<S, B>,
    work: DynamicWork<S, B>,
    outcome: DynamicOutcome,
    now: Timestamp,
    next: DynamicWork<S, B>,
) where B: Fn(&str, usize, Timestamp, Option<Duration>) -> Option<Duration>
    requires
        stays_well_formed(before, work),
        dynamic::resumed(before, after, work, outcome, now, next),
    ensures
        stays_well_formed(after, next),
        after.options == before.options,
{
}

/// There are never more children than `max_children`, and each stands under its own id: what
/// happens to an actor keeps it so.
pub proof fn law_events_respect_max_children<S, B>(
    before: DynamicSupervisorState<S, B>,
    after: DynamicSupervisorState<S, B>,
    cell: ActorCell,
    abnormal: bool,
    reason: ExitReason,
    now: Timestamp,
    work: Result<DynamicWork<S, B>, SupervisorError>,
) where B: Fn(&str, usize, Timestamp, Option<Duration>) -> Option<Duration>
    requires
        before.well_formed(),
        dynamic::child_gone(before, after, cell, abnormal, reason, now, work)
            || dynamic::child_started(before, after, cell, now, work),
    ensures
        after.well_formed(),
        work matches Ok(work) ==> stays_well_formed(after, work),
        after.options == before.options,
{
}

/// The first start of a child is no restart: the log stays as it is. When a child is started again
/// that is a restart, which is logged before anything is done.
pub proof fn law_only_restarts_are_logged<S, B>(
    before: DynamicSupervisorState<S, B>,
    after: DynamicSupervisorState<S, B>,
    spec: ChildSpec<S, B>,
    reply: bool,
    now: Timestamp,
    work: DynamicWork<S, B>,
) where B: Fn(&str, usize, Timestamp, Option<Duration>) -> Option<Duration>
    requires
        dynamic::handled(
            before,
            after,
            DynamicSupervisorMsg::SpawnChild { spec, reply },
            now,
            work,
        ),
    ensures
        reply ==> after == before,
        !reply ==> after.log().last() == (RestartEntry { child_id: spec.id@, timestamp: now }),
        !reply ==> (work is Finished <==> after.log().len() > before.options.max_restarts),
{
}

/// A request for a child that there is no room for is refused: whoever asked gets the error, no
/// child is spawned, and the supervisor goes on as before.
pub proof fn law_a_refused_child_is_answered<S, B>(
    before: DynamicSupervisorState<S, B>,
    during: DynamicSupervisorState<S, B>,
    after: DynamicSupervisorState<S, B>,
    spec: ChildSpec<S, B>,
    now: Timestamp,
    work: DynamicWork<S, B>,
    later: Timestamp,
    next: DynamicWork<S, B>,
) where B: Fn(&str, usize, Timestamp, Option<Duration>) -> Option<Duration>
    requires
        !before.has_room(),
        dynamic::handled(
            before,
            during,
            DynamicSupervisorMsg::SpawnChild { spec, reply: true },
            now,
            work,
        ),
        dynamic::resumed(during, after, work, DynamicOutcome::Done, later, next),
    ensures
        work matches DynamicWork::ReplySpawned { answer } && dynamic::refuses_for_max_children(
            answer,
        ),
        after == before,
        next == DynamicWork::<S, B>::Finished(Ok(())),
{
}

/// Once a child has been brought to an end on request it is no longer among the children, and is
/// stopped if it was. Nothing else changes: not the other children, not the log, and no failure is
/// counted, so it is not started again.
pub proof fn law_a_terminated_child_is_gone<S, B>(
    before: DynamicSupervisorState<S, B>,
    after: DynamicSupervisorState<S, B>,
    child_id: String,
    reply: bool,
    now: Timestamp,
    work: DynamicWork<S, B>,
) where B: Fn(&str, usize, Timestamp, Option<Duration>) -> Option<Duration>
    requires
        dynamic::handled(
            before,
            after,
            DynamicSupervisorMsg::TerminateChild { child_id, reply },
            now,
            work,
        ),
    ensures
        !after.active_children@.contains_key(child_id@),
        forall|id: Seq<char>|
            id != child_id@ ==> #[trigger] after.active_children@.contains_key(id)
                == before.active_children@.contains_key(id),
        forall|id: Seq<char>|
            id != child_id@ && before.active_children@.contains_key(id)
                ==> #[trigger] after.active_children@[id] == before.active_children@[id],
        before.active_children@.contains_key(child_id@) <==> work is Stop,
        work matches DynamicWork::Stop { cell, timeout, .. } ==> {
            &&& cell == before.active_children@[child_id@].cell
            &&& timeout == plan::millis(DYNAMIC_STOP_MILLIS)
        },
        after.log() == before.log(),
        after.child_failure_state == before.child_failure_state,
{
}

/// Each child is managed by itself: when one goes, nothing changes for the others.
pub proof fn law_children_are_independent<S, B>(
    before: DynamicSupervisorState<S, B>,
    after: DynamicSupervisorState<S, B>,
    cell: ActorCell,
    abnormal: bool,
    reason: ExitReason,
    now: Timestamp,
    work: Result<DynamicWork<S, B>, SupervisorError>,
    other: Seq<char>,
) where B: Fn(&str, usize, Timestamp, Option<Duration>) -> Option<Duration>
    requires
        dynamic::child_gone(before, after, cell, abnormal, reason, now, work),
        !cell.is_named(other),
        before.well_formed(),
    ensures
        after.active_children@.contains_key(other) == before.active_children@.contains_key(other),
        before.active_children@.contains_key(other) ==> after.active_children@[other]
            == before.active_children@[other],
        restart::failure_of(after.child_failure_state@, other) == restart::failure_of(
            before.child_failure_state@,
            other,
        ),
        after.log() == before.log(),
{
}

/// A child that has gone and whose policy asks for it comes back, if the supervisor has not to give
/// up and there is room: the supervisor sends itself a message, waits a little once it gets that
/// message, spawns the child, and has it among its children again.
pub proof fn law_a_gone_child_comes_back<S, B>(
    states: Seq<DynamicSupervisorState<S, B>>,
    times: Seq<Timestamp>,
    works: Seq<DynamicWork<S, B>>,
    cell: ActorCell,
    abnormal: bool,
    reason: ExitReason,
    new_cell: ActorCell,
) where B: Fn(&str, usize, Timestamp, Option<Duration>) -> Option<Duration>
    requires
        states.len() == 5,
        times.len() == 4,
        works.len() == 4,
        ({
            let name = cell.name->Some_0@;
            let spec = states[0].active_children@[name].spec;
            &&& cell.name is Some
            &&& states[0].active_children@.contains_key(name)
            &&& spec.restart.applies(abnormal)
            // The child goes, and the supervisor gets the message that it has sent itself.
            &&& dynamic::child_gone(
                states[0],
                states[1],
                cell,
                abnormal,
                reason,
                times[0],
                Ok(works[0]),
            )
            &&& dynamic::handled(
                states[1],
                states[2],
                works[0]->Restart_request.msg,
                times[1],
                works[1],
            )
            // It does not give up, there is room, and the child can be spawned.
            &&& states[2].log().len() <= states[0].options.max_restarts
            &&& states[2].has_room()
            &&& dynamic::resumed(
                states[2],
                states[3],
                works[1],
                DynamicOutcome::Done,
                times[2],
                works[2],
            )
            &&& dynamic::resumed(
                states[3],
                states[4],
                works[2],
                DynamicOutcome::Spawned { cell: new_cell },
                times[3],
                works[3],
            )
        }),
    ensures
        ({
            let name = cell.name->Some_0@;
            let spec = states[0].active_children@[name].spec;
            &&& works[0] is Restart
            &&& works[1] == (DynamicWork::Sleep {
                duration: plan::millis(SETTLE_MILLIS),
                spec,
                reply: false,
            })
            &&& works[2] == (DynamicWork::Spawn { spec, reply: false })
            &&& works[3] == DynamicWork::<S, B>::Finished(Ok(()))
            &&& states[4].active_children@ == states[0].active_children@.remove(name).insert(
                spec.id@,
                ActiveChild { spec, cell: new_cell },
            )
        }),
{
}

/// A child that has gone and whose policy does not ask for it is not started again: nothing is left
/// to do, and no failure is counted.
pub proof fn law_a_child_may_be_left_alone<S, B>(
    before: DynamicSupervisorState<S, B>,
    after: DynamicSupervisorState<S, B>,
    cell: ActorCell,
    abnormal: bool,
    reason: ExitReason,
    now: Timestamp,
    work: Result<DynamicWork<S, B>, SupervisorError>,
) where B: Fn(&str, usize, Timestamp, Option<Duration>) -> Option<Duration>
    requires
        cell.name matches Some(name) && before.active_children@.contains_key(name@)
            && !before.active_children@[name@].spec.restart.applies(abnormal),
        dynamic::child_gone(before, after, cell, abnormal, reason, now, work),
    ensures
        work == Ok::<DynamicWork<S, B>, SupervisorError>(DynamicWork::Finished(Ok(()))),
        after.active_children@ == before.active_children@.remove(cell.name->Some_0@),
        after.child_failure_state@ == before.child_failure_state@,
        after.log() == before.log(),
{
}

/// The options stay as they are while restarts are handled.
proof fn lemma_same_options<S, B>(
    befores: Seq<DynamicSupervisorState<S, B>>,
    afters: Seq<DynamicSupervisorState<S, B>>,
    history: Seq<RestartEntry>,
    results: Seq<Result<(), SupervisorError>>,
    k: int,
) where B: Fn(&str, usize, Timestamp, Option<Duration>) -> Option<Duration>
    requires
        0 <= k < history.len(),
        befores.len() == history.len(),
        afters.len() == history.len(),
        forall|k: int|
            0 <= k < history.len() ==> (#[trigger] afters[k]).restart_logged(
                befores[k],
                history[k].child_id,
                history[k].timestamp,
                results[k],
            ),
        forall|k: int|
            0 < k < history.len() ==> (#[trigger] befores[k]).options == afters[k - 1].options,
    ensures
        befores[k].options == befores[0].options,
        afters[k].options == befores[0].options,
    decreases k,
{
    assert(afters[k].restart_logged(
        befores[k],
        history[k].child_id,
        history[k].timestamp,
        results[k],
    ));
    if k > 0 {
        lemma_same_options(befores, afters, history, results, k - 1);
        assert(befores[k].options == afters[k - 1].options);
    }
}

/// A supervisor gives up over a restart exactly if more than `max_restarts` restarts, this one
/// counted, lie within `max_window` before it and after the last pause of `reset_after`. `befores`
/// and `afters` are the states before and after the handling of each restart so far,
/// whatever was handled in between.
pub proof fn law_meltdown_counts_the_recent_restarts<S, B>(
    befores: Seq<DynamicSupervisorState<S, B>>,
    afters: Seq<DynamicSupervisorState<S, B>>,
    history: Seq<RestartEntry>,
    results: Seq<Result<(), SupervisorError>>,
) where B: Fn(&str, usize, Timestamp, Option<Duration>) -> Option<Duration>
    requires
        history.len() > 0,
        befores.len() == history.len(),
        afters.len() == history.len(),
        results.len() == history.len(),
        befores[0].log() == Seq::<RestartEntry>::empty(),
        restart_laws::in_order(history),
        forall|k: int|
            0 <= k < history.len() ==> (#[trigger] afters[k]).restart_logged(
                befores[k],
                history[k].child_id,
                history[k].timestamp,
                results[k],
            ),
        forall|k: int|
            0 < k < history.len() ==> {
                &&& (#[trigger] befores[k]).log() == afters[k - 1].log()
                &&& befores[k].options == afters[k - 1].options
            },
    ensures
        ({
            let limits = befores[0].options.limits();
            let recent = restart_laws::since_pause(limits.reset_after, history).filter(
                restart::within_window(limits.max_window, history.last().timestamp),
            );
            &&& afters.last().log() == recent
            &&& results.last() is Err <==> recent.len() > limits.max_restarts
        }),
{
    let limits = befores[0].options.limits();
    let logs = Seq::new(
        history.len() + 1,
        |k: int|
            if k == 0 {
                befores[0].log()
            } else {
                afters[k - 1].log()
            },
    );
    assert forall|k: int| 0 <= k < history.len() implies befores[k].options
        == befores[0].options && (#[trigger] afters[k]).options == befores[0].options by {
        lemma_same_options(befores, afters, history, results, k);
    }
    assert forall|k: int| 0 <= k < history.len() implies #[trigger] logs[k + 1]
        == restart::log_after(logs[k], limits, history[k]) by {
        assert(afters[k].restart_logged(
            befores[k],
            history[k].child_id,
            history[k].timestamp,
            results[k],
        ));
        assert(befores[k].log() == logs[k]);
        assert(RestartEntry { child_id: history[k].child_id, timestamp: history[k].timestamp }
            == history[k]);
    }
    restart_laws::lemma_log_of_history(limits, history, logs);
    restart_laws::law_log_holds_the_recent_restarts(limits, history);
    let last = history.len() - 1;
    assert(logs.last() == afters[last].log());
    assert(afters[last].restart_logged(
        befores[last],
        history[last].child_id,
        history[last].timestamp,
        results[last],
    ));
}

} // verus!
