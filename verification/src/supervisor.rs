//! The supervisor of a fixed list of children.
use vstd::prelude::*;
use crate::actor::{ActorCell, ActorProcessingErr, ExitReason, SupervisionEvent, SupervisorError};
use crate::child::{ChildFailureState, ChildSpec};
use crate::child_map::ChildMap;
use crate::plan;
use crate::plan::{
    GRACEFUL_STOP_MILLIS, PlannedTask, SETTLE_MILLIS, SupervisorOutcome, SupervisorTask,
    SupervisorWork, find_cells, find_child, push_spawns,
};
use crate::restart;
use crate::restart::{
    CoreSupervisorOptions, RestartDecision, RestartEntry, RestartLimits, RestartLog, RestartRequest,
    decide_restart, note_start, track_restart,
};
use crate::time::{Duration, Timestamp};

verus! {

/// Which children are started again when one of them fails.
#[derive(Clone, Copy, Debug, PartialEq, Eq, Structural)]
pub enum SupervisorStrategy {
    /// Only the child that failed.
    OneForOne,
    /// All children; those that still run are stopped before.
    OneForAll,
    /// The child that failed and those after it in the list; those that still run are killed
    /// before.
    RestForOne,
}

/// How a supervisor deals with failures. It gives up when more than `max_restarts` restarts lie
/// within `max_window`, and forgets past restarts once there was none for `reset_after`.
#[derive(Clone, Copy, Debug)]
pub struct SupervisorOptions {
    /// Which children are started again when one of them fails.
    pub strategy: SupervisorStrategy,
    /// How many restarts may lie within `max_window`.
    pub max_restarts: usize,
    /// The span over which restarts are counted.
    pub max_window: Duration,
    /// After how long without a restart the count starts anew.
    pub reset_after: Option<Duration>,
}

impl CoreSupervisorOptions<SupervisorStrategy> for SupervisorOptions {
    open spec fn limits(&self) -> RestartLimits {
        RestartLimits {
            max_restarts: self.max_restarts,
            max_window: self.max_window,
            reset_after: self.reset_after,
        }
    }

    open spec fn chosen_strategy(&self) -> SupervisorStrategy {
        self.strategy
    }

    fn max_restarts(&self) -> (n: usize) {
        self.max_restarts
    }

    fn max_window(&self) -> (window: Duration) {
        self.max_window
    }

    fn reset_after(&self) -> (span: Option<Duration>) {
        self.reset_after
    }

    fn strategy(&self) -> (strategy: SupervisorStrategy) {
        self.strategy
    }
}

/// The messages of a supervisor. It sends itself the first three.
#[derive(Debug, PartialEq, Eq)]
pub enum SupervisorMsg {
    /// Start this child again.
    OneForOneSpawn { child_id: String },
    /// Stop all children and start them again, because of this child.
    OneForAllSpawn { child_id: String },
    /// Kill this child and those after it, and start them again.
    RestForOneSpawn { child_id: String },
    /// Answer with a copy of the state.
    InspectState,
}

/// What a supervisor is started with.
pub struct SupervisorArguments<S, B> where
    B: Fn(&str, usize, Timestamp, Option<Duration>) -> Option<Duration>,
 {
    /// The children, in the order in which they are started.
    pub child_specs: Vec<ChildSpec<S, B>>,
    /// How failures are dealt with.
    pub options: SupervisorOptions,
}

/// The state of a supervisor.
pub struct SupervisorState<S, B> where
    B: Fn(&str, usize, Timestamp, Option<Duration>) -> Option<Duration>,
 {
    /// The children, in the order in which they are started.
    pub child_specs: Vec<ChildSpec<S, B>>,
    /// What is known of the failures of each child.
    pub child_failure_state: ChildMap<ChildFailureState>,
    /// The restarts that still count.
    pub restart_log: Vec<RestartLog>,
    /// How failures are dealt with.
    pub options: SupervisorOptions,
}

impl<S, B> Clone for SupervisorState<S, B> where
    B: Fn(&str, usize, Timestamp, Option<Duration>) -> Option<Duration>,
 {
    fn clone(&self) -> (copy: Self)
        ensures
            copy.child_specs@ == self.child_specs@,
            copy.child_failure_state@ == self.child_failure_state@,
            copy.restart_log@ == self.restart_log@,
            copy.options == self.options,
    {
        let copy = SupervisorState {
            child_specs: self.child_specs.clone(),
            child_failure_state: self.child_failure_state.clone(),
            restart_log: self.restart_log.clone(),
            options: self.options,
        };
        proof {
            assert(copy.child_specs@ =~= self.child_specs@);
            assert(copy.child_failure_state@ =~= self.child_failure_state@);
            assert(copy.restart_log@ =~= self.restart_log@);
        }
        copy
    }
}

impl<S, B> SupervisorState<S, B> where
    B: Fn(&str, usize, Timestamp, Option<Duration>) -> Option<Duration>,
 {
    /// The contents of the log.
    pub open spec fn log(self) -> Seq<RestartEntry> {
        restart::log_view(self.restart_log@)
    }

    /// The state before anything has happened.
    pub fn new(args: SupervisorArguments<S, B>) -> (state: Self)
        ensures
            state.child_specs == args.child_specs,
            state.options == args.options,
            state.child_failure_state@ == Map::<Seq<char>, ChildFailureState>::empty(),
            state.restart_log@ == Seq::<RestartLog>::empty(),
    {
        SupervisorState {
            child_specs: args.child_specs,
            child_failure_state: ChildMap::new(),
            restart_log: Vec::new(),
            options: args.options,
        }
    }

    /// The message by which the supervisor has a child started again.
    pub fn restart_msg(&self, child_spec: &ChildSpec<S, B>, strategy: SupervisorStrategy) -> (msg:
        SupervisorMsg)
        ensures
            msg == plan::restart_message(strategy, child_spec.id),
    {
        let child_id = child_spec.id.clone();
        match strategy {
            SupervisorStrategy::OneForOne => SupervisorMsg::OneForOneSpawn { child_id },
            SupervisorStrategy::OneForAll => SupervisorMsg::OneForAllSpawn { child_id },
            SupervisorStrategy::RestForOne => SupervisorMsg::RestForOneSpawn { child_id },
        }
    }

    /// Whether `self` is `before` with a restart of `child_id` at `now` in the log, and whether
    /// `result` says that the supervisor has to give up over it.
    pub open spec fn restart_logged(
        self,
        before: Self,
        child_id: Seq<char>,
        now: Timestamp,
        result: Result<(), SupervisorError>,
    ) -> bool {
        &&& self.child_specs == before.child_specs
        &&& self.child_failure_state == before.child_failure_state
        &&& self.options == before.options
        &&& self.log() == restart::log_after(
            before.log(),
            before.options.limits(),
            RestartEntry { child_id, timestamp: now },
        )
        &&& match result {
            Ok(()) => !restart::too_many(self.log(), self.options.limits()),
            Err(error) => {
                &&& restart::too_many(self.log(), self.options.limits())
                &&& error matches SupervisorError::Meltdown { reason }
                &&& reason@ == "max_restarts exceeded"@
            },
        }
    }

    /// Logs a restart, and fails if the supervisor has to give up over it.
    pub fn track_global_restart(&mut self, child_id: &str, now: Timestamp) -> (result: Result<
        (),
        SupervisorError,
    >)
        ensures
            final(self).restart_logged(*old(self), child_id@, now, result),
    {
        track_restart::<SupervisorStrategy, SupervisorOptions>(
            &mut self.restart_log,
            &self.options,
            child_id,
            now,
        )
    }

    /// Whether `self` is `before` after a child has gone, and whether `request` is what is to be
    /// sent so that it is started again; nothing if it is not.
    pub open spec fn restart_handled(
        self,
        before: Self,
        spec: ChildSpec<S, B>,
        abnormal: bool,
        reason: ExitReason,
        now: Timestamp,
        request: Option<RestartRequest<SupervisorMsg>>,
    ) -> bool {
        &&& self.child_specs == before.child_specs
        &&& self.restart_log == before.restart_log
        &&& self.options == before.options
        &&& match request {
            None => restart::decided(
                before.child_failure_state@,
                spec,
                abnormal,
                now,
                RestartDecision::Leave,
                self.child_failure_state@,
            ),
            Some(request) => {
                &&& restart::decided(
                    before.child_failure_state@,
                    spec,
                    abnormal,
                    now,
                    RestartDecision::Restart { delay: request.delay },
                    self.child_failure_state@,
                )
                &&& request.msg == plan::restart_message(before.options.strategy, spec.id)
                &&& request.reason == reason
            },
        }
    }

    /// Decides whether a child that has gone is started again, and counts its failure if so.
    pub fn handle_child_restart(
        &mut self,
        child_spec: &ChildSpec<S, B>,
        abnormal: bool,
        reason: ExitReason,
        now: Timestamp,
    ) -> (request: Option<RestartRequest<SupervisorMsg>>)
        ensures
            final(self).restart_handled(*old(self), *child_spec, abnormal, reason, now, request),
    {
        match decide_restart(&mut self.child_failure_state, child_spec, abnormal, now) {
            RestartDecision::Leave => None,
            RestartDecision::Restart { delay } => {
                let msg = self.restart_msg(child_spec, self.options.strategy());
                Some(RestartRequest { msg, delay, reason })
            },
        }
    }

    /// Takes the outcome of spawning a child. One that could not be spawned has gone abnormally.
    pub fn spawn_child(
        &mut self,
        child_spec: &ChildSpec<S, B>,
        spawned: Result<(), String>,
        now: Timestamp,
    ) -> (request: Option<RestartRequest<SupervisorMsg>>)
        ensures
            match spawned {
                Ok(()) => request is None && *final(self) == *old(self),
                Err(reason) => final(self).restart_handled(
                    *old(self),
                    *child_spec,
                    true,
                    spawn_failure(child_spec.id, reason),
                    now,
                    request,
                ),
            },
    {
        match spawned {
            Ok(()) => None,
            Err(reason) => {
                let child_id = child_spec.id.clone();
                let error = SupervisorError::ChildSpawnError { child_id, reason };
                let reason = ExitReason::Error(ActorProcessingErr::Supervisor(error));
                self.handle_child_restart(child_spec, true, reason, now)
            },
        }
    }

    /// The work of spawning all children, in the order of the list.
    pub fn spawn_all_children(&self) -> (work: SupervisorWork<S, B>)
        ensures
            work.carries_out(plan::spawns(self.child_specs@)),
    {
        let mut tasks: Vec<SupervisorTask<S, B>> = Vec::new();
        push_spawns(&mut tasks, &self.child_specs, 0);
        assert(self.child_specs@.skip(0) =~= self.child_specs@);
        assert(plan::tasks_view(tasks@) =~= plan::spawns(self.child_specs@));
        SupervisorWork::begin(tasks)
    }

    /// Starts one child again, unless the supervisor has to give up.
    pub fn perform_one_for_one_spawn(&mut self, child_id: &str, now: Timestamp) -> (work: Result<
        SupervisorWork<S, B>,
        SupervisorError,
    >)
        ensures
            final(self).restart_logged(*old(self), child_id@, now, without_value(work)),
            work matches Ok(work) ==> work.carries_out(
                plan::one_for_one_plan(old(self).child_specs@, child_id@),
            ),
    {
        self.track_global_restart(child_id, now)?;
        let mut tasks: Vec<SupervisorTask<S, B>> = Vec::new();
        match find_child(&self.child_specs, child_id) {
            Some(i) => {
                let spec = self.child_specs[i].clone();
                tasks.push(SupervisorTask::SpawnChild { spec });
            },
            None => {},
        }
        assert(plan::tasks_view(tasks@) =~= plan::one_for_one_plan(self.child_specs@, child_id@));
        Ok(SupervisorWork::begin(tasks))
    }

    /// Stops all of `children`, which are those linked to the supervisor, and starts all children
    /// of the list again, unless the supervisor has to give up.
    pub fn perform_one_for_all_spawn(
        &mut self,
        child_id: &str,
        children: Vec<ActorCell>,
        now: Timestamp,
    ) -> (work: Result<SupervisorWork<S, B>, SupervisorError>)
        ensures
            final(self).restart_logged(*old(self), child_id@, now, without_value(work)),
            work matches Ok(work) ==> work.carries_out(
                plan::one_for_all_plan(old(self).child_specs@, children@),
            ),
    {
        self.track_global_restart(child_id, now)?;
        let ghost cells = children@;
        let mut tasks: Vec<SupervisorTask<S, B>> = Vec::new();
        let timeout = Duration::from_millis(GRACEFUL_STOP_MILLIS);
        tasks.push(SupervisorTask::StopChildren { cells: children, timeout });
        let duration = Duration::from_millis(SETTLE_MILLIS);
        tasks.push(SupervisorTask::Sleep { duration });
        push_spawns(&mut tasks, &self.child_specs, 0);
        assert(self.child_specs@.skip(0) =~= self.child_specs@);
        assert(plan::tasks_view(tasks@) =~= plan::one_for_all_plan(self.child_specs@, cells));
        Ok(SupervisorWork::begin(tasks))
    }

    /// Kills those of `children`, which are those linked to the supervisor, that the list holds at
    /// or after the child `child_id`, and starts these children again, unless the supervisor has to
    /// give up.
    pub fn perform_rest_for_one_spawn(
        &mut self,
        child_id: &str,
        children: &Vec<ActorCell>,
        now: Timestamp,
    ) -> (work: Result<SupervisorWork<S, B>, SupervisorError>)
        ensures
            final(self).restart_logged(*old(self), child_id@, now, without_value(work)),
            work matches Ok(work) ==> work.carries_out(
                plan::rest_for_one_plan(old(self).child_specs@, child_id@, children@),
            ),
    {
        self.track_global_restart(child_id, now)?;
        let mut tasks: Vec<SupervisorTask<S, B>> = Vec::new();
        match find_child(&self.child_specs, child_id) {
            Some(i) => {
                let cells = find_cells(&self.child_specs, i, children);
                tasks.push(SupervisorTask::KillChildren { cells });
                let duration = Duration::from_millis(SETTLE_MILLIS);
                tasks.push(SupervisorTask::Sleep { duration });
                push_spawns(&mut tasks, &self.child_specs, i);
            },
            None => {},
        }
        assert(plan::tasks_view(tasks@) =~= plan::rest_for_one_plan(
            self.child_specs@,
            child_id@,
            children@,
        ));
        Ok(SupervisorWork::begin(tasks))
    }

    /// Whether `self` is `before` after a piece of work went as `outcome` says, and whether `next`
    /// is what there is to do then.
    pub open spec fn resumed(
        self,
        before: Self,
        work: SupervisorWork<S, B>,
        outcome: SupervisorOutcome,
        now: Timestamp,
        next: SupervisorWork<S, B>,
    ) -> bool {
        match (work, outcome) {
            // What was asked for was done: go on.
            (SupervisorWork::Perform { rest, .. }, SupervisorOutcome::Done) => {
                self == before && next.carries_out(plan::tasks_view(rest@)) && next.goes_on_with(
                    rest@,
                )
            },
            (SupervisorWork::Send { rest, .. }, SupervisorOutcome::Done) => {
                self == before && next.carries_out(plan::tasks_view(rest@)) && next.goes_on_with(
                    rest@,
                )
            },
            // The child has gone before it was there: have it started again if it is to be, go on.
            (
                SupervisorWork::Perform { task: SupervisorTask::SpawnChild { spec }, rest },
                SupervisorOutcome::SpawnFailed { reason },
            ) => {
                let gone = spawn_failure(spec.id, reason);
                match next {
                    SupervisorWork::Send { request, rest: next_rest } => {
                        &&& self.restart_handled(before, spec, true, gone, now, Some(request))
                        &&& next_rest == rest
                    },
                    _ => {
                        &&& self.restart_handled(before, spec, true, gone, now, None)
                        &&& next.carries_out(plan::tasks_view(rest@))
                        &&& next.goes_on_with(rest@)
                    },
                }
            },
            // Without an answer to give, or a message to itself, the handler fails. In the second
            // case the supervisor also loses its list of children.
            (
                SupervisorWork::Perform { task: SupervisorTask::ReplyState, .. },
                SupervisorOutcome::SendFailed { reason },
            ) => {
                &&& self == before
                &&& next == SupervisorWork::<S, B>::Finished(
                    Err(ActorProcessingErr::Messaging(reason)),
                )
            },
            (SupervisorWork::Send { .. }, SupervisorOutcome::SendFailed { reason }) => {
                &&& self.child_specs@ == Seq::<ChildSpec<S, B>>::empty()
                &&& self.child_failure_state == before.child_failure_state
                &&& self.restart_log == before.restart_log
                &&& self.options == before.options
                &&& next == SupervisorWork::<S, B>::Finished(
                    Err(ActorProcessingErr::Messaging(reason)),
                )
            },
            // The outcome is not one of this work.
            _ => self == before && next == work,
        }
    }

    /// Takes the outcome of a piece of work and says what to do next. An outcome that the work
    /// cannot have changes nothing.
    pub fn resume(
        &mut self,
        work: SupervisorWork<S, B>,
        outcome: SupervisorOutcome,
        now: Timestamp,
    ) -> (next: SupervisorWork<S, B>)
        ensures
            final(self).resumed(*old(self), work, outcome, now, next),
    {
        match work {
            SupervisorWork::Perform { task, rest } => match outcome {
                SupervisorOutcome::Done => SupervisorWork::begin(rest),
                SupervisorOutcome::SpawnFailed { reason } => match task {
                    SupervisorTask::SpawnChild { spec } => {
                        match self.spawn_child(&spec, Err(reason), now) {
                            Some(request) => SupervisorWork::Send { request, rest },
                            None => SupervisorWork::begin(rest),
                        }
                    },
                    task => SupervisorWork::Perform { task, rest },
                },
                SupervisorOutcome::SendFailed { reason } => match task {
                    SupervisorTask::ReplyState => {
                        SupervisorWork::Finished(Err(ActorProcessingErr::Messaging(reason)))
                    },
                    task => SupervisorWork::Perform { task, rest },
                },
            },
            SupervisorWork::Send { request, rest } => match outcome {
                SupervisorOutcome::Done => SupervisorWork::begin(rest),
                SupervisorOutcome::SendFailed { reason } => {
                    self.child_specs = Vec::new();
                    SupervisorWork::Finished(Err(ActorProcessingErr::Messaging(reason)))
                },
                SupervisorOutcome::SpawnFailed { .. } => SupervisorWork::Send { request, rest },
            },
            SupervisorWork::Finished(result) => SupervisorWork::Finished(result),
        }
    }

    /// Whether `self` is `before` after a child of this name has gone, and whether `work` is what
    /// there is to do then: nothing for a child that is not in the list, or is not started again.
    pub open spec fn child_gone(
        self,
        before: Self,
        name: Seq<char>,
        abnormal: bool,
        reason: ExitReason,
        now: Timestamp,
        work: SupervisorWork<S, B>,
    ) -> bool {
        let i = plan::position(before.child_specs@, name) as int;
        if i < before.child_specs@.len() {
            let spec = before.child_specs@[i];
            match work {
                SupervisorWork::Send { request, rest } => {
                    &&& self.restart_handled(before, spec, abnormal, reason, now, Some(request))
                    &&& rest@.len() == 0
                },
                _ => {
                    &&& self.restart_handled(before, spec, abnormal, reason, now, None)
                    &&& work == SupervisorWork::<S, B>::Finished(Ok(()))
                },
            }
        } else {
            self == before && work == SupervisorWork::<S, B>::Finished(Ok(()))
        }
    }

    /// Has a child that has gone started again, if it is in the list and is to be.
    fn restart_child(
        &mut self,
        name: &String,
        abnormal: bool,
        reason: ExitReason,
        now: Timestamp,
    ) -> (work: SupervisorWork<S, B>)
        ensures
            final(self).child_gone(*old(self), name@, abnormal, reason, now, work),
    {
        match find_child(&self.child_specs, name.as_str()) {
            Some(i) => {
                let spec = self.child_specs[i].clone();
                match self.handle_child_restart(&spec, abnormal, reason, now) {
                    Some(request) => SupervisorWork::Send { request, rest: Vec::new() },
                    None => SupervisorWork::Finished(Ok(())),
                }
            },
            None => SupervisorWork::Finished(Ok(())),
        }
    }
}

/// The supervisor of a fixed list of children. It spawns them when it starts, and starts them again
/// when they go, by its strategy, until it has to give up.
pub struct Supervisor;

impl Supervisor {
    /// The state to start with.
    pub fn pre_start<S, B>(&self, args: SupervisorArguments<S, B>) -> (state: SupervisorState<
        S,
        B,
    >) where B: Fn(&str, usize, Timestamp, Option<Duration>) -> Option<Duration>
        ensures
            state.child_specs == args.child_specs,
            state.options == args.options,
            state.child_failure_state@ == Map::<Seq<char>, ChildFailureState>::empty(),
            state.restart_log@ == Seq::<RestartLog>::empty(),
    {
        SupervisorState::new(args)
    }

    /// What to do once the supervisor has started: spawn all children, in the order of the list.
    pub fn post_start<S, B>(&self, state: &SupervisorState<S, B>) -> (work: SupervisorWork<
        S,
        B,
    >) where B: Fn(&str, usize, Timestamp, Option<Duration>) -> Option<Duration>
        ensures
            work.carries_out(plan::spawns(state.child_specs@)),
    {
        state.spawn_all_children()
    }

    /// Handles a message. `children` are the actors that are linked to the supervisor.
    pub fn handle<S, B>(
        &self,
        msg: SupervisorMsg,
        children: Vec<ActorCell>,
        state: &mut SupervisorState<S, B>,
        now: Timestamp,
    ) -> (work: Result<SupervisorWork<S, B>, SupervisorError>) where
        B: Fn(&str, usize, Timestamp, Option<Duration>) -> Option<Duration>,

        ensures
            handled(*old(state), *final(state), msg, children@, now, work),
    {
        match msg {
            SupervisorMsg::OneForOneSpawn { child_id } => {
                state.perform_one_for_one_spawn(child_id.as_str(), now)
            },
            SupervisorMsg::OneForAllSpawn { child_id } => {
                state.perform_one_for_all_spawn(child_id.as_str(), children, now)
            },
            SupervisorMsg::RestForOneSpawn { child_id } => {
                state.perform_rest_for_one_spawn(child_id.as_str(), &children, now)
            },
            SupervisorMsg::InspectState => {
                let mut tasks: Vec<SupervisorTask<S, B>> = Vec::new();
                tasks.push(SupervisorTask::ReplyState);
                assert(plan::tasks_view(tasks@) =~= seq![PlannedTask::ReplyState]);
                Ok(SupervisorWork::begin(tasks))
            },
        }
    }

    /// Takes note of what happened to an actor that is linked to the supervisor: one that stopped
    /// has gone normally, one that failed has gone abnormally.
    pub fn handle_supervisor_evt<S, B>(
        &self,
        evt: SupervisionEvent,
        state: &mut SupervisorState<S, B>,
        now: Timestamp,
    ) -> (work: Result<SupervisorWork<S, B>, SupervisorError>) where
        B: Fn(&str, usize, Timestamp, Option<Duration>) -> Option<Duration>,

        ensures
            event_handled(*old(state), *final(state), evt, now, work),
    {
        match evt {
            SupervisionEvent::ActorStarted(cell) => match cell.name {
                Some(name) => {
                    if find_child(&state.child_specs, name.as_str()).is_some() {
                        note_start(&mut state.child_failure_state, name.as_str(), now);
                    }
                    Ok(SupervisorWork::Finished(Ok(())))
                },
                None => Err(SupervisorError::ChildNameNotSet { pid: cell.id }),
            },
            SupervisionEvent::ActorTerminated(cell, reason) => match cell.name {
                Some(name) => Ok(
                    state.restart_child(&name, false, ExitReason::Reason(reason), now),
                ),
                None => Err(SupervisorError::ChildNameNotSet { pid: cell.id }),
            },
            SupervisionEvent::ActorFailed(cell, error) => match cell.name {
                Some(name) => {
                    let reason = ExitReason::Error(ActorProcessingErr::Actor(error));
                    Ok(state.restart_child(&name, true, reason, now))
                },
                None => Err(SupervisorError::ChildNameNotSet { pid: cell.id }),
            },
            SupervisionEvent::ProcessGroupChanged => Ok(SupervisorWork::Finished(Ok(()))),
        }
    }

    /// What to do once the supervisor stops of its own accord: bring all of `children`, which are
    /// the actors linked to it, to an end.
    pub fn post_stop<S, B>(&self, children: Vec<ActorCell>) -> (task: SupervisorTask<
        S,
        B,
    >) where B: Fn(&str, usize, Timestamp, Option<Duration>) -> Option<Duration>
        ensures
            task@ == (PlannedTask::<S, B>::StopChildren {
                cells: children@,
                timeout: plan::millis(GRACEFUL_STOP_MILLIS),
            }),
            task matches SupervisorTask::StopChildren { cells, timeout } && cells@ == children@
                && timeout.nanos == 500_000_000,
    {
        let timeout = Duration::from_millis(GRACEFUL_STOP_MILLIS);
        SupervisorTask::StopChildren { cells: children, timeout }
    }
}

/// Whether `after` is `before` once a message has been handled, and whether `work` is what there is
/// to do then. `children` are the actors that are linked to the supervisor.
pub open spec fn handled<S, B>(
    before: SupervisorState<S, B>,
    after: SupervisorState<S, B>,
    msg: SupervisorMsg,
    children: Seq<ActorCell>,
    now: Timestamp,
    work: Result<SupervisorWork<S, B>, SupervisorError>,
) -> bool where B: Fn(&str, usize, Timestamp, Option<Duration>) -> Option<Duration> {
    &&& match restarted_child(msg) {
        Some(id) => after.restart_logged(before, id, now, without_value(work)),
        None => after == before && work is Ok,
    }
    &&& work matches Ok(work) ==> work.carries_out(plan_of(msg, before.child_specs@, children))
}

/// Whether `after` is `before` once an event has been handled, and whether `work` is what there is
/// to do then.
pub open spec fn event_handled<S, B>(
    before: SupervisorState<S, B>,
    after: SupervisorState<S, B>,
    evt: SupervisionEvent,
    now: Timestamp,
    work: Result<SupervisorWork<S, B>, SupervisorError>,
) -> bool where B: Fn(&str, usize, Timestamp, Option<Duration>) -> Option<Duration> {
    match evt {
        SupervisionEvent::ActorStarted(cell) => match cell.name {
            Some(name) => {
                &&& work == Ok::<SupervisorWork<S, B>, SupervisorError>(
                    SupervisorWork::Finished(Ok(())),
                )
                &&& after.child_specs == before.child_specs
                &&& after.restart_log == before.restart_log
                &&& after.options == before.options
                &&& after.child_failure_state@ == if plan::position(
                    before.child_specs@,
                    name@,
                ) < before.child_specs@.len() {
                    restart::failures_after_start(
                        before.child_failure_state@,
                        name@,
                        now,
                    )
                } else {
                    before.child_failure_state@
                }
            },
            None => refused_nameless(before, after, cell, work),
        },
        SupervisionEvent::ActorTerminated(cell, reason) => match cell.name {
            Some(name) => {
                &&& work is Ok
                &&& after.child_gone(
                    before,
                    name@,
                    false,
                    ExitReason::Reason(reason),
                    now,
                    work->Ok_0,
                )
            },
            None => refused_nameless(before, after, cell, work),
        },
        SupervisionEvent::ActorFailed(cell, error) => match cell.name {
            Some(name) => {
                &&& work is Ok
                &&& after.child_gone(
                    before,
                    name@,
                    true,
                    ExitReason::Error(ActorProcessingErr::Actor(error)),
                    now,
                    work->Ok_0,
                )
            },
            None => refused_nameless(before, after, cell, work),
        },
        SupervisionEvent::ProcessGroupChanged => {
            &&& after == before
            &&& work == Ok::<SupervisorWork<S, B>, SupervisorError>(
                SupervisorWork::Finished(Ok(())),
            )
        },
    }
}

/// Whether an event of an actor without a name was refused, with nothing changed.
pub open spec fn refused_nameless<S, B>(
    before: SupervisorState<S, B>,
    after: SupervisorState<S, B>,
    cell: ActorCell,
    work: Result<SupervisorWork<S, B>, SupervisorError>,
) -> bool where B: Fn(&str, usize, Timestamp, Option<Duration>) -> Option<Duration> {
    &&& after == before
    &&& work == Err::<SupervisorWork<S, B>, SupervisorError>(
        SupervisorError::ChildNameNotSet { pid: cell.id },
    )
}

/// The child that a message is about, if it has children started again.
pub open spec fn restarted_child(msg: SupervisorMsg) -> Option<Seq<char>> {
    match msg {
        SupervisorMsg::OneForOneSpawn { child_id } => Some(child_id@),
        SupervisorMsg::OneForAllSpawn { child_id } => Some(child_id@),
        SupervisorMsg::RestForOneSpawn { child_id } => Some(child_id@),
        SupervisorMsg::InspectState => None,
    }
}

/// The tasks that a message leads to, unless the supervisor has to give up over it.
pub open spec fn plan_of<S, B>(
    msg: SupervisorMsg,
    specs: Seq<ChildSpec<S, B>>,
    children: Seq<ActorCell>,
) -> Seq<PlannedTask<S, B>> where
    B: Fn(&str, usize, Timestamp, Option<Duration>) -> Option<Duration>,
 {
    match msg {
        SupervisorMsg::OneForOneSpawn { child_id } => plan::one_for_one_plan(specs, child_id@),
        SupervisorMsg::OneForAllSpawn { child_id } => plan::one_for_all_plan(specs, children),
        SupervisorMsg::RestForOneSpawn { child_id } => plan::rest_for_one_plan(
            specs,
            child_id@,
            children,
        ),
        SupervisorMsg::InspectState => seq![PlannedTask::ReplyState],
    }
}

/// Why a child that could not be spawned has gone.
pub open spec fn spawn_failure(child_id: String, reason: String) -> ExitReason {
    ExitReason::Error(
        ActorProcessingErr::Supervisor(SupervisorError::ChildSpawnError { child_id, reason }),
    )
}

/// A result without the value that it holds if it is a success.
pub open spec fn without_value<T, E>(result: Result<T, E>) -> Result<(), E> {
    match result {
        Ok(_) => Ok(()),
        Err(error) => Err(error),
    }
}

} // verus!
