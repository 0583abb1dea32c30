//! The supervisor of children that come and go.
//!
//! As with [`crate::Supervisor`], a handler decides, and the actor around it does what was decided
//! and reports how that went. The work that is next stands in a [`DynamicWork`].
use vstd::prelude::*;
use crate::actor::{ActorCell, ActorProcessingErr, ExitReason, SupervisionEvent, SupervisorError};
use crate::child::{ChildFailureState, ChildSpec};
use crate::child_map::ChildMap;
use crate::plan;
use crate::plan::SETTLE_MILLIS;
use crate::restart;
use crate::restart::{
    CoreSupervisorOptions, RestartDecision, RestartEntry, RestartLimits, RestartLog, RestartRequest,
    decide_restart, note_start, track_restart,
};
use crate::supervisor;
use crate::time::{Duration, Timestamp};

verus! {

/// How long a child of a dynamic supervisor has to stop before it is killed, in milliseconds.
pub const DYNAMIC_STOP_MILLIS: u64 = 100;

/// How a dynamic supervisor deals with its children. It gives up when more than `max_restarts`
/// restarts lie within `max_window`, and forgets past restarts once there was none for
/// `reset_after`.
#[derive(Clone, Copy, Debug)]
pub struct DynamicSupervisorOptions {
    /// How many children there may be at a time; any number without a limit.
    pub max_children: Option<usize>,
    /// How many restarts may lie within `max_window`.
    pub max_restarts: usize,
    /// The span over which restarts are counted.
    pub max_window: Duration,
    /// After how long without a restart the count starts anew.
    pub reset_after: Option<Duration>,
}

impl CoreSupervisorOptions<()> for DynamicSupervisorOptions {
    open spec fn limits(&self) -> RestartLimits {
        RestartLimits {
            max_restarts: self.max_restarts,
            max_window: self.max_window,
            reset_after: self.reset_after,
        }
    }

    open spec fn chosen_strategy(&self) -> () {
        ()
    }

    fn max_restarts(&self) -> (n: usize) {
        self.max_restarts
    }

    fn max_window(&self) -> (window: Duration) {
        self.max_window
    }

    fn reset_after(&self) -> (span: Option<Duration>) {
        self.reset_after
    }

    fn strategy(&self) -> (strategy: ()) {
        ()
    }
}

/// A child that a dynamic supervisor has spawned and that has not gone.
pub struct ActiveChild<S, B> where
    B: Fn(&str, usize, Timestamp, Option<Duration>) -> Option<Duration>,
 {
    pub spec: ChildSpec<S, B>,
    pub cell: ActorCell,
}

impl<S, B> Clone for ActiveChild<S, B> where
    B: Fn(&str, usize, Timestamp, Option<Duration>) -> Option<Duration>,
 {
    fn clone(&self) -> (copy: Self)
        ensures
            copy == *self,
    {
        ActiveChild { spec: self.spec.clone(), cell: self.cell.clone() }
    }
}

/// The state of a dynamic supervisor.
pub struct DynamicSupervisorState<S, B> where
    B: Fn(&str, usize, Timestamp, Option<Duration>) -> Option<Duration>,
 {
    /// What is known of the failures of each child.
    pub child_failure_state: ChildMap<ChildFailureState>,
    /// The restarts that still count.
    pub restart_log: Vec<RestartLog>,
    /// How children are dealt with.
    pub options: DynamicSupervisorOptions,
    /// The children, by id.
    pub active_children: ChildMap<ActiveChild<S, B>>,
}

impl<S, B> Clone for DynamicSupervisorState<S, B> where
    B: Fn(&str, usize, Timestamp, Option<Duration>) -> Option<Duration>,
 {
    fn clone(&self) -> (copy: Self)
        ensures
            copy.child_failure_state@ == self.child_failure_state@,
            copy.restart_log@ == self.restart_log@,
            copy.options == self.options,
            copy.active_children@ == self.active_children@,
    {
        let copy = DynamicSupervisorState {
            child_failure_state: self.child_failure_state.clone(),
            restart_log: self.restart_log.clone(),
            options: self.options,
            active_children: self.active_children.clone(),
        };
        proof {
            assert(copy.child_failure_state@ =~= self.child_failure_state@);
            assert(copy.restart_log@ =~= self.restart_log@);
            assert(copy.active_children@ =~= self.active_children@);
        }
        copy
    }
}

/// The messages of a dynamic supervisor.
pub enum DynamicSupervisorMsg<S, B> where
    B: Fn(&str, usize, Timestamp, Option<Duration>) -> Option<Duration>,
 {
    /// Spawn a child. With `reply` somebody waits for the answer; without it the supervisor has
    /// sent the message to itself so that a child is started again.
    SpawnChild { spec: ChildSpec<S, B>, reply: bool },
    /// Bring a child to an end. With `reply` somebody waits for the answer.
    TerminateChild { child_id: String, reply: bool },
    /// Answer with a copy of the state.
    InspectState,
}

/// What there is to do for a handler of a dynamic supervisor.
pub enum DynamicWork<S, B> where
    B: Fn(&str, usize, Timestamp, Option<Duration>) -> Option<Duration>,
 {
    /// Wait, before a child is started again.
    Sleep { duration: Duration, spec: ChildSpec<S, B>, reply: bool },
    /// Spawn a child.
    Spawn { spec: ChildSpec<S, B>, reply: bool },
    /// Send a message to the supervisor itself, because the child `child_id` could not be spawned.
    Retry { request: RestartRequest<DynamicSupervisorMsg<S, B>>, child_id: String, reply: bool },
    /// Send a message to the supervisor itself, because a child has gone.
    Restart { request: RestartRequest<DynamicSupervisorMsg<S, B>> },
    /// Bring a child to an end as a [`crate::ChildStop`] with this time to stop.
    Stop { cell: ActorCell, timeout: Duration, reply: bool },
    /// Answer whoever asked for a child to be spawned.
    ReplySpawned { answer: Result<(), ActorProcessingErr> },
    /// Answer whoever asked for a child to be brought to an end.
    ReplyTerminated,
    /// Send a copy of the state to whoever asked for it.
    ReplyState,
    /// Nothing. The handler ends with this result, and with an error the supervisor stops.
    Finished(Result<(), ActorProcessingErr>),
}

/// How a piece of work went.
#[derive(Debug)]
pub enum DynamicOutcome {
    /// It was done.
    Done,
    /// The child was spawned.
    Spawned { cell: ActorCell },
    /// The child could not be spawned.
    SpawnFailed { reason: String },
    /// The message or the answer could not be delivered.
    SendFailed { reason: String },
}

/// How a handler goes on that has come to a result: with the answer, if somebody waits for it;
/// then the result is no longer the handler's own.
pub open spec fn concluded<S, B>(
    answer: Result<(), ActorProcessingErr>,
    reply: bool,
) -> DynamicWork<S, B> where
    B: Fn(&str, usize, Timestamp, Option<Duration>) -> Option<Duration>,
 {
    if reply {
        DynamicWork::ReplySpawned { answer }
    } else {
        DynamicWork::Finished(answer)
    }
}

fn conclude<S, B>(answer: Result<(), ActorProcessingErr>, reply: bool) -> (work: DynamicWork<
    S,
    B,
>) where B: Fn(&str, usize, Timestamp, Option<Duration>) -> Option<Duration>
    ensures
        work == concluded::<S, B>(answer, reply),
{
    if reply {
        DynamicWork::ReplySpawned { answer }
    } else {
        DynamicWork::Finished(answer)
    }
}

/// Whether `answer` says that there are too many children.
pub open spec fn refuses_for_max_children(answer: Result<(), ActorProcessingErr>) -> bool {
    &&& answer matches Err(error)
    &&& error matches ActorProcessingErr::Supervisor(error)
    &&& error matches SupervisorError::Meltdown { reason }
    &&& reason@ == "max_children exceeded"@
}

impl<S, B> DynamicSupervisorState<S, B> where
    B: Fn(&str, usize, Timestamp, Option<Duration>) -> Option<Duration>,
 {
    /// The contents of the log.
    pub open spec fn log(self) -> Seq<RestartEntry> {
        restart::log_view(self.restart_log@)
    }

    /// Whether each child stands under its own id, and there are no more children than
    /// `max_children` allows.
    pub open spec fn well_formed(self) -> bool {
        &&& self.active_children@.dom().finite()
        &&& forall|id: Seq<char>| #[trigger]
            self.active_children@.contains_key(id) ==> self.active_children@[id].spec.id@ == id
        &&& self.options.max_children matches Some(max) ==> self.active_children@.len() <= max
    }

    /// Whether there is room for one more child.
    pub open spec fn has_room(self) -> bool {
        self.options.max_children matches Some(max) ==> self.active_children@.len() < max
    }

    /// The message by which the supervisor has a child started again.
    pub fn restart_msg(&self, child_spec: &ChildSpec<S, B>, _strategy: ()) -> (msg:
        DynamicSupervisorMsg<S, B>)
        ensures
            msg == (DynamicSupervisorMsg::SpawnChild { spec: *child_spec, reply: false }),
    {
        DynamicSupervisorMsg::SpawnChild { spec: child_spec.clone(), reply: false }
    }

    /// Whether `self` is `before` with a restart of `child_id` at `now` in the log, and whether
    /// `result` says that the supervisor has to give up over it.
    pub open spec fn restart_logged(
        self,
        before: Self,
        child_id: Seq<char>,
        now: Timestamp,
        result: Result<(), SupervisorError>,
    ) -> bool {
        &&& self.child_failure_state == before.child_failure_state
        &&& self.active_children == before.active_children
        &&& self.options == before.options
        &&& self.log() == restart::log_after(
            before.log(),
            before.options.limits(),
            RestartEntry { child_id, timestamp: now },
        )
        &&& match result {
            Ok(()) => !restart::too_many(self.log(), self.options.limits()),
            Err(error) => {
                &&& restart::too_many(self.log(), self.options.limits())
                &&& error matches SupervisorError::Meltdown { reason }
                &&& reason@ == "max_restarts exceeded"@
            },
        }
    }

    /// Logs a restart, and fails if the supervisor has to give up over it.
    pub fn track_global_restart(&mut self, child_id: &str, now: Timestamp) -> (result: Result<
        (),
        SupervisorError,
    >)
        ensures
            final(self).restart_logged(*old(self), child_id@, now, result),
    {
        track_restart::<(), DynamicSupervisorOptions>(
            &mut self.restart_log,
            &self.options,
            child_id,
            now,
        )
    }

    /// Whether `self` is `before` after a child has gone, but for the children, and whether
    /// `request` is what is to be sent so that it is started again; nothing if it is not.
    pub open spec fn restart_handled(
        self,
        before: Self,
        spec: ChildSpec<S, B>,
        abnormal: bool,
        reason: ExitReason,
        now: Timestamp,
        request: Option<RestartRequest<DynamicSupervisorMsg<S, B>>>,
    ) -> bool {
        &&& self.restart_log == before.restart_log
        &&& self.options == before.options
        &&& match request {
            None => restart::decided(
                before.child_failure_state@,
                spec,
                abnormal,
                now,
                RestartDecision::Leave,
                self.child_failure_state@,
            ),
            Some(request) => {
                &&& restart::decided(
                    before.child_failure_state@,
                    spec,
                    abnormal,
                    now,
                    RestartDecision::Restart { delay: request.delay },
                    self.child_failure_state@,
                )
                &&& request.msg == (DynamicSupervisorMsg::SpawnChild { spec, reply: false })
                &&& request.reason == reason
            },
        }
    }

    /// Decides whether a child that has gone is started again, and counts its failure if so.
    pub fn handle_child_restart(
        &mut self,
        child_spec: &ChildSpec<S, B>,
        abnormal: bool,
        reason: ExitReason,
        now: Timestamp,
    ) -> (request: Option<RestartRequest<DynamicSupervisorMsg<S, B>>>)
        ensures
            final(self).restart_handled(*old(self), *child_spec, abnormal, reason, now, request),
            final(self).active_children == old(self).active_children,
    {
        match decide_restart(&mut self.child_failure_state, child_spec, abnormal, now) {
            RestartDecision::Leave => None,
            RestartDecision::Restart { delay } => {
                let msg = self.restart_msg(child_spec, self.options.strategy());
                Some(RestartRequest { msg, delay, reason })
            },
        }
    }
}

/// The supervisor of children that come and go. Each child is started again by itself when it goes,
/// until the supervisor has to give up.
pub struct DynamicSupervisor;

impl DynamicSupervisor {
    /// The message that asks a dynamic supervisor for a child. Somebody waits for the answer.
    pub fn spawn_child<S, B>(spec: ChildSpec<S, B>) -> (msg: DynamicSupervisorMsg<S, B>) where
        B: Fn(&str, usize, Timestamp, Option<Duration>) -> Option<Duration>,

        ensures
            msg == (DynamicSupervisorMsg::SpawnChild { spec, reply: true }),
    {
        DynamicSupervisorMsg::SpawnChild { spec, reply: true }
    }

    /// The message that asks a dynamic supervisor to bring a child to an end. Somebody waits for
    /// the answer.
    pub fn terminate_child<S, B>(child_id: String) -> (msg: DynamicSupervisorMsg<S, B>) where
        B: Fn(&str, usize, Timestamp, Option<Duration>) -> Option<Duration>,

        ensures
            msg == (DynamicSupervisorMsg::<S, B>::TerminateChild { child_id, reply: true }),
    {
        DynamicSupervisorMsg::TerminateChild { child_id, reply: true }
    }

    /// What whoever asked for a child is told: the answer, if there was one, or why there was none.
    pub fn spawn_child_result(
        reply: Result<Result<(), ActorProcessingErr>, String>,
    ) -> (result: Result<(), ActorProcessingErr>)
        ensures
            result == match reply {
                Ok(answer) => answer,
                Err(reason) => Err(ActorProcessingErr::Messaging(reason)),
            },
    {
        match reply {
            Ok(answer) => answer,
            Err(reason) => Err(ActorProcessingErr::Messaging(reason)),
        }
    }

    /// What whoever asked for the end of a child is told: that it was done, or why there was no
    /// answer.
    pub fn terminate_child_result(reply: Result<(), String>) -> (result: Result<
        (),
        ActorProcessingErr,
    >)
        ensures
            result == match reply {
                Ok(()) => Ok::<(), ActorProcessingErr>(()),
                Err(reason) => Err(ActorProcessingErr::Messaging(reason)),
            },
    {
        match reply {
            Ok(()) => Ok(()),
            Err(reason) => Err(ActorProcessingErr::Messaging(reason)),
        }
    }

    /// The state to start with.
    pub fn pre_start<S, B>(&self, options: DynamicSupervisorOptions) -> (state:
        DynamicSupervisorState<S, B>) where
        B: Fn(&str, usize, Timestamp, Option<Duration>) -> Option<Duration>,

        ensures
            state.child_failure_state@ == Map::<Seq<char>, ChildFailureState>::empty(),
            state.restart_log@ == Seq::<RestartLog>::empty(),
            state.active_children@ == Map::<Seq<char>, ActiveChild<S, B>>::empty(),
            state.options == options,
            state.well_formed(),
    {
        DynamicSupervisorState {
            child_failure_state: ChildMap::new(),
            restart_log: Vec::new(),
            options,
            active_children: ChildMap::new(),
        }
    }

    /// Spawns a child if there is room for it.
    fn admit_child<S, B>(
        spec: ChildSpec<S, B>,
        reply: bool,
        state: &DynamicSupervisorState<S, B>,
    ) -> (work: DynamicWork<S, B>) where
        B: Fn(&str, usize, Timestamp, Option<Duration>) -> Option<Duration>,

        ensures
            admitted(*state, spec, reply, work),
    {
        let full = match state.options.max_children {
            Some(max) => state.active_children.len() >= max,
            None => false,
        };
        if full {
            let reason = "max_children exceeded".to_owned();
            let error = ActorProcessingErr::Supervisor(SupervisorError::Meltdown { reason });
            conclude(Err(error), reply)
        } else {
            DynamicWork::Spawn { spec, reply }
        }
    }

    /// Begins to spawn a child. One that is not started for the first time is a restart, which is
    /// logged first and may make the supervisor give up.
    pub fn handle_spawn_child<S, B>(
        &self,
        spec: ChildSpec<S, B>,
        reply: bool,
        state: &mut DynamicSupervisorState<S, B>,
        now: Timestamp,
    ) -> (work: DynamicWork<S, B>) where
        B: Fn(&str, usize, Timestamp, Option<Duration>) -> Option<Duration>,

        ensures
            spawn_begun(*old(state), *final(state), spec, reply, now, work),
    {
        if reply {
            Self::admit_child(spec, reply, state)
        } else {
            match state.track_global_restart(spec.id.as_str(), now) {
                Ok(()) => {
                    let duration = Duration::from_millis(SETTLE_MILLIS);
                    DynamicWork::Sleep { duration, spec, reply }
                },
                Err(error) => conclude(Err(ActorProcessingErr::Supervisor(error)), reply),
            }
        }
    }

    /// Begins to bring a child to an end, if there is one of this id.
    pub fn handle_terminate_child<S, B>(
        &self,
        child_id: &str,
        reply: bool,
        state: &mut DynamicSupervisorState<S, B>,
    ) -> (work: DynamicWork<S, B>) where
        B: Fn(&str, usize, Timestamp, Option<Duration>) -> Option<Duration>,

        ensures
            termination_begun(*old(state), *final(state), child_id@, reply, work),
    {
        match state.active_children.remove(child_id) {
            Some(child) => {
                let timeout = Duration::from_millis(DYNAMIC_STOP_MILLIS);
                DynamicWork::Stop { cell: child.cell, timeout, reply }
            },
            None => if reply {
                DynamicWork::ReplyTerminated
            } else {
                DynamicWork::Finished(Ok(()))
            },
        }
    }

    /// Handles a message.
    pub fn handle<S, B>(
        &self,
        msg: DynamicSupervisorMsg<S, B>,
        state: &mut DynamicSupervisorState<S, B>,
        now: Timestamp,
    ) -> (work: DynamicWork<S, B>) where
        B: Fn(&str, usize, Timestamp, Option<Duration>) -> Option<Duration>,

        ensures
            handled(*old(state), *final(state), msg, now, work),
    {
        match msg {
            DynamicSupervisorMsg::SpawnChild { spec, reply } => {
                self.handle_spawn_child(spec, reply, state, now)
            },
            DynamicSupervisorMsg::TerminateChild { child_id, reply } => {
                self.handle_terminate_child(child_id.as_str(), reply, state)
            },
            DynamicSupervisorMsg::InspectState => DynamicWork::ReplyState,
        }
    }

    /// Takes the outcome of a piece of work and says what to do next. An outcome that the work
    /// cannot have changes nothing.
    pub fn resume<S, B>(
        &self,
        work: DynamicWork<S, B>,
        outcome: DynamicOutcome,
        state: &mut DynamicSupervisorState<S, B>,
        now: Timestamp,
    ) -> (next: DynamicWork<S, B>) where
        B: Fn(&str, usize, Timestamp, Option<Duration>) -> Option<Duration>,

        ensures
            resumed(*old(state), *final(state), work, outcome, now, next),
    {
        match work {
            DynamicWork::Sleep { duration, spec, reply } => match outcome {
                DynamicOutcome::Done => Self::admit_child(spec, reply, state),
                _ => DynamicWork::Sleep { duration, spec, reply },
            },
            DynamicWork::Spawn { spec, reply } => match outcome {
                DynamicOutcome::Spawned { cell } => {
                    let id = spec.id.clone();
                    note_start(&mut state.child_failure_state, id.as_str(), now);
                    state.active_children.insert(id, ActiveChild { spec, cell });
                    conclude(Ok(()), reply)
                },
                DynamicOutcome::SpawnFailed { reason } => {
                    let child_id = spec.id.clone();
                    let error = SupervisorError::ChildSpawnError { child_id, reason };
                    let gone = ExitReason::Error(ActorProcessingErr::Supervisor(error));
                    match state.handle_child_restart(&spec, true, gone, now) {
                        Some(request) => {
                            DynamicWork::Retry { request, child_id: spec.id, reply }
                        },
                        None => conclude(Ok(()), reply),
                    }
                },
                _ => DynamicWork::Spawn { spec, reply },
            },
            DynamicWork::Retry { request, child_id, reply } => match outcome {
                DynamicOutcome::Done => conclude(Ok(()), reply),
                DynamicOutcome::SendFailed { reason } => {
                    let error = SupervisorError::ChildSpawnError { child_id, reason };
                    conclude(Err(ActorProcessingErr::Supervisor(error)), reply)
                },
                _ => DynamicWork::Retry { request, child_id, reply },
            },
            DynamicWork::Restart { request } => match outcome {
                DynamicOutcome::Done => DynamicWork::Finished(Ok(())),
                DynamicOutcome::SendFailed { reason } => {
                    DynamicWork::Finished(Err(ActorProcessingErr::Messaging(reason)))
                },
                _ => DynamicWork::Restart { request },
            },
            DynamicWork::Stop { cell, timeout, reply } => match outcome {
                DynamicOutcome::Done => if reply {
                    DynamicWork::ReplyTerminated
                } else {
                    DynamicWork::Finished(Ok(()))
                },
                _ => DynamicWork::Stop { cell, timeout, reply },
            },
            DynamicWork::ReplySpawned { answer } => match outcome {
                DynamicOutcome::Done => DynamicWork::Finished(Ok(())),
                DynamicOutcome::SendFailed { reason } => {
                    DynamicWork::Finished(Err(ActorProcessingErr::Messaging(reason)))
                },
                _ => DynamicWork::ReplySpawned { answer },
            },
            DynamicWork::ReplyTerminated => match outcome {
                DynamicOutcome::Done => DynamicWork::Finished(Ok(())),
                DynamicOutcome::SendFailed { reason } => {
                    DynamicWork::Finished(Err(ActorProcessingErr::Messaging(reason)))
                },
                _ => DynamicWork::ReplyTerminated,
            },
            DynamicWork::ReplyState => match outcome {
                DynamicOutcome::Done => DynamicWork::Finished(Ok(())),
                DynamicOutcome::SendFailed { reason } => {
                    DynamicWork::Finished(Err(ActorProcessingErr::Messaging(reason)))
                },
                _ => DynamicWork::ReplyState,
            },
            DynamicWork::Finished(result) => DynamicWork::Finished(result),
        }
    }

    /// Takes note that an actor that is linked to the supervisor has gone. It is no longer one of
    /// the children then, whether or not it is started again.
    pub fn handle_child_restart<S, B>(
        &self,
        cell: ActorCell,
        abnormal: bool,
        state: &mut DynamicSupervisorState<S, B>,
        reason: ExitReason,
        now: Timestamp,
    ) -> (work: Result<DynamicWork<S, B>, SupervisorError>) where
        B: Fn(&str, usize, Timestamp, Option<Duration>) -> Option<Duration>,

        ensures
            child_gone(*old(state), *final(state), cell, abnormal, reason, now, work),
    {
        let child_id = match cell.name {
            Some(name) => name,
            None => {
                return Err(SupervisorError::ChildNameNotSet { pid: cell.id });
            },
        };
        match state.active_children.remove(child_id.as_str()) {
            Some(child) => {
                match state.handle_child_restart(&child.spec, abnormal, reason, now) {
                    Some(request) => Ok(DynamicWork::Restart { request }),
                    None => Ok(DynamicWork::Finished(Ok(()))),
                }
            },
            None => {
                assert(state.active_children@ =~= old(state).active_children@);
                Err(SupervisorError::ChildNotFound { child_id })
            },
        }
    }

    /// Takes note of what happened to an actor that is linked to the supervisor: one that stopped
    /// has gone normally, one that failed has gone abnormally.
    pub fn handle_supervisor_evt<S, B>(
        &self,
        evt: SupervisionEvent,
        state: &mut DynamicSupervisorState<S, B>,
        now: Timestamp,
    ) -> (work: Result<DynamicWork<S, B>, SupervisorError>) where
        B: Fn(&str, usize, Timestamp, Option<Duration>) -> Option<Duration>,

        ensures
            event_handled(*old(state), *final(state), evt, now, work),
    {
        match evt {
            SupervisionEvent::ActorStarted(cell) => match cell.name {
                Some(name) => {
                    if state.active_children.contains_key(name.as_str()) {
                        note_start(&mut state.child_failure_state, name.as_str(), now);
                    }
                    Ok(DynamicWork::Finished(Ok(())))
                },
                None => Err(SupervisorError::ChildNameNotSet { pid: cell.id }),
            },
            SupervisionEvent::ActorTerminated(cell, reason) => {
                self.handle_child_restart(cell, false, state, ExitReason::Reason(reason), now)
            },
            SupervisionEvent::ActorFailed(cell, error) => {
                let reason = ExitReason::Error(ActorProcessingErr::Actor(error));
                self.handle_child_restart(cell, true, state, reason, now)
            },
            SupervisionEvent::ProcessGroupChanged => Ok(DynamicWork::Finished(Ok(()))),
        }
    }

    /// What to do once the supervisor stops of its own accord: bring all of `children`, which are
    /// the actors linked to it, to an end, each with the time to stop that comes with them.
    pub fn post_stop(&self, children: Vec<ActorCell>) -> (stops: (Vec<ActorCell>, Duration))
        ensures
            stops.0 == children,
            stops.1 == plan::millis(DYNAMIC_STOP_MILLIS),
            stops.1.nanos == 100_000_000,
    {
        (children, Duration::from_millis(DYNAMIC_STOP_MILLIS))
    }
}

/// Whether a child is spawned if there is room for it, and refused if not.
pub open spec fn admitted<S, B>(
    state: DynamicSupervisorState<S, B>,
    spec: ChildSpec<S, B>,
    reply: bool,
    work: DynamicWork<S, B>,
) -> bool where B: Fn(&str, usize, Timestamp, Option<Duration>) -> Option<Duration> {
    if state.has_room() {
        work == (DynamicWork::Spawn { spec, reply })
    } else {
        exists|answer: Result<(), ActorProcessingErr>|
            refuses_for_max_children(answer) && work == #[trigger] concluded::<S, B>(answer, reply)
    }
}

/// Whether `after` is `before` once the spawning of a child has begun, and whether `work` is what
/// there is to do then.
pub open spec fn spawn_begun<S, B>(
    before: DynamicSupervisorState<S, B>,
    after: DynamicSupervisorState<S, B>,
    spec: ChildSpec<S, B>,
    reply: bool,
    now: Timestamp,
    work: DynamicWork<S, B>,
) -> bool where B: Fn(&str, usize, Timestamp, Option<Duration>) -> Option<Duration> {
    if reply {
        after == before && admitted(before, spec, reply, work)
    } else {
        match work {
            DynamicWork::Sleep { duration, spec: next, reply: next_reply } => {
                &&& after.restart_logged(before, spec.id@, now, Ok(()))
                &&& duration == plan::millis(SETTLE_MILLIS)
                &&& next == spec
                &&& !next_reply
            },
            DynamicWork::Finished(Err(ActorProcessingErr::Supervisor(error))) => {
                after.restart_logged(before, spec.id@, now, Err(error))
            },
            _ => false,
        }
    }
}

/// What is left to do once a child has been brought to an end.
pub open spec fn terminated<S, B>(reply: bool) -> DynamicWork<S, B> where
    B: Fn(&str, usize, Timestamp, Option<Duration>) -> Option<Duration>,
 {
    if reply {
        DynamicWork::ReplyTerminated
    } else {
        DynamicWork::Finished(Ok(()))
    }
}

/// Whether `after` is `before` once the end of a child has begun, and whether `work` is what there
/// is to do then.
pub open spec fn termination_begun<S, B>(
    before: DynamicSupervisorState<S, B>,
    after: DynamicSupervisorState<S, B>,
    child_id: Seq<char>,
    reply: bool,
    work: DynamicWork<S, B>,
) -> bool where B: Fn(&str, usize, Timestamp, Option<Duration>) -> Option<Duration> {
    &&& after.active_children@ == before.active_children@.remove(child_id)
    &&& after.child_failure_state == before.child_failure_state
    &&& after.restart_log == before.restart_log
    &&& after.options == before.options
    &&& work == if before.active_children@.contains_key(child_id) {
        DynamicWork::Stop {
            cell: before.active_children@[child_id].cell,
            timeout: plan::millis(DYNAMIC_STOP_MILLIS),
            reply,
        }
    } else {
        terminated::<S, B>(reply)
    }
}

/// Whether `after` is `before` once a message has been handled, and whether `work` is what there is
/// to do then.
pub open spec fn handled<S, B>(
    before: DynamicSupervisorState<S, B>,
    after: DynamicSupervisorState<S, B>,
    msg: DynamicSupervisorMsg<S, B>,
    now: Timestamp,
    work: DynamicWork<S, B>,
) -> bool where B: Fn(&str, usize, Timestamp, Option<Duration>) -> Option<Duration> {
    match msg {
        DynamicSupervisorMsg::SpawnChild { spec, reply } => spawn_begun(
            before,
            after,
            spec,
            reply,
            now,
            work,
        ),
        DynamicSupervisorMsg::TerminateChild { child_id, reply } => termination_begun(
            before,
            after,
            child_id@,
            reply,
            work,
        ),
        DynamicSupervisorMsg::InspectState => {
            after == before && work == DynamicWork::<S, B>::ReplyState
        },
    }
}

/// Whether `after` is `before` with a child more, spawned at `now`.
pub open spec fn child_added<S, B>(
    before: DynamicSupervisorState<S, B>,
    after: DynamicSupervisorState<S, B>,
    spec: ChildSpec<S, B>,
    cell: ActorCell,
    now: Timestamp,
) -> bool where B: Fn(&str, usize, Timestamp, Option<Duration>) -> Option<Duration> {
    &&& after.active_children@ == before.active_children@.insert(
        spec.id@,
        ActiveChild { spec, cell },
    )
    &&& after.child_failure_state@ == restart::failures_after_start(
        before.child_failure_state@,
        spec.id@,
        now,
    )
    &&& after.restart_log == before.restart_log
    &&& after.options == before.options
}

/// Whether a message or an answer is what there is to deliver.
pub open spec fn delivers<S, B>(work: DynamicWork<S, B>) -> bool where
    B: Fn(&str, usize, Timestamp, Option<Duration>) -> Option<Duration>,
 {
    work is Restart || work is ReplySpawned || work is ReplyTerminated || work is ReplyState
}

/// Whether `after` is `before` after a piece of work went as `outcome` says, and whether `next` is
/// what there is to do then.
pub open spec fn resumed<S, B>(
    before: DynamicSupervisorState<S, B>,
    after: DynamicSupervisorState<S, B>,
    work: DynamicWork<S, B>,
    outcome: DynamicOutcome,
    now: Timestamp,
    next: DynamicWork<S, B>,
) -> bool where B: Fn(&str, usize, Timestamp, Option<Duration>) -> Option<Duration> {
    match (work, outcome) {
        (DynamicWork::Sleep { spec, reply, .. }, DynamicOutcome::Done) => {
            after == before && admitted(before, spec, reply, next)
        },
        (DynamicWork::Spawn { spec, reply }, DynamicOutcome::Spawned { cell }) => {
            child_added(before, after, spec, cell, now) && next == concluded::<S, B>(Ok(()), reply)
        },
        // The child has gone before it was there: have it started again if it is to be.
        (DynamicWork::Spawn { spec, reply }, DynamicOutcome::SpawnFailed { reason }) => {
            let gone = supervisor::spawn_failure(spec.id, reason);
            &&& after.active_children == before.active_children
            &&& match next {
                DynamicWork::Retry { request, child_id, reply: next_reply } => {
                    &&& after.restart_handled(before, spec, true, gone, now, Some(request))
                    &&& child_id == spec.id
                    &&& next_reply == reply
                },
                _ => {
                    &&& after.restart_handled(before, spec, true, gone, now, None)
                    &&& next == concluded::<S, B>(Ok(()), reply)
                },
            }
        },
        (DynamicWork::Retry { reply, .. }, DynamicOutcome::Done) => {
            after == before && next == concluded::<S, B>(Ok(()), reply)
        },
        (DynamicWork::Retry { child_id, reply, .. }, DynamicOutcome::SendFailed { reason }) => {
            let error = SupervisorError::ChildSpawnError { child_id, reason };
            &&& after == before
            &&& next == concluded::<S, B>(Err(ActorProcessingErr::Supervisor(error)), reply)
        },
        (DynamicWork::Stop { reply, .. }, DynamicOutcome::Done) => {
            after == before && next == terminated::<S, B>(reply)
        },
        (_, DynamicOutcome::Done) => {
            &&& after == before
            &&& next == if delivers(work) {
                DynamicWork::<S, B>::Finished(Ok(()))
            } else {
                work
            }
        },
        (_, DynamicOutcome::SendFailed { reason }) => {
            &&& after == before
            &&& next == if delivers(work) {
                DynamicWork::<S, B>::Finished(Err(ActorProcessingErr::Messaging(reason)))
            } else {
                work
            }
        },
        // The outcome is not one of this work.
        _ => after == before && next == work,
    }
}

/// Whether `after` is `before` once an event has been handled, and whether `work` is what there is
/// to do then.
pub open spec fn event_handled<S, B>(
    before: DynamicSupervisorState<S, B>,
    after: DynamicSupervisorState<S, B>,
    evt: SupervisionEvent,
    now: Timestamp,
    work: Result<DynamicWork<S, B>, SupervisorError>,
) -> bool where B: Fn(&str, usize, Timestamp, Option<Duration>) -> Option<Duration> {
    match evt {
        SupervisionEvent::ActorStarted(cell) => child_started(
            before,
            after,
            cell,
            now,
            work,
        ),
        SupervisionEvent::ActorTerminated(cell, reason) => child_gone(
            before,
            after,
            cell,
            false,
            ExitReason::Reason(reason),
            now,
            work,
        ),
        SupervisionEvent::ActorFailed(cell, error) => child_gone(
            before,
            after,
            cell,
            true,
            ExitReason::Error(ActorProcessingErr::Actor(error)),
            now,
            work,
        ),
        SupervisionEvent::ProcessGroupChanged => {
            &&& after == before
            &&& work == Ok::<DynamicWork<S, B>, SupervisorError>(
                DynamicWork::Finished(Ok(())),
            )
        },
    }
}

/// Whether an event of an actor without a name was refused, with nothing changed.
pub open spec fn refused_nameless<S, B>(
    before: DynamicSupervisorState<S, B>,
    after: DynamicSupervisorState<S, B>,
    cell: ActorCell,
    work: Result<DynamicWork<S, B>, SupervisorError>,
) -> bool where B: Fn(&str, usize, Timestamp, Option<Duration>) -> Option<Duration> {
    &&& after == before
    &&& work == Err::<DynamicWork<S, B>, SupervisorError>(
        SupervisorError::ChildNameNotSet { pid: cell.id },
    )
}

/// Whether `after` is `before` once an actor has started, and whether `work` is what there is to do
/// then: nothing, but an actor without a name is refused.
pub open spec fn child_started<S, B>(
    before: DynamicSupervisorState<S, B>,
    after: DynamicSupervisorState<S, B>,
    cell: ActorCell,
    now: Timestamp,
    work: Result<DynamicWork<S, B>, SupervisorError>,
) -> bool where B: Fn(&str, usize, Timestamp, Option<Duration>) -> Option<Duration> {
    match cell.name {
        None => refused_nameless(before, after, cell, work),
        Some(name) => {
            &&& work == Ok::<DynamicWork<S, B>, SupervisorError>(DynamicWork::Finished(Ok(())))
            &&& after.active_children == before.active_children
            &&& after.restart_log == before.restart_log
            &&& after.options == before.options
            &&& after.child_failure_state@ == if before.active_children@.contains_key(name@) {
                restart::failures_after_start(before.child_failure_state@, name@, now)
            } else {
                before.child_failure_state@
            }
        },
    }
}

/// Whether `after` is `before` once an actor has gone, and whether `work` is what there is to do
/// then. An actor without a name, and one that is not among the children, is refused.
pub open spec fn child_gone<S, B>(
    before: DynamicSupervisorState<S, B>,
    after: DynamicSupervisorState<S, B>,
    cell: ActorCell,
    abnormal: bool,
    reason: ExitReason,
    now: Timestamp,
    work: Result<DynamicWork<S, B>, SupervisorError>,
) -> bool where B: Fn(&str, usize, Timestamp, Option<Duration>) -> Option<Duration> {
    match cell.name {
        None => refused_nameless(before, after, cell, work),
        Some(name) => if before.active_children@.contains_key(name@) {
            let spec = before.active_children@[name@].spec;
            &&& after.active_children@ == before.active_children@.remove(name@)
            &&& work is Ok
            &&& match work->Ok_0 {
                DynamicWork::Restart { request } => {
                    after.restart_handled(before, spec, abnormal, reason, now, Some(request))
                },
                work => {
                    &&& after.restart_handled(before, spec, abnormal, reason, now, None)
                    &&& work == DynamicWork::<S, B>::Finished(Ok(()))
                },
            }
        } else {
            &&& after.child_failure_state == before.child_failure_state
            &&& after.active_children@ == before.active_children@
            &&& after.restart_log == before.restart_log
            &&& after.options == before.options
            &&& work == Err::<DynamicWork<S, B>, SupervisorError>(
                SupervisorError::ChildNotFound { child_id: name },
            )
        },
    }
}

} // verus!
