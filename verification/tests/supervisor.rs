//! The supervisor of a fixed list of children, driven by a simulated runtime: time is virtual, and
//! the children are scripts.
use ractor::ActorId;
use ractor_supervisor::{
    ActorCell, ActorProcessingErr, ChildBackoffFn, ChildSpec, ChildStop, Duration, ExitReason,
    Restart, SpawnFn, SupervisionEvent, Supervisor, SupervisorArguments, SupervisorError,
    SupervisorMsg, SupervisorOptions, SupervisorOutcome, SupervisorState, SupervisorStrategy,
    SupervisorTask, SupervisorWork, Timestamp,
};
use std::cell::Cell;
use std::collections::HashMap;
use std::rc::Rc;

type Backoff = fn(&str, usize, Timestamp, Option<Duration>) -> Option<Duration>;
type Spec = ChildSpec<ChildBehavior, Backoff>;
type State = SupervisorState<ChildBehavior, Backoff>;
type Work = SupervisorWork<ChildBehavior, Backoff>;

#[derive(Clone)]
enum ChildBehavior {
    DelayedFail { ms: u64 },
    DelayedNormal { ms: u64 },
    ImmediateFail,
    ImmediateNormal,
    FailWaitFail { initial_fails: u64, wait_ms: u64, final_fails: u64, current: Rc<Cell<u64>> },
    /// Another supervisor, whose end is reported from outside.
    Nested,
}

enum Event {
    Supervision(SupervisionEvent),
    Message(SupervisorMsg),
    Tick(u64),
}

struct Child {
    pid: u64,
    cell: ActorCell,
    behavior: ChildBehavior,
}

struct Simulation {
    now_ms: u64,
    state: State,
    running: Vec<Child>,
    events: Vec<(u64, Event)>,
    spawned: HashMap<String, u64>,
    next_pid: u64,
    alive: bool,
    result: Result<(), ActorProcessingErr>,
    inspected: Option<State>,
    stop_timeouts: Vec<u128>,
}

impl Simulation {
    fn spawn(args: SupervisorArguments<ChildBehavior, Backoff>) -> Simulation {
        let state = Supervisor.pre_start(args);
        let work = Supervisor.post_start(&state);
        let mut sim = Simulation {
            now_ms: 0,
            state,
            running: Vec::new(),
            events: Vec::new(),
            spawned: HashMap::new(),
            next_pid: 0,
            alive: true,
            result: Ok(()),
            inspected: None,
            stop_timeouts: Vec::new(),
        };
        sim.perform(work);
        sim
    }

    fn now(&self) -> Timestamp {
        Timestamp { nanos: self.now_ms as u128 * 1_000_000 }
    }

    fn at(&mut self, ms: u64, event: Event) {
        self.events.push((ms, event));
    }

    fn forget(&mut self, cell: &ActorCell) {
        self.running.retain(|child| child.cell.id != cell.id);
    }

    fn stop_children(&mut self, cells: &[ActorCell], timeout: Duration) {
        self.stop_timeouts.push(timeout.nanos);
        for cell in cells {
            let mut step = ChildStop::begin(timeout);
            while step != ChildStop::Finished {
                if step == (ChildStop::StopAndWait { timeout }) {
                    self.forget(cell);
                }
                step = step.advance(true);
            }
        }
    }

    /// Spawns a child, which takes a millisecond.
    fn spawn_child(&mut self, spec: &Spec) -> SupervisorOutcome {
        self.now_ms += 1;
        *self.spawned.entry(spec.id.clone()).or_insert(0) += 1;
        let behavior: ChildBehavior = (*spec.spawn_fn.f).clone();
        if matches!(behavior, ChildBehavior::ImmediateFail) {
            return SupervisorOutcome::SpawnFailed { reason: "Startup panicked".to_string() };
        }
        let pid = self.next_pid;
        self.next_pid += 1;
        let cell = ActorCell { id: ActorId::Local(pid), name: Some(spec.id.clone()) };
        let now_ms = self.now_ms;
        self.at(now_ms, Event::Supervision(SupervisionEvent::ActorStarted(cell.clone())));
        match behavior {
            ChildBehavior::DelayedFail { ms } | ChildBehavior::DelayedNormal { ms } => {
                self.at(now_ms + ms, Event::Tick(pid))
            }
            ChildBehavior::ImmediateNormal | ChildBehavior::FailWaitFail { .. } => {
                self.at(now_ms, Event::Tick(pid))
            }
            ChildBehavior::ImmediateFail | ChildBehavior::Nested => {}
        }
        self.running.push(Child { pid, cell, behavior });
        SupervisorOutcome::Done
    }

    fn perform(&mut self, mut work: Work) {
        loop {
            let outcome = match &work {
                SupervisorWork::Finished(_) => break,
                SupervisorWork::Send { request, .. } => {
                    let delay_ms = match request.delay {
                        Some(delay) => (delay.nanos / 1_000_000) as u64,
                        None => 0,
                    };
                    let msg = copy_of(&request.msg);
                    let ms = self.now_ms + delay_ms;
                    self.at(ms, Event::Message(msg));
                    SupervisorOutcome::Done
                }
                SupervisorWork::Perform { task, .. } => match task {
                    SupervisorTask::StopChildren { cells, timeout } => {
                        self.stop_children(cells, *timeout);
                        SupervisorOutcome::Done
                    }
                    SupervisorTask::KillChildren { cells } => {
                        for cell in cells {
                            self.forget(cell);
                        }
                        SupervisorOutcome::Done
                    }
                    SupervisorTask::Sleep { duration } => {
                        self.now_ms += (duration.nanos / 1_000_000) as u64;
                        SupervisorOutcome::Done
                    }
                    SupervisorTask::SpawnChild { spec } => self.spawn_child(spec),
                    SupervisorTask::ReplyState => {
                        self.inspected = Some(self.state.clone());
                        SupervisorOutcome::Done
                    }
                },
            };
            let now = self.now();
            work = self.state.resume(work, outcome, now);
        }
        if let SupervisorWork::Finished(result) = work {
            self.finish(result);
        }
    }

    fn finish(&mut self, result: Result<(), ActorProcessingErr>) {
        if result.is_err() {
            self.alive = false;
            self.running.clear();
            self.result = result;
        }
    }

    fn begin(&mut self, work: Result<Work, SupervisorError>) {
        match work {
            Ok(work) => self.perform(work),
            Err(error) => self.finish(Err(ActorProcessingErr::Supervisor(error))),
        }
    }

    fn end_child(&mut self, pid: u64, failure: Option<&str>) {
        let i = self.running.iter().position(|child| child.pid == pid).unwrap();
        let child = self.running.remove(i);
        let event = match failure {
            Some(text) => SupervisionEvent::ActorFailed(child.cell, text.to_string()),
            None => SupervisionEvent::ActorTerminated(child.cell, None),
        };
        let now_ms = self.now_ms;
        self.at(now_ms, Event::Supervision(event));
    }

    fn tick(&mut self, pid: u64) {
        let behavior = match self.running.iter().find(|child| child.pid == pid) {
            Some(child) => child.behavior.clone(),
            None => return,
        };
        match behavior {
            ChildBehavior::DelayedFail { .. } => self.end_child(pid, Some("Delayed fail")),
            ChildBehavior::DelayedNormal { .. } | ChildBehavior::ImmediateNormal => {
                self.end_child(pid, None)
            }
            ChildBehavior::FailWaitFail { initial_fails, wait_ms, final_fails, current } => {
                let so_far = current.get() + 1;
                current.set(so_far);
                if so_far <= initial_fails {
                    self.end_child(pid, Some("initial fail"));
                } else if so_far == initial_fails + 1 {
                    let ms = self.now_ms + wait_ms;
                    self.at(ms, Event::Tick(pid));
                } else if so_far - (initial_fails + 1) <= final_fails {
                    self.end_child(pid, Some("final fail"));
                }
            }
            ChildBehavior::ImmediateFail | ChildBehavior::Nested => {}
        }
    }

    /// Handles the next event that is due at `limit_ms` or before.
    fn step(&mut self, limit_ms: u64) -> bool {
        let mut next: Option<usize> = None;
        for (i, (ms, _)) in self.events.iter().enumerate() {
            if *ms <= limit_ms && next.map_or(true, |n| *ms < self.events[n].0) {
                next = Some(i);
            }
        }
        let Some(i) = next else { return false };
        let (ms, event) = self.events.remove(i);
        self.now_ms = self.now_ms.max(ms);
        let now = self.now();
        match event {
            Event::Tick(pid) => self.tick(pid),
            Event::Supervision(event) => {
                let work = Supervisor.handle_supervisor_evt(event, &mut self.state, now);
                self.begin(work);
            }
            Event::Message(msg) => {
                let children = self.running.iter().map(|child| child.cell.clone()).collect();
                let work = Supervisor.handle(msg, children, &mut self.state, now);
                self.begin(work);
            }
        }
        true
    }

    fn run_until(&mut self, ms: u64) {
        while self.alive && self.step(ms) {}
        self.now_ms = self.now_ms.max(ms);
    }

    fn run_until_stopped(&mut self) {
        while self.alive {
            assert!(self.step(1_000_000), "the supervisor runs on");
        }
    }

    fn inspect(&mut self) -> State {
        let now_ms = self.now_ms;
        self.at(now_ms, Event::Message(SupervisorMsg::InspectState));
        self.run_until(now_ms);
        self.inspected.take().unwrap()
    }

    fn stop(&mut self) {
        let children: Vec<ActorCell> =
            self.running.iter().map(|child| child.cell.clone()).collect();
        let task: SupervisorTask<ChildBehavior, Backoff> = Supervisor.post_stop(children);
        match task {
            SupervisorTask::StopChildren { cells, timeout } => self.stop_children(&cells, timeout),
            _ => panic!("the children are not stopped"),
        }
        self.alive = false;
    }

    fn spawn_count(&self, id: &str) -> u64 {
        self.spawned[id]
    }

    fn is_running(&self, id: &str) -> bool {
        self.running.iter().any(|child| child.cell.name.as_deref() == Some(id))
    }
}

fn copy_of(msg: &SupervisorMsg) -> SupervisorMsg {
    match msg {
        SupervisorMsg::OneForOneSpawn { child_id } => {
            SupervisorMsg::OneForOneSpawn { child_id: child_id.clone() }
        }
        SupervisorMsg::OneForAllSpawn { child_id } => {
            SupervisorMsg::OneForAllSpawn { child_id: child_id.clone() }
        }
        SupervisorMsg::RestForOneSpawn { child_id } => {
            SupervisorMsg::RestForOneSpawn { child_id: child_id.clone() }
        }
        SupervisorMsg::InspectState => SupervisorMsg::InspectState,
    }
}

fn make_child_spec(id: &str, restart: Restart, behavior: ChildBehavior) -> Spec {
    ChildSpec {
        id: id.to_string(),
        restart,
        spawn_fn: SpawnFn::new(behavior),
        backoff_fn: None,
        reset_after: None,
    }
}

fn options(
    strategy: SupervisorStrategy,
    max_restarts: usize,
    window_secs: u64,
    reset_after: Option<Duration>,
) -> SupervisorOptions {
    SupervisorOptions {
        strategy,
        max_restarts,
        max_window: Duration::from_secs(window_secs),
        reset_after,
    }
}

fn start(child_specs: Vec<Spec>, options: SupervisorOptions) -> Simulation {
    Simulation::spawn(SupervisorArguments { child_specs, options })
}

fn gave_up(result: &Result<(), ActorProcessingErr>) -> bool {
    let reason = "max_restarts exceeded".to_string();
    let error = ActorProcessingErr::Supervisor(SupervisorError::Meltdown { reason });
    *result == Err(error)
}

#[test]
fn test_permanent_delayed_fail() {
    let child_spec = make_child_spec(
        "fail-delay",
        Restart::Permanent,
        ChildBehavior::DelayedFail { ms: 200 },
    );
    let mut sim = start(vec![child_spec], options(SupervisorStrategy::OneForOne, 1, 2, None));

    sim.run_until(100);
    let st = sim.inspect();
    assert_eq!(sim.running.len(), 1);
    assert_eq!(st.restart_log.len(), 0);

    sim.run_until_stopped();
    assert!(gave_up(&sim.result));
    assert_eq!(sim.running.len(), 0);
    assert!(sim.state.restart_log.len() >= 2);
    assert_eq!(sim.spawn_count("fail-delay"), 2);
}

#[test]
fn test_transient_delayed_normal() {
    let child_spec = make_child_spec(
        "normal-delay",
        Restart::Transient,
        ChildBehavior::DelayedNormal { ms: 300 },
    );
    let mut sim = start(vec![child_spec], options(SupervisorStrategy::OneForOne, 5, 5, None));

    sim.run_until(150);
    let st1 = sim.inspect();
    assert_eq!(sim.running.len(), 1);
    assert_eq!(st1.restart_log.len(), 0);

    sim.run_until(450);
    sim.stop();
    assert!(sim.result.is_ok());
    assert!(!sim.is_running("normal-delay"));
    assert_eq!(sim.state.restart_log.len(), 0);
    assert_eq!(sim.spawn_count("normal-delay"), 1);
}

#[test]
fn test_temporary_delayed_fail() {
    let child_spec = make_child_spec(
        "temp-delay",
        Restart::Temporary,
        ChildBehavior::DelayedFail { ms: 200 },
    );
    let mut sim = start(vec![child_spec], options(SupervisorStrategy::OneForOne, 10, 10, None));

    sim.run_until(100);
    let st1 = sim.inspect();
    assert_eq!(sim.running.len(), 1);
    assert_eq!(st1.restart_log.len(), 0);

    sim.run_until(400);
    assert!(sim.alive);

    sim.stop();
    assert_eq!(sim.running.len(), 0);
    assert_eq!(sim.state.restart_log.len(), 0);
    assert_eq!(sim.spawn_count("temp-delay"), 1);
}

#[test]
fn test_one_for_all_stop_all_on_failure() {
    let child1 = make_child_spec(
        "ofa-fail",
        Restart::Permanent,
        ChildBehavior::DelayedFail { ms: 200 },
    );
    let child2 = make_child_spec(
        "ofa-normal",
        Restart::Permanent,
        ChildBehavior::DelayedNormal { ms: 9999 },
    );
    let mut sim = start(vec![child1, child2], options(SupervisorStrategy::OneForAll, 2, 2, None));

    sim.run_until(100);
    assert_eq!(sim.running.len(), 2);

    sim.run_until_stopped();
    assert!(gave_up(&sim.result));
    assert_eq!(sim.running.len(), 0);
    assert_eq!(sim.state.restart_log.len(), 3);
    assert_eq!(sim.spawn_count("ofa-fail"), 3);
    assert_eq!(sim.spawn_count("ofa-normal"), 3);
    // Twice the children were stopped, with half a second for each.
    assert_eq!(sim.stop_timeouts, vec![500_000_000, 500_000_000]);
}

#[test]
fn test_rest_for_one_restart_subset() {
    let child_a =
        make_child_spec("A", Restart::Permanent, ChildBehavior::DelayedNormal { ms: 9999 });
    let child_b = make_child_spec("B", Restart::Permanent, ChildBehavior::DelayedFail { ms: 200 });
    let child_c =
        make_child_spec("C", Restart::Permanent, ChildBehavior::DelayedNormal { ms: 9999 });
    let mut sim = start(
        vec![child_a, child_b, child_c],
        options(SupervisorStrategy::RestForOne, 1, 2, None),
    );

    sim.run_until(100);
    assert_eq!(sim.running.len(), 3);

    sim.run_until_stopped();
    assert!(gave_up(&sim.result));
    assert_eq!(sim.running.len(), 0);
    assert_eq!(sim.state.restart_log.len(), 2);
    assert_eq!(sim.state.restart_log[0].child_id, "B");
    assert_eq!(sim.state.restart_log[1].child_id, "B");
    assert_eq!(sim.spawn_count("A"), 1);
    assert_eq!(sim.spawn_count("B"), 2);
    assert_eq!(sim.spawn_count("C"), 2);
}

#[test]
fn supervisor_test_max_restarts_in_time_window() {
    let child_spec =
        make_child_spec("fastfail", Restart::Permanent, ChildBehavior::ImmediateFail);
    let mut sim = start(vec![child_spec], options(SupervisorStrategy::OneForOne, 2, 1, None));

    sim.run_until_stopped();
    assert!(gave_up(&sim.result));
    assert_eq!(sim.state.restart_log.len(), 3, "3 fails in <1s => meltdown");
    assert_eq!(sim.spawn_count("fastfail"), 3);
}

#[test]
fn test_transient_abnormal_exit() {
    let child_spec =
        make_child_spec("transient-bad", Restart::Transient, ChildBehavior::ImmediateFail);
    let mut sim = start(vec![child_spec], options(SupervisorStrategy::OneForOne, 0, 5, None));

    sim.run_until_stopped();
    assert!(gave_up(&sim.result));
    assert_eq!(sim.state.restart_log.len(), 1, "1 fail => meltdown with max_restarts=0");
    assert_eq!(sim.spawn_count("transient-bad"), 1);
}

fn two_seconds_after_the_first(
    _id: &str,
    count: usize,
    _last: Timestamp,
    _reset_after: Option<Duration>,
) -> Option<Duration> {
    if count <= 1 {
        None
    } else {
        Some(Duration::from_secs(2))
    }
}

#[test]
fn test_backoff_fn_delays_restart() {
    let mut child_spec =
        make_child_spec("backoff", Restart::Permanent, ChildBehavior::ImmediateFail);
    child_spec.backoff_fn = Some(ChildBackoffFn::new(two_seconds_after_the_first));
    let mut sim = start(vec![child_spec], options(SupervisorStrategy::OneForOne, 1, 10, None));

    sim.run_until_stopped();
    assert!(sim.now_ms >= 2000, "2s delay on second fail due to child-level backoff");
    assert!(gave_up(&sim.result));
    assert_eq!(
        sim.state.restart_log.len(),
        2,
        "first fail => immediate restart => second fail => meltdown"
    );
    assert_eq!(sim.spawn_count("backoff"), 2);
}

fn fail_wait_fail() -> ChildBehavior {
    ChildBehavior::FailWaitFail {
        initial_fails: 2,
        wait_ms: 3000,
        final_fails: 1,
        current: Rc::new(Cell::new(0)),
    }
}

#[test]
fn test_restart_counter_reset_after() {
    let child_spec = make_child_spec("reset-test", Restart::Permanent, fail_wait_fail());
    let reset_after = Some(Duration::from_secs(2));
    let mut sim =
        start(vec![child_spec], options(SupervisorStrategy::OneForOne, 2, 10, reset_after));

    sim.run_until(4000);
    assert!(sim.alive);
    sim.stop();
    assert_eq!(
        sim.state.restart_log.len(),
        1,
        "After clearing, we only see a single fail in meltdown log"
    );
    assert_eq!(sim.spawn_count("reset-test"), 4);
}

#[test]
fn supervisor_test_child_level_restart_counter_reset_after() {
    let mut child_spec = make_child_spec("child-reset", Restart::Permanent, fail_wait_fail());
    child_spec.reset_after = Some(Duration::from_secs(2));
    let mut sim = start(vec![child_spec], options(SupervisorStrategy::OneForOne, 5, 30, None));

    sim.run_until(100);
    let st1 = sim.inspect();
    let cfs1 = st1.child_failure_state.get("child-reset").unwrap();
    assert_eq!(cfs1.restart_count, 2);

    sim.run_until(3100);
    sim.stop();
    let cfs2 = sim.state.child_failure_state.get("child-reset").unwrap();
    assert_eq!(cfs2.restart_count, 1, "child-level reset => next fail sees count=1");
    assert_eq!(sim.spawn_count("child-reset"), 4);
}

#[test]
fn test_nested_supervisors() {
    // The sub-supervisor looks after one worker that fails after 300 ms.
    let leaf_child = make_child_spec(
        "leaf-worker",
        Restart::Transient,
        ChildBehavior::DelayedFail { ms: 300 },
    );
    let mut sub = start(vec![leaf_child], options(SupervisorStrategy::OneForOne, 1, 2, None));
    let sub_sup = make_child_spec("sub-sup", Restart::Permanent, ChildBehavior::Nested);
    let mut root = start(vec![sub_sup], options(SupervisorStrategy::OneForOne, 1, 5, None));

    // Wait for the worker to fail once.
    sub.run_until(600);
    root.run_until(600);
    assert!(sub.alive);
    assert!(root.alive);

    root.stop();
    sub.stop();
    assert_eq!(root.state.restart_log.len(), 0);
    assert_eq!(sub.state.restart_log.len(), 1);
    assert_eq!(sub.spawn_count("leaf-worker"), 2);
}

#[test]
fn a_meltdown_below_is_a_failure_above() {
    let leaf_child =
        make_child_spec("leaf-worker", Restart::Permanent, ChildBehavior::ImmediateFail);
    let mut sub = start(vec![leaf_child], options(SupervisorStrategy::OneForOne, 0, 2, None));
    let sub_sup = make_child_spec("sub-sup", Restart::Transient, ChildBehavior::Nested);
    let mut root = start(vec![sub_sup], options(SupervisorStrategy::OneForOne, 1, 5, None));
    root.run_until(1);
    sub.run_until_stopped();
    assert!(gave_up(&sub.result));

    let pid = root.running[0].pid;
    root.end_child(pid, Some("max_restarts exceeded"));
    root.run_until(10);
    assert!(root.alive);
    assert_eq!(root.state.restart_log.len(), 1);
    assert_eq!(root.spawn_count("sub-sup"), 2);
}

#[test]
fn a_permanent_child_is_started_again_after_a_normal_end() {
    let child = make_child_spec("loop", Restart::Permanent, ChildBehavior::ImmediateNormal);
    let mut sim = start(vec![child], options(SupervisorStrategy::OneForOne, 2, 1, None));
    sim.run_until_stopped();
    assert!(gave_up(&sim.result));
    assert_eq!(sim.spawn_count("loop"), 3);
}

#[test]
fn a_failed_spawn_triggers_the_strategy_and_the_others_are_spawned() {
    let bad = make_child_spec("bad", Restart::Permanent, ChildBehavior::ImmediateFail);
    let good = make_child_spec("good", Restart::Permanent, ChildBehavior::Nested);
    let sim = start(vec![bad, good], options(SupervisorStrategy::RestForOne, 5, 5, None));
    assert_eq!(sim.spawn_count("bad"), 1);
    assert_eq!(sim.spawn_count("good"), 1);
    assert_eq!(sim.state.child_failure_state.get("bad").unwrap().restart_count, 1);
    assert_eq!(sim.state.child_specs.len(), 2);
    let messages: Vec<&SupervisorMsg> = sim
        .events
        .iter()
        .filter_map(|(_, event)| match event {
            Event::Message(msg) => Some(msg),
            _ => None,
        })
        .collect();
    assert_eq!(messages, vec![&SupervisorMsg::RestForOneSpawn { child_id: "bad".to_string() }]);
}

#[test]
fn a_temporary_child_that_cannot_be_spawned_is_left_alone() {
    let bad = make_child_spec("bad", Restart::Temporary, ChildBehavior::ImmediateFail);
    let mut sim = start(vec![bad], options(SupervisorStrategy::OneForOne, 0, 5, None));
    assert!(sim.events.is_empty());
    sim.run_until(100);
    assert!(sim.alive);
    assert!(sim.state.child_failure_state.is_empty());
}

#[test]
fn a_failed_message_ends_the_handler() {
    let bad = make_child_spec("bad", Restart::Permanent, ChildBehavior::ImmediateFail);
    let good = make_child_spec("good", Restart::Permanent, ChildBehavior::Nested);
    let args = SupervisorArguments {
        child_specs: vec![bad, good],
        options: options(SupervisorStrategy::OneForOne, 5, 5, None),
    };
    let mut state = Supervisor.pre_start(args);
    let now = Timestamp { nanos: 7 };
    let work = Supervisor.post_start(&state);
    let failed = SupervisorOutcome::SpawnFailed { reason: "no".to_string() };
    let work = state.resume(work, failed, now);
    match &work {
        SupervisorWork::Send { request, rest } => {
            assert_eq!(
                request.msg,
                SupervisorMsg::OneForOneSpawn { child_id: "bad".to_string() }
            );
            assert_eq!(request.delay, None);
            let child_id = "bad".to_string();
            let error = SupervisorError::ChildSpawnError { child_id, reason: "no".to_string() };
            assert_eq!(request.reason, ExitReason::Error(ActorProcessingErr::Supervisor(error)));
            assert_eq!(rest.len(), 1);
        }
        _ => panic!("no message is sent"),
    }
    let lost = SupervisorOutcome::SendFailed { reason: "closed".to_string() };
    match state.resume(work, lost, now) {
        SupervisorWork::Finished(result) => {
            assert_eq!(result, Err(ActorProcessingErr::Messaging("closed".to_string())))
        }
        _ => panic!("the handler goes on"),
    }
    assert!(state.child_specs.is_empty());
}

#[test]
fn a_state_that_nobody_takes_is_an_error() {
    let mut sim = start(Vec::new(), options(SupervisorStrategy::OneForOne, 5, 5, None));
    let now = sim.now();
    let msg = SupervisorMsg::InspectState;
    let work = match Supervisor.handle(msg, Vec::new(), &mut sim.state, now) {
        Ok(work) => work,
        Err(_) => panic!("refused"),
    };
    let lost = SupervisorOutcome::SendFailed { reason: "gone".to_string() };
    match sim.state.resume(work, lost, now) {
        SupervisorWork::Finished(result) => {
            assert_eq!(result, Err(ActorProcessingErr::Messaging("gone".to_string())))
        }
        _ => panic!("the handler goes on"),
    }
}

#[test]
fn an_actor_without_a_name_is_refused() {
    let mut sim = start(Vec::new(), options(SupervisorStrategy::OneForOne, 5, 5, None));
    let pid = ActorId::Local(9);
    let events = vec![
        SupervisionEvent::ActorStarted(ActorCell { id: pid, name: None }),
        SupervisionEvent::ActorTerminated(ActorCell { id: pid, name: None }, None),
        SupervisionEvent::ActorFailed(ActorCell { id: pid, name: None }, "x".to_string()),
    ];
    for event in events {
        let now = sim.now();
        match Supervisor.handle_supervisor_evt(event, &mut sim.state, now) {
            Err(error) => assert_eq!(error, SupervisorError::ChildNameNotSet { pid }),
            Ok(_) => panic!("accepted"),
        }
    }
}

#[test]
fn actors_that_the_list_does_not_hold_are_ignored() {
    let known = make_child_spec("known", Restart::Permanent, ChildBehavior::Nested);
    let mut sim = start(vec![known], options(SupervisorStrategy::OneForAll, 0, 5, None));
    sim.run_until(5);
    let stranger = ActorCell { id: ActorId::Local(77), name: Some("stranger".to_string()) };
    let events = vec![
        SupervisionEvent::ActorStarted(stranger.clone()),
        SupervisionEvent::ActorFailed(stranger.clone(), "x".to_string()),
        SupervisionEvent::ActorTerminated(stranger, None),
        SupervisionEvent::ProcessGroupChanged,
    ];
    for event in events {
        sim.at(5, Event::Supervision(event));
    }
    sim.run_until(10);
    assert!(sim.alive);
    assert!(sim.state.restart_log.is_empty());
    assert_eq!(sim.state.child_failure_state.len(), 1);
    assert!(sim.state.child_failure_state.contains_key("known"));
    assert_eq!(sim.state.child_failure_state.get("known").unwrap().restart_count, 0);
}

#[test]
fn a_restart_of_an_unknown_child_is_logged_and_spawns_nothing() {
    let known = make_child_spec("known", Restart::Permanent, ChildBehavior::Nested);
    let mut sim = start(vec![known], options(SupervisorStrategy::RestForOne, 5, 5, None));
    for msg in vec![
        SupervisorMsg::OneForOneSpawn { child_id: "other".to_string() },
        SupervisorMsg::RestForOneSpawn { child_id: "other".to_string() },
    ] {
        sim.at(1, Event::Message(msg));
    }
    sim.run_until(2);
    assert!(sim.alive);
    assert_eq!(sim.state.restart_log.len(), 2);
    assert_eq!(sim.state.restart_log[0].child_id, "other");
    assert_eq!(sim.spawn_count("known"), 1);
    assert_eq!(sim.running.len(), 1);
}

#[test]
fn the_state_handed_out_is_a_copy() {
    let child = make_child_spec("a", Restart::Permanent, ChildBehavior::DelayedFail { ms: 50 });
    let mut sim = start(vec![child], options(SupervisorStrategy::OneForOne, 9, 5, None));
    sim.run_until(60);
    let copy = sim.inspect();
    sim.run_until(160);
    assert_eq!(copy.restart_log.len(), 1);
    assert_eq!(copy.child_specs[0].id, "a");
    assert_eq!(copy.child_failure_state.get("a").unwrap().restart_count, 1);
    assert_eq!(sim.state.restart_log.len(), 3);
    assert_eq!(sim.state.child_failure_state.get("a").unwrap().restart_count, 3);
}
