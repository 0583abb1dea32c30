//! The supervisor of children that come and go, driven by a simulated runtime: time is virtual, and
//! the children are scripts.
use ractor::ActorId;
use ractor_supervisor::{
    ActorCell, ActorProcessingErr, ChildBackoffFn, ChildSpec, ChildStop, Duration, DynamicOutcome,
    DynamicSupervisor, DynamicSupervisorMsg, DynamicSupervisorOptions, DynamicSupervisorState,
    DynamicWork, ExitReason, Restart, SpawnFn, SupervisionEvent, SupervisorError, Timestamp,
};
use std::cell::Cell;
use std::collections::HashMap;
use std::rc::Rc;

type Backoff = fn(&str, usize, Timestamp, Option<Duration>) -> Option<Duration>;
type Spec = ChildSpec<ChildBehavior, Backoff>;
type State = DynamicSupervisorState<ChildBehavior, Backoff>;
type Msg = DynamicSupervisorMsg<ChildBehavior, Backoff>;
type Work = DynamicWork<ChildBehavior, Backoff>;

#[derive(Clone)]
enum ChildBehavior {
    DelayedFail { ms: u64 },
    DelayedNormal { ms: u64 },
    ImmediateFail,
    FailWaitFail { initial_fails: u64, wait_ms: u64, final_fails: u64, current: Rc<Cell<u64>> },
}

enum Event {
    Supervision(SupervisionEvent),
    Message(Msg),
    Tick(u64),
}

struct Child {
    pid: u64,
    cell: ActorCell,
    behavior: ChildBehavior,
}

struct Simulation {
    now_ms: u64,
    state: State,
    running: Vec<Child>,
    events: Vec<(u64, Event)>,
    spawned: HashMap<String, u64>,
    next_pid: u64,
    alive: bool,
    result: Result<(), ActorProcessingErr>,
    inspected: Option<State>,
    answers: Vec<Result<(), ActorProcessingErr>>,
    endings: usize,
    stop_timeouts: Vec<u128>,
}

impl Simulation {
    fn spawn(options: DynamicSupervisorOptions) -> Simulation {
        Simulation {
            now_ms: 0,
            state: DynamicSupervisor.pre_start(options),
            running: Vec::new(),
            events: Vec::new(),
            spawned: HashMap::new(),
            next_pid: 0,
            alive: true,
            result: Ok(()),
            inspected: None,
            answers: Vec::new(),
            endings: 0,
            stop_timeouts: Vec::new(),
        }
    }

    fn now(&self) -> Timestamp {
        Timestamp { nanos: self.now_ms as u128 * 1_000_000 }
    }

    fn at(&mut self, ms: u64, event: Event) {
        self.events.push((ms, event));
    }

    fn stop_child(&mut self, cell: &ActorCell, timeout: Duration) {
        self.stop_timeouts.push(timeout.nanos);
        let mut step = ChildStop::begin(timeout);
        while step != ChildStop::Finished {
            if step == (ChildStop::StopAndWait { timeout }) {
                self.running.retain(|child| child.cell.id != cell.id);
            }
            step = step.advance(true);
        }
    }

    /// Spawns an actor, which takes a millisecond.
    fn spawn_actor(&mut self, spec: &Spec) -> DynamicOutcome {
        self.now_ms += 1;
        *self.spawned.entry(spec.id.clone()).or_insert(0) += 1;
        let behavior: ChildBehavior = (*spec.spawn_fn.f).clone();
        if matches!(behavior, ChildBehavior::ImmediateFail) {
            return DynamicOutcome::SpawnFailed { reason: "Startup panicked".to_string() };
        }
        let pid = self.next_pid;
        self.next_pid += 1;
        let cell = ActorCell { id: ActorId::Local(pid), name: Some(spec.id.clone()) };
        let now_ms = self.now_ms;
        self.at(now_ms, Event::Supervision(SupervisionEvent::ActorStarted(cell.clone())));
        match behavior {
            ChildBehavior::DelayedFail { ms } | ChildBehavior::DelayedNormal { ms } => {
                self.at(now_ms + ms, Event::Tick(pid))
            }
            ChildBehavior::FailWaitFail { .. } => self.at(now_ms, Event::Tick(pid)),
            ChildBehavior::ImmediateFail => {}
        }
        self.running.push(Child { pid, cell: cell.clone(), behavior });
        DynamicOutcome::Spawned { cell }
    }

    fn perform(&mut self, mut work: Work) {
        loop {
            let outcome = match &work {
                DynamicWork::Finished(_) => break,
                DynamicWork::Sleep { duration, .. } => {
                    self.now_ms += (duration.nanos / 1_000_000) as u64;
                    DynamicOutcome::Done
                }
                DynamicWork::Spawn { spec, .. } => self.spawn_actor(spec),
                DynamicWork::Retry { request, .. } | DynamicWork::Restart { request } => {
                    let delay_ms = match request.delay {
                        Some(delay) => (delay.nanos / 1_000_000) as u64,
                        None => 0,
                    };
                    let msg = match &request.msg {
                        DynamicSupervisorMsg::SpawnChild { spec, reply } => {
                            DynamicSupervisorMsg::SpawnChild { spec: spec.clone(), reply: *reply }
                        }
                        _ => panic!("not a restart"),
                    };
                    let ms = self.now_ms + delay_ms;
                    self.at(ms, Event::Message(msg));
                    DynamicOutcome::Done
                }
                DynamicWork::Stop { cell, timeout, .. } => {
                    self.stop_child(cell, *timeout);
                    DynamicOutcome::Done
                }
                DynamicWork::ReplySpawned { answer } => {
                    self.answers.push(answer.clone());
                    DynamicOutcome::Done
                }
                DynamicWork::ReplyTerminated => {
                    self.endings += 1;
                    DynamicOutcome::Done
                }
                DynamicWork::ReplyState => {
                    self.inspected = Some(self.state.clone());
                    DynamicOutcome::Done
                }
            };
            let now = self.now();
            work = DynamicSupervisor.resume(work, outcome, &mut self.state, now);
        }
        if let DynamicWork::Finished(result) = work {
            self.finish(result);
        }
    }

    fn finish(&mut self, result: Result<(), ActorProcessingErr>) {
        if result.is_err() {
            self.alive = false;
            self.running.clear();
            self.result = result;
        }
    }

    fn end_child(&mut self, pid: u64, failure: Option<&str>) {
        let i = self.running.iter().position(|child| child.pid == pid).unwrap();
        let child = self.running.remove(i);
        let event = match failure {
            Some(text) => SupervisionEvent::ActorFailed(child.cell, text.to_string()),
            None => SupervisionEvent::ActorTerminated(child.cell, None),
        };
        let now_ms = self.now_ms;
        self.at(now_ms, Event::Supervision(event));
    }

    fn tick(&mut self, pid: u64) {
        let behavior = match self.running.iter().find(|child| child.pid == pid) {
            Some(child) => child.behavior.clone(),
            None => return,
        };
        match behavior {
            ChildBehavior::DelayedFail { .. } => self.end_child(pid, Some("Delayed fail")),
            ChildBehavior::DelayedNormal { .. } => self.end_child(pid, None),
            ChildBehavior::FailWaitFail { initial_fails, wait_ms, final_fails, current } => {
                let so_far = current.get() + 1;
                current.set(so_far);
                if so_far <= initial_fails {
                    self.end_child(pid, Some("initial fail"));
                } else if so_far == initial_fails + 1 {
                    let ms = self.now_ms + wait_ms;
                    self.at(ms, Event::Tick(pid));
                } else if so_far - (initial_fails + 1) <= final_fails {
                    self.end_child(pid, Some("final fail"));
                }
            }
            ChildBehavior::ImmediateFail => {}
        }
    }

    /// Handles the next event that is due at `limit_ms` or before.
    fn step(&mut self, limit_ms: u64) -> bool {
        let mut next: Option<usize> = None;
        for (i, (ms, _)) in self.events.iter().enumerate() {
            if *ms <= limit_ms && next.map_or(true, |n| *ms < self.events[n].0) {
                next = Some(i);
            }
        }
        let Some(i) = next else { return false };
        let (ms, event) = self.events.remove(i);
        self.now_ms = self.now_ms.max(ms);
        let now = self.now();
        match event {
            Event::Tick(pid) => self.tick(pid),
            Event::Supervision(event) => {
                match DynamicSupervisor.handle_supervisor_evt(event, &mut self.state, now) {
                    Ok(work) => self.perform(work),
                    Err(error) => self.finish(Err(ActorProcessingErr::Supervisor(error))),
                }
            }
            Event::Message(msg) => {
                let work = DynamicSupervisor.handle(msg, &mut self.state, now);
                self.perform(work);
            }
        }
        true
    }

    fn run_until(&mut self, ms: u64) {
        while self.alive && self.step(ms) {}
        self.now_ms = self.now_ms.max(ms);
    }

    fn run_until_stopped(&mut self) {
        while self.alive {
            assert!(self.step(1_000_000), "the supervisor runs on");
        }
    }

    fn send(&mut self, msg: Msg) {
        let now = self.now();
        let work = DynamicSupervisor.handle(msg, &mut self.state, now);
        self.perform(work);
    }

    fn spawn_child(&mut self, spec: Spec) -> Result<(), ActorProcessingErr> {
        self.send(DynamicSupervisor::spawn_child(spec));
        DynamicSupervisor::spawn_child_result(self.answers.pop().ok_or("no answer".to_string()))
    }

    fn terminate_child(&mut self, child_id: &str) -> Result<(), ActorProcessingErr> {
        let before = self.endings;
        self.send(DynamicSupervisor::terminate_child(child_id.to_string()));
        let answered = self.endings == before + 1;
        DynamicSupervisor::terminate_child_result(if answered {
            Ok(())
        } else {
            Err("no answer".to_string())
        })
    }

    fn inspect(&mut self) -> State {
        self.send(DynamicSupervisorMsg::InspectState);
        self.inspected.take().unwrap()
    }

    fn stop(&mut self) {
        let children = self.running.iter().map(|child| child.cell.clone()).collect();
        let (cells, timeout) = DynamicSupervisor.post_stop(children);
        for cell in &cells {
            self.stop_child(cell, timeout);
        }
        self.alive = false;
    }

    fn spawn_count(&self, id: &str) -> u64 {
        self.spawned[id]
    }
}

fn make_child_spec(id: &str, restart: Restart, behavior: ChildBehavior) -> Spec {
    ChildSpec {
        id: id.to_string(),
        restart,
        spawn_fn: SpawnFn::new(behavior),
        backoff_fn: None,
        reset_after: None,
    }
}

fn options(
    max_children: Option<usize>,
    max_restarts: usize,
    window_secs: u64,
    reset_after: Option<Duration>,
) -> DynamicSupervisorOptions {
    DynamicSupervisorOptions {
        max_children,
        max_restarts,
        max_window: Duration::from_secs(window_secs),
        reset_after,
    }
}

fn gave_up(result: &Result<(), ActorProcessingErr>) -> bool {
    let reason = "max_restarts exceeded".to_string();
    let error = ActorProcessingErr::Supervisor(SupervisorError::Meltdown { reason });
    *result == Err(error)
}

#[test]
fn test_transient_child_normal_exit() {
    let mut sim = Simulation::spawn(options(None, 5, 5, None));
    let child_spec = make_child_spec(
        "normal-dynamic",
        Restart::Transient,
        ChildBehavior::DelayedNormal { ms: 200 },
    );
    assert!(sim.spawn_child(child_spec).is_ok());
    sim.run_until(300);
    let sup_state = sim.inspect();
    assert!(sim.alive, "Supervisor still running");
    assert!(sup_state.active_children.is_empty(), "Child should have exited normally");
    assert!(sim.running.is_empty(), "No children running");
    assert!(sup_state.restart_log.is_empty(), "No restarts expected");
    sim.stop();
    assert!(sim.state.restart_log.is_empty());
    assert_eq!(sim.spawn_count("normal-dynamic"), 1, "Spawned exactly once");
}

#[test]
fn test_permanent_child_meltdown() {
    let mut sim = Simulation::spawn(options(None, 1, 2, None));
    let fail_child_spec =
        make_child_spec("fail-child", Restart::Permanent, ChildBehavior::ImmediateFail);
    assert!(sim.spawn_child(fail_child_spec).is_ok());
    sim.run_until_stopped();
    assert!(gave_up(&sim.result), "Supervisor meltdown expected");
    assert!(
        sim.state.restart_log.len() == 2,
        "Expected at least 2 restarts leading to meltdown"
    );
    assert_eq!(sim.spawn_count("fail-child"), 2);
}

#[test]
fn test_temporary_child_fail_no_restart() {
    let mut sim = Simulation::spawn(options(None, 10, 10, None));
    let temp_child = make_child_spec(
        "temp-fail",
        Restart::Temporary,
        ChildBehavior::DelayedFail { ms: 200 },
    );
    assert!(sim.spawn_child(temp_child).is_ok());
    sim.run_until(400);
    assert!(sim.alive);
    let sup_state = sim.inspect();
    assert!(sup_state.active_children.is_empty(), "Temporary child not restarted");
    assert!(sim.running.is_empty(), "No children running");
    sim.stop();
    assert_eq!(sim.state.restart_log.len(), 0, "No restarts occurred");
    assert_eq!(sim.spawn_count("temp-fail"), 1);
}

#[test]
fn dynamic_test_max_restarts_in_time_window() {
    let mut sim = Simulation::spawn(options(None, 2, 1, None));
    let child_spec =
        make_child_spec("fastfail", Restart::Permanent, ChildBehavior::ImmediateFail);
    assert!(sim.spawn_child(child_spec).is_ok());
    sim.run_until_stopped();
    assert!(gave_up(&sim.result));
    assert_eq!(sim.state.restart_log.len(), 3, "Should see 3 fails in meltdown window");
    assert_eq!(sim.spawn_count("fastfail"), 3);
}

fn fail_wait_fail() -> ChildBehavior {
    ChildBehavior::FailWaitFail {
        initial_fails: 2,
        wait_ms: 3000,
        final_fails: 1,
        current: Rc::new(Cell::new(0)),
    }
}

#[test]
fn test_supervisor_restart_counter_reset_after() {
    let mut sim = Simulation::spawn(options(None, 2, 10, Some(Duration::from_secs(2))));
    let child_spec = make_child_spec("reset-test", Restart::Permanent, fail_wait_fail());
    assert!(sim.spawn_child(child_spec).is_ok());
    sim.run_until(4000);
    assert!(sim.alive);
    sim.stop();
    assert_eq!(sim.state.restart_log.len(), 1, "Only the final fail is in meltdown log");
    assert_eq!(sim.spawn_count("reset-test"), 4);
}

#[test]
fn dynamic_test_child_level_restart_counter_reset_after() {
    let mut sim = Simulation::spawn(options(None, 5, 30, None));
    let mut child_spec = make_child_spec("child-reset", Restart::Permanent, fail_wait_fail());
    child_spec.reset_after = Some(Duration::from_secs(2));
    assert!(sim.spawn_child(child_spec).is_ok());
    sim.run_until(5000);
    assert!(sim.alive);
    sim.stop();
    let cfs = sim.state.child_failure_state.get("child-reset").unwrap();
    assert_eq!(cfs.restart_count, 1);
    assert_eq!(sim.spawn_count("child-reset"), 4);
}

fn one_second_after_the_first(
    _id: &str,
    count: usize,
    _last: Timestamp,
    _reset_after: Option<Duration>,
) -> Option<Duration> {
    if count <= 1 {
        None
    } else {
        Some(Duration::from_secs(1))
    }
}

#[test]
fn test_child_level_backoff_fn_delays_restart() {
    let mut sim = Simulation::spawn(options(None, 1, 10, None));
    let mut child_spec =
        make_child_spec("backoff-child", Restart::Permanent, ChildBehavior::ImmediateFail);
    child_spec.backoff_fn = Some(ChildBackoffFn::new(one_second_after_the_first));
    assert!(sim.spawn_child(child_spec).is_ok());
    sim.run_until_stopped();
    assert!(sim.now_ms >= 1000, "Expected at least 1s of backoff before meltdown");
    assert_eq!(sim.state.restart_log.len(), 2, "two fails => meltdown on #2");
    assert_eq!(sim.spawn_count("backoff-child"), 2);
}

#[test]
fn test_exceed_max_children() {
    let mut sim = Simulation::spawn(options(Some(1), 999, 999, None));
    let spec_1 = make_child_spec(
        "allowed-child",
        Restart::Permanent,
        ChildBehavior::DelayedNormal { ms: 500 },
    );
    let spec_2 = make_child_spec(
        "unallowed-child",
        Restart::Permanent,
        ChildBehavior::DelayedNormal { ms: 500 },
    );
    assert!(sim.spawn_child(spec_1).is_ok());
    let result = sim.spawn_child(spec_2);
    assert!(result.is_err(), "Spawning a second child should fail due to max_children=1");
    let reason = "max_children exceeded".to_string();
    let error = ActorProcessingErr::Supervisor(SupervisorError::Meltdown { reason });
    assert_eq!(result, Err(error));
    assert_eq!(
        sim.state.active_children.len(),
        1,
        "Second child should not have been spawned"
    );
    assert!(sim.running.len() == 1, "Only one child running");
    assert!(sim.alive);
    sim.stop();
}

#[test]
fn test_terminate_child() {
    let mut sim = Simulation::spawn(options(None, 10, 10, None));
    let child_spec = make_child_spec(
        "kill-me",
        Restart::Permanent,
        ChildBehavior::DelayedNormal { ms: 9999 },
    );
    assert!(sim.spawn_child(child_spec).is_ok());
    let st_before = sim.inspect();
    assert!(st_before.active_children.contains_key("kill-me"));
    assert!(sim.running.len() == 1, "Child is running");
    assert!(sim.terminate_child("kill-me").is_ok());
    let st_after = sim.inspect();
    assert!(!st_after.active_children.contains_key("kill-me"));
    assert!(sim.running.is_empty(), "No child is running");
    assert!(sim.alive);
    sim.stop();
    assert!(sim.state.restart_log.is_empty());
    assert_eq!(sim.spawn_count("kill-me"), 1);
    // The copy handed out earlier still holds the child.
    assert!(st_before.active_children.contains_key("kill-me"));
    assert_eq!(sim.stop_timeouts, vec![100_000_000]);
}

fn ok_work(work: Result<Work, SupervisorError>) -> Work {
    match work {
        Ok(work) => work,
        Err(error) => panic!("refused: {error:?}"),
    }
}

#[test]
fn the_refusal_names_the_limit() {
    let mut sim = Simulation::spawn(options(Some(0), 5, 5, None));
    let spec = make_child_spec("a", Restart::Permanent, ChildBehavior::DelayedNormal { ms: 1 });
    let now = sim.now();
    let work = DynamicSupervisor.handle(
        DynamicSupervisor::spawn_child(spec.clone()),
        &mut sim.state,
        now,
    );
    let reason = "max_children exceeded".to_string();
    let error = ActorProcessingErr::Supervisor(SupervisorError::Meltdown { reason });
    match work {
        DynamicWork::ReplySpawned { answer } => assert_eq!(answer, Err(error)),
        _ => panic!("not refused"),
    }
    // A restart that there is no room for makes the supervisor give up.
    sim.send(DynamicSupervisorMsg::SpawnChild { spec, reply: false });
    let reason = "max_children exceeded".to_string();
    let error = ActorProcessingErr::Supervisor(SupervisorError::Meltdown { reason });
    assert_eq!(sim.result, Err(error));
    assert!(!sim.alive);
    assert_eq!(sim.state.restart_log.len(), 1);
}

#[test]
fn only_restarts_are_logged() {
    let mut sim = Simulation::spawn(options(None, 5, 5, None));
    let spec = make_child_spec("a", Restart::Permanent, ChildBehavior::DelayedFail { ms: 50 });
    assert!(sim.spawn_child(spec).is_ok());
    assert_eq!(sim.state.restart_log.len(), 0);
    assert_eq!(sim.state.child_failure_state.get("a").unwrap().restart_count, 0);
    sim.run_until(80);
    assert_eq!(sim.state.restart_log.len(), 1);
    assert_eq!(sim.state.restart_log[0].child_id, "a");
    assert_eq!(sim.state.child_failure_state.get("a").unwrap().restart_count, 1);
    assert_eq!(sim.spawn_count("a"), 2);
    assert_eq!(sim.state.active_children.get("a").unwrap().cell.id, ActorId::Local(1));
}

#[test]
fn children_are_independent() {
    let mut sim = Simulation::spawn(options(None, 5, 5, None));
    let failing = make_child_spec("a", Restart::Permanent, ChildBehavior::DelayedFail { ms: 50 });
    let steady =
        make_child_spec("b", Restart::Permanent, ChildBehavior::DelayedNormal { ms: 9999 });
    assert!(sim.spawn_child(failing).is_ok());
    assert!(sim.spawn_child(steady).is_ok());
    sim.run_until(80);
    assert_eq!(sim.spawn_count("a"), 2);
    assert_eq!(sim.spawn_count("b"), 1);
    assert_eq!(sim.state.active_children.len(), 2);
    assert_eq!(sim.state.child_failure_state.get("b").unwrap().restart_count, 0);
    assert_eq!(sim.state.active_children.get("b").unwrap().cell.id, ActorId::Local(1));
}

#[test]
fn the_end_of_an_unknown_child_is_answered_too() {
    let mut sim = Simulation::spawn(options(None, 5, 5, None));
    assert!(sim.terminate_child("nobody").is_ok());
    sim.send(DynamicSupervisorMsg::TerminateChild { child_id: "nobody".to_string(), reply: false });
    assert_eq!(sim.endings, 1);
    assert!(sim.alive);
    assert!(sim.stop_timeouts.is_empty());
}

#[test]
fn events_of_nameless_and_unknown_actors_are_refused() {
    let mut sim = Simulation::spawn(options(None, 5, 5, None));
    let pid = ActorId::Local(3);
    let nameless = ActorCell { id: pid, name: None };
    let unknown = ActorCell { id: pid, name: Some("ghost".to_string()) };
    let now = sim.now();
    for event in vec![
        SupervisionEvent::ActorStarted(nameless.clone()),
        SupervisionEvent::ActorTerminated(nameless.clone(), None),
        SupervisionEvent::ActorFailed(nameless, "x".to_string()),
    ] {
        match DynamicSupervisor.handle_supervisor_evt(event, &mut sim.state, now) {
            Err(error) => assert_eq!(error, SupervisorError::ChildNameNotSet { pid }),
            Ok(_) => panic!("accepted"),
        }
    }
    for event in vec![
        SupervisionEvent::ActorTerminated(unknown.clone(), None),
        SupervisionEvent::ActorFailed(unknown.clone(), "x".to_string()),
    ] {
        match DynamicSupervisor.handle_supervisor_evt(event, &mut sim.state, now) {
            Err(error) => {
                let child_id = "ghost".to_string();
                assert_eq!(error, SupervisorError::ChildNotFound { child_id })
            }
            Ok(_) => panic!("accepted"),
        }
    }
    for event in
        vec![SupervisionEvent::ActorStarted(unknown), SupervisionEvent::ProcessGroupChanged]
    {
        let work = DynamicSupervisor.handle_supervisor_evt(event, &mut sim.state, now);
        assert!(matches!(ok_work(work), DynamicWork::Finished(Ok(()))));
    }
    assert!(sim.state.child_failure_state.is_empty());
}

#[test]
fn a_child_that_cannot_be_spawned_is_tried_again() {
    let mut sim = Simulation::spawn(options(None, 5, 5, None));
    let spec = make_child_spec("bad", Restart::Transient, ChildBehavior::ImmediateFail);
    let now = Timestamp { nanos: 11 };
    let work =
        DynamicSupervisor.handle(DynamicSupervisor::spawn_child(spec), &mut sim.state, now);
    let failed = DynamicOutcome::SpawnFailed { reason: "no".to_string() };
    let work = DynamicSupervisor.resume(work, failed, &mut sim.state, now);
    match &work {
        DynamicWork::Retry { request, child_id, reply } => {
            assert_eq!(child_id, "bad");
            assert!(*reply);
            assert_eq!(request.delay, None);
            let child_id = "bad".to_string();
            let error = SupervisorError::ChildSpawnError { child_id, reason: "no".to_string() };
            assert_eq!(request.reason, ExitReason::Error(ActorProcessingErr::Supervisor(error)));
            match &request.msg {
                DynamicSupervisorMsg::SpawnChild { spec, reply } => {
                    assert_eq!(spec.id, "bad");
                    assert!(!*reply);
                }
                _ => panic!("not a restart"),
            }
        }
        _ => panic!("not tried again"),
    }
    let state = sim.state.child_failure_state.get("bad").unwrap();
    assert_eq!(state.restart_count, 1);
    assert_eq!(state.last_fail_instant, now);
    assert!(sim.state.active_children.is_empty());
    let lost = DynamicOutcome::SendFailed { reason: "closed".to_string() };
    match DynamicSupervisor.resume(work, lost, &mut sim.state, now) {
        DynamicWork::ReplySpawned { answer } => {
            let child_id = "bad".to_string();
            let reason = "closed".to_string();
            let error = SupervisorError::ChildSpawnError { child_id, reason };
            assert_eq!(answer, Err(ActorProcessingErr::Supervisor(error)));
        }
        _ => panic!("nobody is told"),
    }
}

#[test]
fn a_temporary_child_that_cannot_be_spawned_is_not_tried_again() {
    let mut sim = Simulation::spawn(options(None, 5, 5, None));
    let spec = make_child_spec("bad", Restart::Temporary, ChildBehavior::ImmediateFail);
    assert!(sim.spawn_child(spec).is_ok());
    assert!(sim.events.is_empty());
    assert!(sim.state.child_failure_state.is_empty());
}

#[test]
fn what_cannot_be_delivered_ends_the_handler() {
    let mut sim = Simulation::spawn(options(None, 5, 5, None));
    let spec = make_child_spec("a", Restart::Permanent, ChildBehavior::DelayedFail { ms: 50 });
    assert!(sim.spawn_child(spec).is_ok());
    let cell = sim.running[0].cell.clone();
    let now = sim.now();
    let event = SupervisionEvent::ActorFailed(cell, "boom".to_string());
    let work = ok_work(DynamicSupervisor.handle_supervisor_evt(event, &mut sim.state, now));
    match &work {
        DynamicWork::Restart { request } => {
            let error = ActorProcessingErr::Actor("boom".to_string());
            assert_eq!(request.reason, ExitReason::Error(error));
        }
        _ => panic!("not started again"),
    }
    let others: Vec<Work> =
        vec![DynamicWork::ReplyState, DynamicWork::ReplyTerminated, DynamicWork::ReplySpawned {
            answer: Ok(()),
        }];
    for work in others.into_iter().chain(vec![work]) {
        let lost = DynamicOutcome::SendFailed { reason: "closed".to_string() };
        match DynamicSupervisor.resume(work, lost, &mut sim.state, now) {
            DynamicWork::Finished(result) => {
                assert_eq!(result, Err(ActorProcessingErr::Messaging("closed".to_string())))
            }
            _ => panic!("the handler goes on"),
        }
    }
}

#[test]
fn the_asker_is_told_why_there_is_no_answer() {
    let lost = ActorProcessingErr::Messaging("timeout".to_string());
    assert_eq!(DynamicSupervisor::spawn_child_result(Err("timeout".to_string())), Err(lost));
    let lost = ActorProcessingErr::Messaging("timeout".to_string());
    assert_eq!(DynamicSupervisor::terminate_child_result(Err("timeout".to_string())), Err(lost));
    assert_eq!(DynamicSupervisor::terminate_child_result(Ok(())), Ok(()));
}
