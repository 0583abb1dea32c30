//! What a supervisor of a fixed list of children has its actor do.
//!
//! A handler of the supervisor decides; the actor around it does what was decided (it spawns,
//! stops, kills, sleeps, sends) and reports how that went, until nothing is left to do. The work
//! that is next stands in a [`SupervisorWork`].
use vstd::prelude::*;
use crate::actor::{ActorCell, ActorProcessingErr};
use crate::child::ChildSpec;
use crate::restart::RestartRequest;
use crate::supervisor::{SupervisorMsg, SupervisorStrategy};
use crate::time::{Duration, Timestamp};

verus! {

/// How long a child has to stop before it is killed, in milliseconds.
pub const GRACEFUL_STOP_MILLIS: u64 = 500;

/// How long to wait after children have been stopped, so that their names are free again, in
/// milliseconds.
pub const SETTLE_MILLIS: u64 = 10;

/// A span of whole milliseconds.
pub open spec fn millis(n: u64) -> Duration {
    Duration { nanos: (n * 1_000_000) as u128 }
}

/// One piece of work that only the actor around the supervisor can do.
pub enum SupervisorTask<S, B> where
    B: Fn(&str, usize, Timestamp, Option<Duration>) -> Option<Duration>,
 {
    /// Bring all these children to an end, each as a [`crate::ChildStop`] with this time to stop.
    StopChildren { cells: Vec<ActorCell>, timeout: Duration },
    /// Unlink and kill these children, one after the other.
    KillChildren { cells: Vec<ActorCell> },
    /// Wait.
    Sleep { duration: Duration },
    /// Spawn this child.
    SpawnChild { spec: ChildSpec<S, B> },
    /// Send a copy of the state to whoever asked for it.
    ReplyState,
}

/// A [`SupervisorTask`] with its lists as sequences.
pub enum PlannedTask<S, B> where
    B: Fn(&str, usize, Timestamp, Option<Duration>) -> Option<Duration>,
 {
    StopChildren { cells: Seq<ActorCell>, timeout: Duration },
    KillChildren { cells: Seq<ActorCell> },
    Sleep { duration: Duration },
    SpawnChild { spec: ChildSpec<S, B> },
    ReplyState,
}

impl<S, B> View for SupervisorTask<S, B> where
    B: Fn(&str, usize, Timestamp, Option<Duration>) -> Option<Duration>,
 {
    type V = PlannedTask<S, B>;

    open spec fn view(&self) -> PlannedTask<S, B> {
        match *self {
            SupervisorTask::StopChildren { cells, timeout } => PlannedTask::StopChildren {
                cells: cells@,
                timeout,
            },
            SupervisorTask::KillChildren { cells } => PlannedTask::KillChildren { cells: cells@ },
            SupervisorTask::Sleep { duration } => PlannedTask::Sleep { duration },
            SupervisorTask::SpawnChild { spec } => PlannedTask::SpawnChild { spec },
            SupervisorTask::ReplyState => PlannedTask::ReplyState,
        }
    }
}

/// What there is to do for a handler of a supervisor, from now on.
pub enum SupervisorWork<S, B> where
    B: Fn(&str, usize, Timestamp, Option<Duration>) -> Option<Duration>,
 {
    /// Do `task`, and then the tasks in `rest`, in order.
    Perform { task: SupervisorTask<S, B>, rest: Vec<SupervisorTask<S, B>> },
    /// Send `request` to the supervisor itself, and then do the tasks in `rest`, in order.
    Send { request: RestartRequest<SupervisorMsg>, rest: Vec<SupervisorTask<S, B>> },
    /// Nothing. The handler ends with this result, and with an error the supervisor stops.
    Finished(Result<(), ActorProcessingErr>),
}

/// How a piece of work went.
#[derive(Debug)]
pub enum SupervisorOutcome {
    /// It was done.
    Done,
    /// The child could not be spawned.
    SpawnFailed { reason: String },
    /// The message or the answer could not be delivered.
    SendFailed { reason: String },
}

/// The tasks in a list, with their own lists as sequences.
pub open spec fn tasks_view<S, B>(tasks: Seq<SupervisorTask<S, B>>) -> Seq<PlannedTask<S, B>> where
    B: Fn(&str, usize, Timestamp, Option<Duration>) -> Option<Duration>,
 {
    tasks.map_values(|task: SupervisorTask<S, B>| task@)
}

impl<S, B> SupervisorWork<S, B> where
    B: Fn(&str, usize, Timestamp, Option<Duration>) -> Option<Duration>,
 {
    /// Whether there are exactly the tasks of `plan` to do, in order, and nothing else.
    pub open spec fn carries_out(self, plan: Seq<PlannedTask<S, B>>) -> bool {
        match self {
            SupervisorWork::Perform { task, rest } => {
                &&& plan.len() == 1 + rest@.len()
                &&& task@ == plan[0]
                &&& tasks_view(rest@) == plan.skip(1)
            },
            SupervisorWork::Send { .. } => false,
            SupervisorWork::Finished(result) => plan.len() == 0 && result is Ok,
        }
    }

    /// Whether there are exactly these tasks to do, in order, and nothing else.
    pub open spec fn goes_on_with(self, tasks: Seq<SupervisorTask<S, B>>) -> bool {
        match self {
            SupervisorWork::Perform { task, rest } => {
                &&& tasks.len() == 1 + rest@.len()
                &&& task == tasks[0]
                &&& rest@ == tasks.skip(1)
            },
            SupervisorWork::Send { .. } => false,
            SupervisorWork::Finished(result) => tasks.len() == 0 && result is Ok,
        }
    }

    /// The work of doing `tasks`, in order.
    pub(crate) fn begin(tasks: Vec<SupervisorTask<S, B>>) -> (work: Self)
        ensures
            work.carries_out(tasks_view(tasks@)),
            work.goes_on_with(tasks@),
    {
        let ghost all = tasks@;
        let mut rest = tasks;
        if rest.len() == 0 {
            SupervisorWork::Finished(Ok(()))
        } else {
            let task = rest.remove(0);
            assert(rest@ =~= all.skip(1));
            assert(tasks_view(rest@) =~= tasks_view(all).skip(1));
            SupervisorWork::Perform { task, rest }
        }
    }
}

/// The position of the first child of this id in a list; the length of the list if there is none.
pub open spec fn position<S, B>(specs: Seq<ChildSpec<S, B>>, id: Seq<char>) -> nat where
    B: Fn(&str, usize, Timestamp, Option<Duration>) -> Option<Duration>,

    decreases specs.len(),
{
    if specs.len() == 0 {
        0
    } else if specs[0].id@ == id {
        0
    } else {
        1 + position(specs.skip(1), id)
    }
}

/// The first child of an id is one of that id, and none before it is.
pub proof fn lemma_position<S, B>(specs: Seq<ChildSpec<S, B>>, id: Seq<char>) where
    B: Fn(&str, usize, Timestamp, Option<Duration>) -> Option<Duration>,

    ensures
        position(specs, id) <= specs.len(),
        position(specs, id) < specs.len() ==> specs[position(specs, id) as int].id@ == id,
        forall|i: int| 0 <= i < position(specs, id) ==> (#[trigger] specs[i]).id@ != id,
    decreases specs.len(),
{
    if specs.len() > 0 && specs[0].id@ != id {
        let tail = specs.skip(1);
        lemma_position(tail, id);
        assert forall|i: int| 0 <= i < position(specs, id) implies (#[trigger] specs[i]).id@
            != id by {
            if i > 0 {
                assert(tail[i - 1] == specs[i]);
            }
        }
    }
}

/// A child of an id with no other of that id before it is the first.
proof fn lemma_position_is<S, B>(specs: Seq<ChildSpec<S, B>>, id: Seq<char>, i: int) where
    B: Fn(&str, usize, Timestamp, Option<Duration>) -> Option<Duration>,

    requires
        0 <= i <= specs.len(),
        i < specs.len() ==> specs[i].id@ == id,
        forall|j: int| 0 <= j < i ==> (#[trigger] specs[j]).id@ != id,
    ensures
        position(specs, id) == i,
{
    lemma_position(specs, id);
    let p = position(specs, id) as int;
    if p < i {
        assert(specs[p].id@ != id);
    } else if i < p {
        assert(specs[i].id@ != id);
    }
}

/// Finds the first child of an id.
pub(crate) fn find_child<S, B>(
    specs: &Vec<ChildSpec<S, B>>,
    id: &str,
) -> (found: Option<usize>) where
    B: Fn(&str, usize, Timestamp, Option<Duration>) -> Option<Duration>,

    ensures
        match found {
            Some(i) => i == position(specs@, id@) && i < specs@.len(),
            None => position(specs@, id@) == specs@.len(),
        },
{
    let key: String = id.to_owned();
    let mut i: usize = 0;
    while i < specs.len()
        invariant
            key@ == id@,
            i <= specs@.len(),
            forall|j: int| 0 <= j < i ==> (#[trigger] specs@[j]).id@ != id@,
        decreases specs@.len() - i,
    {
        if specs[i].id == key {
            proof {
                lemma_position_is(specs@, id@, i as int);
            }
            return Some(i);
        }
        i = i + 1;
    }
    proof {
        lemma_position_is(specs@, id@, i as int);
    }
    None
}

/// The tasks of spawning children, in order.
pub open spec fn spawns<S, B>(specs: Seq<ChildSpec<S, B>>) -> Seq<PlannedTask<S, B>> where
    B: Fn(&str, usize, Timestamp, Option<Duration>) -> Option<Duration>,
 {
    specs.map_values(|spec: ChildSpec<S, B>| PlannedTask::SpawnChild { spec })
}

/// Adds to `tasks` the spawning of the children from position `from` on.
pub(crate) fn push_spawns<S, B>(
    tasks: &mut Vec<SupervisorTask<S, B>>,
    specs: &Vec<ChildSpec<S, B>>,
    from: usize,
) where B: Fn(&str, usize, Timestamp, Option<Duration>) -> Option<Duration>
    requires
        from <= specs@.len(),
    ensures
        tasks_view(final(tasks)@) == tasks_view(old(tasks)@) + spawns(specs@.skip(from as int)),
        final(tasks)@.len() == old(tasks)@.len() + specs@.len() - from,
        forall|k: int| 0 <= k < old(tasks)@.len() ==> final(tasks)@[k] == old(tasks)@[k],
        forall|k: int|
            from <= k < specs@.len() ==> final(tasks)@[old(tasks)@.len() + k - from] == (
            SupervisorTask::SpawnChild { spec: #[trigger] specs@[k] }),
{
    let ghost before = tasks_view(tasks@);
    let ghost first = tasks@;
    let mut i: usize = from;
    assert(tasks_view(tasks@) =~= before + spawns(specs@.subrange(from as int, i as int)));
    while i < specs.len()
        invariant
            from <= i <= specs@.len(),
            tasks_view(tasks@) == before + spawns(specs@.subrange(from as int, i as int)),
            tasks@.len() == first.len() + i - from,
            forall|k: int| 0 <= k < first.len() ==> tasks@[k] == first[k],
            forall|k: int|
                from <= k < i ==> tasks@[first.len() + k - from] == (SupervisorTask::SpawnChild {
                    spec: #[trigger] specs@[k],
                }),
        decreases specs@.len() - i,
    {
        let ghost was = tasks@;
        tasks.push(SupervisorTask::SpawnChild { spec: specs[i].clone() });
        proof {
            let task = PlannedTask::SpawnChild { spec: specs@[i as int] };
            assert(tasks_view(tasks@) =~= tasks_view(was).push(task));
            assert(spawns(specs@.subrange(from as int, i + 1)) =~= spawns(
                specs@.subrange(from as int, i as int),
            ).push(task));
            assert(tasks_view(tasks@) =~= before + spawns(specs@.subrange(from as int, i + 1)));
        }
        i = i + 1;
    }
    assert(specs@.subrange(from as int, i as int) =~= specs@.skip(from as int));
}

/// The last of `children` that was spawned under this name.
pub open spec fn child_named(children: Seq<ActorCell>, name: Seq<char>) -> Option<ActorCell>
    decreases children.len(),
{
    if children.len() == 0 {
        None
    } else if children.last().is_named(name) {
        Some(children.last())
    } else {
        child_named(children.drop_last(), name)
    }
}

/// Those of `children` that `specs` describe, in the order of `specs`.
pub open spec fn cells_of<S, B>(specs: Seq<ChildSpec<S, B>>, children: Seq<ActorCell>) -> Seq<
    ActorCell,
> where B: Fn(&str, usize, Timestamp, Option<Duration>) -> Option<Duration>
    decreases specs.len(),
{
    if specs.len() == 0 {
        Seq::empty()
    } else {
        let front = cells_of(specs.drop_last(), children);
        match child_named(children, specs.last().id@) {
            Some(cell) => front.push(cell),
            None => front,
        }
    }
}

/// Finds the last of `children` that was spawned under `name`.
fn find_cell(children: &Vec<ActorCell>, name: &String) -> (found: Option<ActorCell>)
    ensures
        found == child_named(children@, name@),
{
    let mut i: usize = children.len();
    assert(children@.take(i as int) =~= children@);
    while i > 0
        invariant
            i <= children@.len(),
            child_named(children@, name@) == child_named(children@.take(i as int), name@),
        decreases i,
    {
        let ghost front = children@.take(i as int);
        assert(front.last() == children@[i - 1]);
        assert(front.drop_last() =~= children@.take(i - 1));
        let named = match &children[i - 1].name {
            Some(own) => *own == *name,
            None => false,
        };
        if named {
            return Some(children[i - 1].clone());
        }
        i = i - 1;
    }
    None
}

/// Finds those of `children` that the specs from position `from` on describe.
pub(crate) fn find_cells<S, B>(
    specs: &Vec<ChildSpec<S, B>>,
    from: usize,
    children: &Vec<ActorCell>,
) -> (cells: Vec<ActorCell>) where
    B: Fn(&str, usize, Timestamp, Option<Duration>) -> Option<Duration>,

    requires
        from <= specs@.len(),
    ensures
        cells@ == cells_of(specs@.skip(from as int), children@),
{
    let mut cells: Vec<ActorCell> = Vec::new();
    let mut i: usize = from;
    while i < specs.len()
        invariant
            from <= i <= specs@.len(),
            cells@ == cells_of(specs@.subrange(from as int, i as int), children@),
        decreases specs@.len() - i,
    {
        let ghost next = specs@.subrange(from as int, i + 1);
        assert(next.drop_last() =~= specs@.subrange(from as int, i as int));
        assert(next.last() == specs@[i as int]);
        match find_cell(children, &specs[i].id) {
            Some(cell) => {
                cells.push(cell);
            },
            None => {},
        }
        i = i + 1;
    }
    assert(specs@.subrange(from as int, i as int) =~= specs@.skip(from as int));
    cells
}

/// The message by which a supervisor has a child started again.
pub open spec fn restart_message(strategy: SupervisorStrategy, child_id: String) -> SupervisorMsg {
    match strategy {
        SupervisorStrategy::OneForOne => SupervisorMsg::OneForOneSpawn { child_id },
        SupervisorStrategy::OneForAll => SupervisorMsg::OneForAllSpawn { child_id },
        SupervisorStrategy::RestForOne => SupervisorMsg::RestForOneSpawn { child_id },
    }
}

/// The tasks by which one child is started again.
pub open spec fn one_for_one_plan<S, B>(specs: Seq<ChildSpec<S, B>>, id: Seq<char>) -> Seq<
    PlannedTask<S, B>,
> where B: Fn(&str, usize, Timestamp, Option<Duration>) -> Option<Duration> {
    let i = position(specs, id) as int;
    if i < specs.len() {
        spawns(seq![specs[i]])
    } else {
        Seq::empty()
    }
}

/// The tasks by which all children are stopped and started again.
pub open spec fn one_for_all_plan<S, B>(
    specs: Seq<ChildSpec<S, B>>,
    children: Seq<ActorCell>,
) -> Seq<PlannedTask<S, B>> where
    B: Fn(&str, usize, Timestamp, Option<Duration>) -> Option<Duration>,
 {
    seq![
        PlannedTask::StopChildren { cells: children, timeout: millis(GRACEFUL_STOP_MILLIS) },
        PlannedTask::Sleep { duration: millis(SETTLE_MILLIS) },
    ] + spawns(specs)
}

/// The tasks by which one child and those after it are killed and started again.
pub open spec fn rest_for_one_plan<S, B>(
    specs: Seq<ChildSpec<S, B>>,
    id: Seq<char>,
    children: Seq<ActorCell>,
) -> Seq<PlannedTask<S, B>> where
    B: Fn(&str, usize, Timestamp, Option<Duration>) -> Option<Duration>,
 {
    let i = position(specs, id) as int;
    if i < specs.len() {
        seq![
            PlannedTask::KillChildren { cells: cells_of(specs.skip(i), children) },
            PlannedTask::Sleep { duration: millis(SETTLE_MILLIS) },
        ] + spawns(specs.skip(i))
    } else {
        Seq::empty()
    }
}

} // verus!
