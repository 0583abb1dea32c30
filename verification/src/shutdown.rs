//! How one child is brought to an end.
use vstd::prelude::*;
use crate::time::Duration;

verus! {

/// The end of one child, step by step: it is unlinked from its supervisor, so that the supervisor
/// hears no more of it; it is asked to stop and given some time for that; and it is killed if it
/// did not. Each variant is the work to do next.
#[derive(Clone, Copy, Debug, PartialEq, Eq, Structural)]
pub enum ChildStop {
    /// Unlink the child from its supervisor.
    Unlink { timeout: Duration },
    /// Ask the child to stop, and wait for it at most `timeout`.
    StopAndWait { timeout: Duration },
    /// Kill the child.
    Kill,
    /// Nothing is left to do.
    Finished,
}

impl ChildStop {
    /// What follows once the work has been done, with or without success.
    pub open spec fn next(self, success: bool) -> ChildStop {
        match self {
            ChildStop::Unlink { timeout } => ChildStop::StopAndWait { timeout },
            ChildStop::StopAndWait { .. } => if success {
                ChildStop::Finished
            } else {
                ChildStop::Kill
            },
            ChildStop::Kill => ChildStop::Finished,
            ChildStop::Finished => ChildStop::Finished,
        }
    }

    /// The end of a child that has `timeout` to stop.
    pub fn begin(timeout: Duration) -> (stop: Self)
        ensures
            stop == (ChildStop::Unlink { timeout }),
    {
        ChildStop::Unlink { timeout }
    }

    /// Takes the outcome of the work and says what to do next. Only the outcome of the request to
    /// stop matters.
    pub fn advance(self, success: bool) -> (stop: Self)
        ensures
            stop == self.next(success),
    {
        match self {
            ChildStop::Unlink { timeout } => ChildStop::StopAndWait { timeout },
            ChildStop::StopAndWait { .. } => if success {
                ChildStop::Finished
            } else {
                ChildStop::Kill
            },
            ChildStop::Kill => ChildStop::Finished,
            ChildStop::Finished => ChildStop::Finished,
        }
    }
}

/// The works of a shutdown in which the steps had the given outcomes, in order.
pub open spec fn shutdown_works(stop: ChildStop, outcomes: Seq<bool>) -> Seq<ChildStop>
    decreases outcomes.len(),
{
    if outcomes.len() == 0 {
        seq![stop]
    } else {
        seq![stop] + shutdown_works(stop.next(outcomes[0]), outcomes.skip(1))
    }
}

/// A child is unlinked first, then asked to stop, and after that either nothing more is done or it
/// is killed: it is killed exactly if it did not stop in its time.
pub proof fn law_killed_only_after_a_refused_stop(timeout: Duration, outcomes: Seq<bool>)
    requires
        outcomes.len() == 3,
    ensures
        shutdown_works(ChildStop::Unlink { timeout }, outcomes) == if outcomes[1] {
            seq![
                ChildStop::Unlink { timeout },
                ChildStop::StopAndWait { timeout },
                ChildStop::Finished,
                ChildStop::Finished,
            ]
        } else {
            seq![
                ChildStop::Unlink { timeout },
                ChildStop::StopAndWait { timeout },
                ChildStop::Kill,
                ChildStop::Finished,
            ]
        },
{
    reveal_with_fuel(shutdown_works, 4);
    assert(outcomes.skip(1)[0] == outcomes[1]);
    assert(outcomes.skip(1).skip(1)[0] == outcomes[2]);
}

} // verus!
