//! Supervision of actors that run on the `ractor` framework.
//!
//! A supervisor watches over its children, which are actors linked to it, and starts them again
//! when they go. If it has to do so too often within a short time it gives up: it has a meltdown
//! and ends with an error, so that a child that cannot run does not keep the program busy.
//!
//! - [`Supervisor`] has a fixed list of children. Its [`SupervisorStrategy`] says which of them are
//!   started again when one goes.
//! - [`DynamicSupervisor`] has children that come and go, each of which is started again by itself.
//!
//! What both have in common is in [`restart`]: a child's [`Restart`] policy, the log of restarts by
//! which a meltdown is found, and the count of a child's failures, which its [`ChildBackoffFn`]
//! gets to see.
//!
//! The handlers here decide and change the state. What only the actor around them can do, such as
//! to spawn, stop or kill an actor, to wait and to send a message, they hand back as a value
//! ([`SupervisorWork`], [`DynamicWork`]). The actor does it and reports the outcome to the `resume`
//! of the supervisor, until nothing is left. Times come from a [`Clock`].
use vstd::prelude::*;

pub mod actor;
pub mod child;
pub mod child_map;
pub mod dynamic;
pub mod dynamic_handler_laws;
pub mod dynamic_laws;
pub mod plan;
pub mod restart;
pub mod restart_laws;
pub mod shutdown;
pub mod supervisor;
pub mod supervisor_handler_laws;
pub mod supervisor_laws;
pub mod time;

pub use actor::{ActorCell, ActorProcessingErr, ExitReason, SupervisionEvent, SupervisorError};
pub use child::{ChildBackoffFn, ChildFailureState, ChildSpec, Restart, SpawnFn};
pub use child_map::ChildMap;
pub use dynamic::{
    ActiveChild, DynamicOutcome, DynamicSupervisor, DynamicSupervisorMsg, DynamicSupervisorOptions,
    DynamicSupervisorState, DynamicWork,
};
pub use plan::{SupervisorOutcome, SupervisorTask, SupervisorWork};
pub use restart::{CoreSupervisorOptions, RestartDecision, RestartLog, RestartRequest};
pub use shutdown::ChildStop;
pub use supervisor::{
    Supervisor, SupervisorArguments, SupervisorMsg, SupervisorOptions, SupervisorState,
    SupervisorStrategy,
};
pub use time::{Clock, Duration, Timestamp};

verus! {

} // verus!
