//! What a supervisor knows of actors: who they are, what happens to them, how handlers fail.
use vstd::prelude::*;

verus! {

/// The identifier that the actor runtime gives an actor.
#[verifier::external_type_specification]
#[verifier::external_body]
pub struct ExActorId(ractor::ActorId);

/// An actor as its supervisor sees it: its identifier and the name it was spawned under, if any.
#[derive(Debug)]
pub struct ActorCell {
    pub id: ractor::ActorId,
    pub name: Option<String>,
}

impl ActorCell {
    /// Whether the actor was spawned under `name`.
    pub open spec fn is_named(self, name: Seq<char>) -> bool {
        self.name matches Some(own) && own@ == name
    }
}

impl Clone for ActorCell {
    fn clone(&self) -> (copy: Self)
        ensures
            copy == *self,
    {
        let name = match &self.name {
            Some(name) => Some(name.clone()),
            None => None,
        };
        ActorCell { id: self.id, name }
    }
}

/// What the runtime tells a supervisor about the actors linked to it.
#[derive(Debug)]
pub enum SupervisionEvent {
    /// An actor started.
    ActorStarted(ActorCell),
    /// An actor stopped of its own accord, with the reason that it gave, if any.
    ActorTerminated(ActorCell, Option<String>),
    /// An actor panicked or returned an error, described by the text.
    ActorFailed(ActorCell, String),
    /// The members of a process group changed.
    ProcessGroupChanged,
}

/// What a supervisor reports when it refuses a request or gives up.
#[derive(Debug, PartialEq, Eq)]
pub enum SupervisorError {
    /// There is no child of this id.
    ChildNotFound { child_id: String },
    /// An actor without a name is linked to the supervisor.
    ChildNameNotSet { pid: ractor::ActorId },
    /// A child could not be spawned.
    ChildSpawnError { child_id: String, reason: String },
    /// A limit of the supervisor was exceeded.
    Meltdown { reason: String },
}

impl Clone for SupervisorError {
    fn clone(&self) -> (copy: Self)
        ensures
            copy == *self,
    {
        match self {
            SupervisorError::ChildNotFound { child_id } => {
                SupervisorError::ChildNotFound { child_id: child_id.clone() }
            },
            SupervisorError::ChildNameNotSet { pid } => {
                SupervisorError::ChildNameNotSet { pid: *pid }
            },
            SupervisorError::ChildSpawnError { child_id, reason } => {
                SupervisorError::ChildSpawnError {
                    child_id: child_id.clone(),
                    reason: reason.clone(),
                }
            },
            SupervisorError::Meltdown { reason } => {
                SupervisorError::Meltdown { reason: reason.clone() }
            },
        }
    }
}

/// Why a handler, of a supervisor or of any other actor, ended with an error.
#[derive(Debug, PartialEq, Eq)]
pub enum ActorProcessingErr {
    /// A supervisor's own error.
    Supervisor(SupervisorError),
    /// A message could not be delivered.
    Messaging(String),
    /// The failure of another actor.
    Actor(String),
}

impl Clone for ActorProcessingErr {
    fn clone(&self) -> (copy: Self)
        ensures
            copy == *self,
    {
        match self {
            ActorProcessingErr::Supervisor(error) => ActorProcessingErr::Supervisor(error.clone()),
            ActorProcessingErr::Messaging(text) => ActorProcessingErr::Messaging(text.clone()),
            ActorProcessingErr::Actor(text) => ActorProcessingErr::Actor(text.clone()),
        }
    }
}

/// Why a child is no longer running.
#[derive(Debug, PartialEq, Eq)]
pub enum ExitReason {
    /// It failed.
    Error(ActorProcessingErr),
    /// It stopped of its own accord, with the reason that it gave, if any.
    Reason(Option<String>),
}

} // verus!
