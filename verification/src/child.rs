//! How a child is described to its supervisor.
use vstd::prelude::*;
use std::sync::Arc;
use crate::time::{Duration, Timestamp};

verus! {

/// Calls `<Arc<T> as Clone>::clone`, which makes another pointer to the same value: the claim is
/// that what the two point to is equal.
#[verifier::external_body]
fn share<T>(pointer: &Arc<T>) -> (other: Arc<T>)
    ensures
        other == *pointer,
{
    Arc::clone(pointer)
}

/// When a child is started again after it has gone.
#[derive(Clone, Copy, Debug, PartialEq, Eq, Structural)]
pub enum Restart {
    /// Always, however it went.
    Permanent,
    /// Only if it went abnormally, by a panic or an error.
    Transient,
    /// Never.
    Temporary,
}

impl Restart {
    /// Whether the policy has a child started again that went normally or abnormally.
    pub open spec fn applies(self, abnormal: bool) -> bool {
        match self {
            Restart::Permanent => true,
            Restart::Transient => abnormal,
            Restart::Temporary => false,
        }
    }

    /// Whether the policy has a child started again that went normally or abnormally.
    pub fn should_restart(self, abnormal: bool) -> (yes: bool)
        ensures
            yes == self.applies(abnormal),
    {
        match self {
            Restart::Permanent => true,
            Restart::Transient => abnormal,
            Restart::Temporary => false,
        }
    }
}

/// The function that spawns a child. A supervisor hands it on and never looks into it.
pub struct SpawnFn<S> {
    pub f: Arc<S>,
}

impl<S> SpawnFn<S> {
    /// Wraps the function `f`.
    pub fn new(f: S) -> (wrapped: Self)
        ensures
            *wrapped.f == f,
    {
        SpawnFn { f: Arc::new(f) }
    }
}

impl<S> Clone for SpawnFn<S> {
    fn clone(&self) -> (copy: Self)
        ensures
            copy == *self,
    {
        SpawnFn { f: share(&self.f) }
    }
}

/// The function that says how long to wait before a child is started again. It gets the child's id,
/// how often the child has failed in a row, when it failed last, and the child's `reset_after`.
pub struct ChildBackoffFn<B> where
    B: Fn(&str, usize, Timestamp, Option<Duration>) -> Option<Duration>,
 {
    f: Arc<B>,
}

impl<B> ChildBackoffFn<B> where
    B: Fn(&str, usize, Timestamp, Option<Duration>) -> Option<Duration>,
 {
    #[verifier::type_invariant]
    spec fn callable(self) -> bool {
        forall|id: &str, count: usize, at: Timestamp, reset_after: Option<Duration>| #[trigger]
            call_requires(*self.f, (id, count, at, reset_after))
    }

    /// The function itself.
    pub closed spec fn function(self) -> B {
        *self.f
    }

    /// Wraps the function `f`, which must accept every argument.
    pub fn new(f: B) -> (wrapped: Self)
        requires
            forall|id: &str, count: usize, at: Timestamp, reset_after: Option<Duration>| #[trigger]
                call_requires(f, (id, count, at, reset_after)),
        ensures
            wrapped.function() == f,
    {
        ChildBackoffFn { f: Arc::new(f) }
    }

    /// Calls the function.
    pub fn call(
        &self,
        id: &str,
        count: usize,
        at: Timestamp,
        reset_after: Option<Duration>,
    ) -> (delay: Option<Duration>)
        ensures
            call_ensures(self.function(), (id, count, at, reset_after), delay),
    {
        proof {
            use_type_invariant(self);
        }
        let f: &B = &*self.f;
        f(id, count, at, reset_after)
    }
}

impl<B> Clone for ChildBackoffFn<B> where
    B: Fn(&str, usize, Timestamp, Option<Duration>) -> Option<Duration>,
 {
    fn clone(&self) -> (copy: Self)
        ensures
            copy == *self,
    {
        proof {
            use_type_invariant(self);
        }
        ChildBackoffFn { f: share(&self.f) }
    }
}

/// How a supervisor is to manage one child.
pub struct ChildSpec<S, B> where
    B: Fn(&str, usize, Timestamp, Option<Duration>) -> Option<Duration>,
 {
    /// The child's id, which is also the name that its actor is spawned under.
    pub id: String,
    /// When it is started again.
    pub restart: Restart,
    /// How it is spawned.
    pub spawn_fn: SpawnFn<S>,
    /// How long to wait before it is started again; without one there is no wait.
    pub backoff_fn: Option<ChildBackoffFn<B>>,
    /// After how long without a failure the count of its failures starts anew.
    pub reset_after: Option<Duration>,
}

impl<S, B> Clone for ChildSpec<S, B> where
    B: Fn(&str, usize, Timestamp, Option<Duration>) -> Option<Duration>,
 {
    fn clone(&self) -> (copy: Self)
        ensures
            copy == *self,
    {
        let backoff_fn = match &self.backoff_fn {
            Some(f) => Some(f.clone()),
            None => None,
        };
        ChildSpec {
            id: self.id.clone(),
            restart: self.restart,
            spawn_fn: self.spawn_fn.clone(),
            backoff_fn,
            reset_after: self.reset_after,
        }
    }
}

/// How often a child has failed in a row, and when it failed last. Before the first failure the
/// count is zero and the time is that of the child's start.
#[derive(Clone, Copy, Debug, PartialEq, Eq, Structural)]
pub struct ChildFailureState {
    pub restart_count: usize,
    pub last_fail_instant: Timestamp,
}

} // verus!
