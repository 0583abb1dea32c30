//! Spans of time, points in time, and the clock that supplies them.
use vstd::prelude::*;

verus! {

/// A span of time, in nanoseconds.
#[derive(Clone, Copy, Debug, PartialEq, Eq, Structural)]
pub struct Duration {
    pub nanos: u128,
}

impl Duration {
    /// A span of `millis` milliseconds.
    pub fn from_millis(millis: u64) -> (d: Self)
        ensures
            d.nanos == millis * 1_000_000,
    {
        Duration { nanos: millis as u128 * 1_000_000 }
    }

    /// A span of `secs` seconds.
    pub fn from_secs(secs: u64) -> (d: Self)
        ensures
            d.nanos == secs * 1_000_000_000,
    {
        Duration { nanos: secs as u128 * 1_000_000_000 }
    }
}

/// A point in time, in nanoseconds after the moment at which a supervisor's clock was started.
#[derive(Clone, Copy, Debug, PartialEq, Eq, Structural)]
pub struct Timestamp {
    pub nanos: u128,
}

impl Timestamp {
    /// Nanoseconds from `earlier` to `self`; zero where `earlier` is the later of the two.
    pub open spec fn nanos_since(self, earlier: Timestamp) -> int {
        if earlier.nanos <= self.nanos {
            self.nanos - earlier.nanos
        } else {
            0
        }
    }

    /// The span from `earlier` to `self`; zero where `earlier` is the later of the two.
    pub fn duration_since(self, earlier: Timestamp) -> (d: Duration)
        ensures
            d.nanos == self.nanos_since(earlier),
            earlier.nanos <= self.nanos ==> d.nanos == self.nanos - earlier.nanos,
            self.nanos <= earlier.nanos ==> d.nanos == 0,
    {
        if earlier.nanos <= self.nanos {
            Duration { nanos: self.nanos - earlier.nanos }
        } else {
            Duration { nanos: 0 }
        }
    }
}

/// A point on the clock of the actor runtime.
#[verifier::external_type_specification]
#[verifier::external_body]
pub struct ExRuntimeInstant(ractor::concurrency::Instant);

/// Calls `ractor::concurrency::Instant::now` (the `now` of tokio's `Instant`). Its result is the
/// time, so nothing is claimed of it.
#[verifier::external_body]
fn runtime_now() -> (at: ractor::concurrency::Instant) {
    ractor::concurrency::Instant::now()
}

/// Calls `ractor::concurrency::Instant::elapsed` (the `elapsed` of tokio's `Instant`) and gives its
/// result in nanoseconds. It depends on the time, so nothing is claimed of it.
#[verifier::external_body]
fn runtime_nanos_since(origin: &ractor::concurrency::Instant) -> (nanos: u128) {
    origin.elapsed().as_nanos()
}

/// The clock of one supervisor: it counts from the moment at which it was started and never runs
/// backwards.
pub struct Clock {
    origin: ractor::concurrency::Instant,
    latest: Timestamp,
}

impl Clock {
    /// The last point in time that the clock gave out.
    pub closed spec fn latest(self) -> Timestamp {
        self.latest
    }

    /// A clock that counts from now on.
    pub fn start() -> (clock: Self)
        ensures
            clock.latest().nanos == 0,
    {
        Clock { origin: runtime_now(), latest: Timestamp { nanos: 0 } }
    }

    /// Takes a reading of the runtime's clock, in nanoseconds since the start, and gives the point
    /// in time that it stands for: the reading itself, or the latest point so far if that is later.
    pub fn observe(&mut self, reading: u128) -> (t: Timestamp)
        ensures
            t.nanos == if reading >= old(self).latest().nanos {
                reading
            } else {
                old(self).latest().nanos
            },
            final(self).latest() == t,
    {
        if reading > self.latest.nanos {
            self.latest = Timestamp { nanos: reading };
        }
        self.latest
    }

    /// Reads the runtime's clock. Which point in time comes out depends on the time; it is never
    /// before one that the clock gave out earlier.
    pub fn now(&mut self) -> (t: Timestamp)
        ensures
            old(self).latest().nanos <= t.nanos,
            final(self).latest() == t,
    {
        let reading: u128 = runtime_nanos_since(&self.origin);
        self.observe(reading)
    }
}

} // verus!
