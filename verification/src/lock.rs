//! Waiting for the machine-wide lock that one daemon at a time holds.
//!
//! A daemon that finds the lock held waits until its holder lets go of it, with
//! growing pauses, and gives up as soon as it has to stop.

use vstd::prelude::*;

use crate::retry;
use crate::retry::{moment_after, Retry};

verus! {

/// The name of the lock.
pub const LOCK_NAME: &'static str = "keylightd-user-daemon";

/// The longest that a pause goes on without looking for a stop request, in
/// nanoseconds.
pub const SLICE: u64 = 100_000_000;

/// What came of trying to take the lock.
#[derive(Clone, Copy, Debug, PartialEq, Eq, Structural)]
pub enum Taken {
    Acquired,
    /// Another daemon holds it.
    InUse,
    Failed,
}

/// What happened while waiting. `shutdown` says whether the daemon has to stop.
#[derive(Clone, Copy, Debug, PartialEq, Eq, Structural)]
pub enum LockEvent {
    Begun { shutdown: bool },
    Tried { taken: Taken },
    /// A pause came to its end, or was cut short by a stop request.
    Paused { shutdown: bool },
}

/// What to do next.
#[derive(Clone, Copy, Debug, PartialEq, Eq, Structural)]
pub enum LockStep {
    Try,
    /// `first` says whether the lock was found held for the first time.
    Pause { seconds: u64, first: bool },
    Acquired,
    Shutdown,
    Failed,
}

/// How the waiting goes.
#[derive(Clone, Copy, Debug, PartialEq, Eq, Structural)]
pub struct LockWait {
    pub retry: Retry,
    /// Whether the lock was found held.
    pub waited: bool,
}

impl LockWait {
    pub fn new(now: u64) -> (r: Self)
        ensures
            r == (LockWait { retry: Retry::first(now), waited: false }),
    {
        LockWait { retry: Retry::immediate(now), waited: false }
    }

    /// Says what to do after an event.
    pub fn next(&mut self, event: LockEvent, now: u64) -> (r: LockStep)
        ensures
            r == (match event {
                LockEvent::Begun { shutdown: true } => LockStep::Shutdown,
                LockEvent::Begun { shutdown: false } => LockStep::Try,
                LockEvent::Tried { taken: Taken::Acquired } => LockStep::Acquired,
                LockEvent::Tried { taken: Taken::InUse } => LockStep::Pause {
                    seconds: old(self).retry.backoff,
                    first: !old(self).waited,
                },
                LockEvent::Tried { taken: Taken::Failed } => LockStep::Failed,
                LockEvent::Paused { shutdown: true } => LockStep::Shutdown,
                LockEvent::Paused { shutdown: false } => LockStep::Try,
            }),
            final(self).retry == (if event == (LockEvent::Paused { shutdown: false }) {
                old(self).retry.following(now)
            } else {
                old(self).retry
            }),
            event == (LockEvent::Paused { shutdown: false }) ==> final(self).retry.at == now
                + old(self).retry.backoff * 1_000_000_000,
            final(self).waited == (old(self).waited || event == (LockEvent::Tried {
                taken: Taken::InUse,
            })),
    {
        match event {
            LockEvent::Begun { shutdown } => if shutdown {
                LockStep::Shutdown
            } else {
                LockStep::Try
            },
            LockEvent::Tried { taken } => match taken {
                Taken::Acquired => LockStep::Acquired,
                Taken::InUse => {
                    let first = !self.waited;
                    self.waited = true;
                    LockStep::Pause { seconds: self.retry.backoff, first }
                },
                Taken::Failed => LockStep::Failed,
            },
            LockEvent::Paused { shutdown } => if shutdown {
                LockStep::Shutdown
            } else {
                self.retry = self.retry.failed(now);
                LockStep::Try
            },
        }
    }
}

/// What to do within a pause.
#[derive(Clone, Copy, Debug, PartialEq, Eq, Structural)]
pub enum PauseStep {
    /// The daemon has to stop.
    Shutdown,
    /// The pause is over.
    Over,
    Sleep { nanos: u64 },
}

/// When a pause of `seconds` that begins now is over.
pub fn pause_end(now: u64, seconds: u64) -> (r: u128)
    ensures
        r == now + seconds * retry::SECOND,
        r == now + seconds * 1_000_000_000,
{
    moment_after(now, seconds)
}

/// What to do at the moment `now` of a pause that lasts until `end`: sleep, but
/// never so long that a stop request goes unseen for more than a slice.
pub fn pause_step(shutdown: bool, now: u64, end: u128) -> (r: PauseStep)
    ensures
        r == (if shutdown {
            PauseStep::Shutdown
        } else if now >= end {
            PauseStep::Over
        } else if end - now < SLICE {
            PauseStep::Sleep { nanos: (end - now) as u64 }
        } else {
            PauseStep::Sleep { nanos: SLICE }
        }),
        r matches PauseStep::Sleep { nanos } ==> {
            &&& !shutdown
            &&& 0 < nanos <= 100_000_000
            &&& now + nanos <= end
            &&& nanos == 100_000_000 || now + nanos == end
        },
        r is Shutdown <==> shutdown,
        r is Over <==> !shutdown && now >= end,
{
    if shutdown {
        return PauseStep::Shutdown;
    }
    if now as u128 >= end {
        return PauseStep::Over;
    }
    let left: u128 = end - now as u128;
    if left < SLICE as u128 {
        PauseStep::Sleep { nanos: left as u64 }
    } else {
        PauseStep::Sleep { nanos: SLICE }
    }
}

} // verus!
