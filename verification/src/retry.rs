//! When an operation that failed is tried again.
//!
//! Moments are nanoseconds on a clock that only moves forward.

use vstd::prelude::*;

verus! {

/// The seconds after which a first failure is followed by another try.
pub const INITIAL_RETRY: u64 = 1;

/// The longest that a try waits for the next, in seconds.
pub const MAX_RETRY: u64 = 30;

/// The nanoseconds in a second.
pub const SECOND: u128 = 1_000_000_000;

/// The next try of an operation, and how long it waits after that.
#[derive(Clone, Copy, Debug, PartialEq, Eq, Structural)]
pub struct Retry {
    /// The moment from which on the operation may be tried.
    pub at: u128,
    /// How long another failure puts the next try off, in seconds.
    pub backoff: u64,
}

/// The wait after one of `backoff` seconds: twice as long, up to the limit.
pub open spec fn next_backoff(backoff: int) -> int {
    if 2 * backoff < MAX_RETRY {
        2 * backoff
    } else {
        MAX_RETRY as int
    }
}

/// The moment `seconds` after `now`.
pub open spec fn after(now: u64, seconds: u64) -> u128 {
    (now + seconds * SECOND) as u128
}

impl Retry {
    /// The operation may be tried at the moment `now`.
    pub open spec fn is_due(self, now: u64) -> bool {
        now >= self.at
    }

    /// A first try at the moment `now`.
    pub open spec fn first(now: u64) -> Retry {
        Retry { at: now as u128, backoff: INITIAL_RETRY }
    }

    /// The try that follows a failure at the moment `now`.
    pub open spec fn following(self, now: u64) -> Retry {
        Retry { at: after(now, self.backoff), backoff: next_backoff(self.backoff as int) as u64 }
    }

    /// A first try at the moment `now`.
    pub fn immediate(now: u64) -> (r: Self)
        ensures
            r == Retry::first(now),
            r.at == now,
            r.backoff == INITIAL_RETRY,
            r.backoff == 1,
    {
        Retry { at: now as u128, backoff: INITIAL_RETRY }
    }

    /// The try that follows a failure at the moment `now`.
    pub fn failed(self, now: u64) -> (r: Self)
        ensures
            r == self.following(now),
            r.at == now + self.backoff * SECOND,
            r.backoff == next_backoff(self.backoff as int),
            r.at == now + self.backoff * 1_000_000_000,
            self.backoff < 15 ==> r.backoff == 2 * self.backoff,
            self.backoff >= 15 ==> r.backoff == 30,
    {
        let backoff: u64 = if self.backoff < MAX_RETRY / 2 {
            self.backoff * 2
        } else {
            MAX_RETRY
        };
        Retry { at: moment_after(now, self.backoff), backoff }
    }

    /// Whether the operation may be tried at the moment `now`.
    pub fn due(&self, now: u64) -> (r: bool)
        ensures
            r == self.is_due(now),
            r <==> now >= self.at,
    {
        now as u128 >= self.at
    }
}

/// The moment `seconds` after `now`.
pub fn moment_after(now: u64, seconds: u64) -> (r: u128)
    ensures
        r == after(now, seconds),
        r == now + seconds * SECOND,
        r == now + seconds * 1_000_000_000,
{
    assert(seconds * SECOND <= 0xffff_ffff_ffff_ffff * 1_000_000_000) by (nonlinear_arith)
        requires
            seconds <= 0xffff_ffff_ffff_ffff,
            SECOND == 1_000_000_000,
    ;
    now as u128 + seconds as u128 * SECOND
}

/// The try that follows a failure at each of `moments`.
pub open spec fn after_failures(retry: Retry, moments: Seq<u64>) -> Retry
    decreases moments.len(),
{
    if moments.len() == 0 {
        retry
    } else {
        after_failures(retry, moments.drop_last()).following(moments.last())
    }
}

/// Waits double from the first and never pass the limit: after `n` failures
/// in a row, whenever each of them happened, the wait is two to the `n`
/// seconds, up to the limit.
pub proof fn backoff_doubles_up_to_the_limit(start: u64, moments: Seq<u64>)
    ensures
        after_failures(Retry::first(start), moments).backoff == (if vstd::arithmetic::power2::pow2(
            moments.len(),
        ) < MAX_RETRY {
            vstd::arithmetic::power2::pow2(moments.len()) as int
        } else {
            MAX_RETRY as int
        }),
    decreases moments.len(),
{
    if moments.len() == 0 {
        vstd::arithmetic::power2::lemma2_to64();
    } else {
        backoff_doubles_up_to_the_limit(start, moments.drop_last());
        vstd::arithmetic::power2::lemma_pow2_unfold(moments.len());
    }
}

/// A retry in numbers: it may be tried from its moment on; a first try is due at
/// once and waits a second for the next; a failure puts it off by its wait, in
/// seconds of a thousand million nanoseconds, and doubles the wait up to thirty.
pub proof fn retries_in_numbers(retry: Retry, now: u64)
    ensures
        retry.is_due(now) <==> retry.at <= now,
        Retry::first(now).at == now,
        Retry::first(now).backoff == 1,
        retry.following(now).at == now + retry.backoff * 1_000_000_000,
        retry.backoff <= 15 ==> retry.following(now).backoff == 2 * retry.backoff,
        retry.backoff >= 15 ==> retry.following(now).backoff == 30,
{
    let backoff = retry.backoff;
    assert(backoff * SECOND <= 0xffff_ffff_ffff_ffff * 1_000_000_000) by (nonlinear_arith)
        requires
            backoff <= 0xffff_ffff_ffff_ffff,
            SECOND == 1_000_000_000,
    ;
}

} // verus!
