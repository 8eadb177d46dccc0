//! Reconnection delays: exponential backoff with a cap and a reset after a quiet period, and the
//! retry policy that pairs a backoff with an error handler.
use vstd::prelude::*;
use std::marker::PhantomData;
use std::time::{Duration, Instant};

verus! {

#[verifier::external_type_specification]
#[verifier::external_body]
pub struct ExInstant(Instant);

/// `Instant::now()`: the current time; nothing is promised of its value.
#[verifier::external_body]
fn instant_now() -> Instant {
    Instant::now()
}

/// `since.elapsed().as_nanos()`: the nanoseconds passed since `since`, as a `u64` (the most a
/// `u64` holds where more have passed). It depends on the clock, so nothing is promised of it.
#[verifier::external_body]
fn elapsed_ns(since: &Instant) -> u64 {
    u64::try_from(since.elapsed().as_nanos()).unwrap_or(u64::MAX)
}

/// More than `interval_ms` milliseconds are `elapsed_ns` nanoseconds.
pub open spec fn quiet_period_passed_spec(elapsed_ns: u64, interval_ms: u64) -> bool {
    elapsed_ns > interval_ms * 1_000_000
}

/// Whether more than `interval_ms` milliseconds have passed in `elapsed_ns` nanoseconds.
pub fn quiet_period_passed(elapsed_ns: u64, interval_ms: u64) -> (r: bool)
    ensures
        r == quiet_period_passed_spec(elapsed_ns, interval_ms),
{
    if interval_ms > u64::MAX / 1_000_000 {
        false
    } else {
        elapsed_ns > interval_ms * 1_000_000
    }
}

/// The duration of `ms` milliseconds, as `Duration::from_millis` builds it.
pub uninterp spec fn millis_duration(ms: u64) -> Duration;

/// `Duration::from_millis`: a duration of `ms` milliseconds; the same count gives the same
/// duration.
#[verifier::external_body]
fn duration_from_millis(ms: u64) -> (r: Duration)
    ensures
        r == millis_duration(ms),
{
    Duration::from_millis(ms)
}

/// Chooses the delay before the next reconnection attempt.
pub trait BackoffStrategy {
    fn backoff(&mut self) -> Duration;
}

/// The delay after `last`: the first delay is the minimum, each following one the previous times
/// the factor (saturating), capped at the maximum.
pub open spec fn next_delay(last: Option<u64>, factor: u32, min_ms: u64, max_ms: u64) -> u64 {
    match last {
        None => min_ms,
        Some(l) => {
            let grown = if l * factor > u64::MAX {
                u64::MAX
            } else {
                (l * factor) as u64
            };
            if grown < max_ms {
                grown
            } else {
                max_ms
            }
        },
    }
}

/// Exponential backoff in milliseconds: 100 ms doubling up to 60 s, starting over once five
/// minutes pass without an attempt.
pub struct ExponentialBackoff {
    last_attempt: Instant,
    factor: u32,
    last_delay_ms: Option<u64>,
    reset_interval_ms: u64,
    min_delay_ms: u64,
    max_delay_ms: u64,
}

impl Default for ExponentialBackoff {
    fn default() -> (r: Self)
        ensures
            r.factor() == 2,
            r.last_delay() is None,
            r.reset_interval_ms() == 300_000,
            r.min_delay_ms() == 100,
            r.max_delay_ms() == 60_000,
    {
        ExponentialBackoff {
            last_attempt: instant_now(),
            factor: 2,
            last_delay_ms: None,
            reset_interval_ms: 300_000,
            min_delay_ms: 100,
            max_delay_ms: 60_000,
        }
    }
}

impl ExponentialBackoff {
    pub closed spec fn factor(self) -> u32 {
        self.factor
    }

    pub closed spec fn last_delay(self) -> Option<u64> {
        self.last_delay_ms
    }

    pub closed spec fn reset_interval_ms(self) -> u64 {
        self.reset_interval_ms
    }

    pub closed spec fn min_delay_ms(self) -> u64 {
        self.min_delay_ms
    }

    pub closed spec fn max_delay_ms(self) -> u64 {
        self.max_delay_ms
    }

    /// The next delay in milliseconds; `reset` when the quiet period has passed since the last
    /// attempt, which starts the sequence over.
    pub fn next_delay_ms(&mut self, reset: bool) -> (r: u64)
        ensures
            r == next_delay(
                if reset {
                    None
                } else {
                    old(self).last_delay()
                },
                old(self).factor(),
                old(self).min_delay_ms(),
                old(self).max_delay_ms(),
            ),
            final(self).last_delay() == Some(r),
            final(self).factor() == old(self).factor(),
            final(self).reset_interval_ms() == old(self).reset_interval_ms(),
            final(self).min_delay_ms() == old(self).min_delay_ms(),
            final(self).max_delay_ms() == old(self).max_delay_ms(),
    {
        if reset {
            self.last_delay_ms = None;
        }
        let delay = match self.last_delay_ms {
            None => self.min_delay_ms,
            Some(last) => {
                let grown = match last.checked_mul(self.factor as u64) {
                    Some(g) => g,
                    None => u64::MAX,
                };
                if grown < self.max_delay_ms {
                    grown
                } else {
                    self.max_delay_ms
                }
            },
        };
        self.last_delay_ms = Some(delay);
        delay
    }
}

impl BackoffStrategy for ExponentialBackoff {
    /// The next delay: the sequence starts over when more than the reset interval has passed
    /// since the last attempt (which the clock decides), and the attempt time becomes now.
    fn backoff(&mut self) -> (r: Duration)
        ensures
            final(self).last_delay() == Some(next_delay(None, old(self).factor(), old(self).min_delay_ms(), old(self).max_delay_ms()))
                || final(self).last_delay() == Some(
                next_delay(old(self).last_delay(), old(self).factor(), old(self).min_delay_ms(), old(self).max_delay_ms()),
            ),
            final(self).last_delay() matches Some(ms) && r == millis_duration(ms),
            final(self).factor() == old(self).factor(),
            final(self).reset_interval_ms() == old(self).reset_interval_ms(),
            final(self).min_delay_ms() == old(self).min_delay_ms(),
            final(self).max_delay_ms() == old(self).max_delay_ms(),
    {
        let reset = quiet_period_passed(elapsed_ns(&self.last_attempt), self.reset_interval_ms);
        self.last_attempt = instant_now();
        let ms = self.next_delay_ms(reset);
        duration_from_millis(ms)
    }
}

/// A delay never exceeds the cap once the minimum is within it.
pub proof fn delay_never_exceeds_cap(last: Option<u64>, factor: u32, min_ms: u64, max_ms: u64)
    requires
        min_ms <= max_ms,
    ensures
        next_delay(last, factor, min_ms, max_ms) <= max_ms,
{
}

/// Delays do not shrink: with a factor of at least one, the next delay is at least the last one
/// while the last is within the cap.
pub proof fn delays_grow_until_the_cap(last: u64, factor: u32, min_ms: u64, max_ms: u64)
    requires
        factor >= 1,
        last <= max_ms,
    ensures
        next_delay(Some(last), factor, min_ms, max_ms) >= last,
{
    assert(last * factor >= last) by (nonlinear_arith)
        requires factor >= 1, last >= 0;
}

/// A retry policy: the backoff between attempts and an optional handler that sees each error
/// and decides whether to keep trying.
pub struct Retry<O, E, Backoff, ErrorHandler> {
    backoff: Backoff,
    error_handler: Option<ErrorHandler>,
    marker: PhantomData<(O, E)>,
}

impl<O, E, Backoff, ErrorHandler> Retry<O, E, Backoff, ErrorHandler> {
    pub fn new(backoff: Backoff) -> (r: Self)
        ensures
            r.backoff() == backoff,
            r.handler() is None,
    {
        Retry { backoff, error_handler: None, marker: PhantomData }
    }

    /// The same policy with an error handler.
    pub fn error_handler(self, error_handler: ErrorHandler) -> (r: Self)
        ensures
            r.backoff() == self.backoff(),
            r.handler() == Some(error_handler),
    {
        Retry { backoff: self.backoff, error_handler: Some(error_handler), marker: PhantomData }
    }

    pub closed spec fn backoff(self) -> Backoff {
        self.backoff
    }

    pub closed spec fn handler(self) -> Option<ErrorHandler> {
        self.error_handler
    }

    /// The backoff and the handler, for the loop that runs the attempts.
    pub fn into_parts(self) -> (r: (Backoff, Option<ErrorHandler>))
        ensures
            r.0 == self.backoff(),
            r.1 == self.handler(),
    {
        (self.backoff, self.error_handler)
    }
}

} // verus!
