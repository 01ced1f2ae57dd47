//! Time limits of one request. Moments are nanoseconds on the clock of the
//! process that serves the request.

use crate::fault::{agrees, general, Fault, FaultView};
use vstd::prelude::*;

verus! {

pub const NANOS_PER_MS: u64 = 1_000_000;

/// The time limit of a request whose sender names none.
pub const DEFAULT_TIMEOUT_MS: u64 = 10_000;

pub const MIN_TIMEOUT_MS: u64 = 100;

pub const MAX_TIMEOUT_MS: u64 = 120_000;

/// How long the first start may take, permission dialog included.
pub const FIRST_START_TIMEOUT_MS: u64 = 180_000;

pub const DEADLINE_RESERVE_MS: u64 = 100;

pub const RESPONSE_RESERVE_MS: u64 = 20;

/// How long closing a broken session is tried even with no time left.
pub const FORCED_CLOSE_ATTEMPT_MS: u64 = 10;

/// A moment after which work must not be started.
#[derive(Clone, Copy, Debug, PartialEq, Eq, Structural)]
pub struct Deadline {
    pub end: u64,
}

impl View for Deadline {
    type V = Deadline;

    open spec fn view(&self) -> Deadline {
        *self
    }
}

/// The part of a time limit, in milliseconds, that is kept back from the
/// action: at most `DEADLINE_RESERVE_MS` and at most half of it.
pub open spec fn reserve_ms(timeout_ms: int) -> int {
    if timeout_ms / 2 < DEADLINE_RESERVE_MS {
        timeout_ms / 2
    } else {
        DEADLINE_RESERVE_MS as int
    }
}

/// The part of the reserve, in milliseconds, that is kept for the response: at
/// most `RESPONSE_RESERVE_MS` and at most half of the reserve.
pub open spec fn response_reserve_ms(timeout_ms: int) -> int {
    if reserve_ms(timeout_ms) / 2 < RESPONSE_RESERVE_MS {
        reserve_ms(timeout_ms) / 2
    } else {
        RESPONSE_RESERVE_MS as int
    }
}

/// The time that is left at a moment; none is a failure.
pub open spec fn time_left(end: u64, now: u64) -> Result<u64, FaultView> {
    if now < end {
        Ok((end - now) as u64)
    } else {
        Err(general("request deadline expired"@))
    }
}

impl Deadline {
    /// The deadlines of the action and of the clean-up of a request that
    /// arrives at `now`.
    pub fn for_request_at(now: u64, timeout_ms: u64) -> (r: (Deadline, Deadline))
        requires
            now + timeout_ms * NANOS_PER_MS <= u64::MAX,
        ensures
            r.0.end == now + (timeout_ms - reserve_ms(timeout_ms as int)) * NANOS_PER_MS,
            r.1.end == now + (timeout_ms - response_reserve_ms(timeout_ms as int)) * NANOS_PER_MS,
    {
        let half: u64 = timeout_ms / 2;
        let reserve: u64 = if half < DEADLINE_RESERVE_MS {
            half
        } else {
            DEADLINE_RESERVE_MS
        };
        let half_reserve: u64 = reserve / 2;
        let response_reserve: u64 = if half_reserve < RESPONSE_RESERVE_MS {
            half_reserve
        } else {
            RESPONSE_RESERVE_MS
        };
        (
            Deadline { end: now + (timeout_ms - reserve) * NANOS_PER_MS },
            Deadline { end: now + (timeout_ms - response_reserve) * NANOS_PER_MS },
        )
    }

    /// The time, in nanoseconds, that is left at `now`.
    pub fn remaining_at(&self, now: u64) -> (r: Result<u64, Fault>)
        ensures
            agrees(r, time_left(self.end, now)),
    {
        if now < self.end {
            Ok(self.end - now)
        } else {
            Err(Fault::of("request deadline expired"))
        }
    }

    /// Fails once no time is left at `now`.
    pub fn check_at(&self, now: u64) -> (r: Result<(), Fault>)
        ensures
            match r {
                Ok(()) => time_left(self.end, now) is Ok,
                Err(f) => time_left(self.end, now) == Err::<u64, FaultView>(f@),
            },
    {
        match self.remaining_at(now) {
            Ok(_) => Ok(()),
            Err(f) => Err(f),
        }
    }
}

/// The time limit of a request, which has to lie within the accepted range.
pub open spec fn accepted_timeout(timeout_ms: u64) -> bool {
    MIN_TIMEOUT_MS <= timeout_ms <= MAX_TIMEOUT_MS
}

/// Whatever the time limit, the action has time, the clean-up still has time
/// when the action's is used up, and the response still has time when the
/// clean-up's is.
pub proof fn law_reserves_are_kept(timeout_ms: u64)
    requires
        accepted_timeout(timeout_ms),
    ensures
        0 < timeout_ms - reserve_ms(timeout_ms as int),
        timeout_ms - reserve_ms(timeout_ms as int) < timeout_ms - response_reserve_ms(
            timeout_ms as int,
        ),
        timeout_ms - response_reserve_ms(timeout_ms as int) < timeout_ms,
{
}

/// The action ends a tenth of a second before the time limit, or half of it
/// where that is less, and the clean-up a fiftieth of a second before it, or
/// half of the other; and the time that is left is what lies before the end.
pub proof fn law_time_is_kept_back(timeout_ms: u64, end: u64, now: u64)
    ensures
        timeout_ms >= 200 ==> reserve_ms(timeout_ms as int) == 100,
        timeout_ms < 200 ==> reserve_ms(timeout_ms as int) == timeout_ms / 2,
        timeout_ms >= 80 ==> response_reserve_ms(timeout_ms as int) == 20,
        now < end ==> time_left(end, now) == Ok::<u64, FaultView>((end - now) as u64),
        now >= end ==> time_left(end, now) is Err,
{
}

} // verus!
