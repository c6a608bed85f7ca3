//! Per-source rate limiting.
//!
//! Requests are spaced evenly: the n-th request goes out no earlier than n
//! intervals after the first. Upstream services see a steady pace rather than
//! bursts. Times are nanoseconds on a monotonic clock whose origin is no later
//! than the limiter's creation; the caller reads the clock and sleeps.

use vstd::prelude::*;

verus! {

/// Requests per second for each source.
pub const RATE_LIMIT_PER_SEC: u32 = 5;

pub struct RateLimiter {
    /// Earliest time the next request may go out.
    pub next_at_ns: u64,
    /// Time between requests.
    pub interval_ns: u64,
}

/// Nanoseconds between requests at `per_sec` requests a second (at least one).
pub open spec fn interval_for(per_sec: u32) -> u64 {
    let p: int = if per_sec == 0 {
        1
    } else {
        per_sec as int
    };
    (1_000_000_000int / p) as u64
}

/// A limiter with the default rate; each source holds one.
pub fn per_source() -> (r: RateLimiter)
    ensures
        r.interval_ns == 200_000_000,
        r.next_at_ns == 0,
{
    assert(1_000_000_000int / 5int == 200_000_000int) by (nonlinear_arith);
    assert(interval_for(5) == 200_000_000);
    RateLimiter::new(RATE_LIMIT_PER_SEC)
}

impl RateLimiter {
    /// `per_sec` requests a second; 5 gives one request every 200 ms.
    pub fn new(per_sec: u32) -> (r: Self)
        ensures
            r.interval_ns == interval_for(per_sec),
            r.next_at_ns == 0,
    {
        let p: u64 = if per_sec == 0 {
            1
        } else {
            per_sec as u64
        };
        RateLimiter { next_at_ns: 0, interval_ns: 1_000_000_000 / p }
    }

    /// Takes a slot for a request made at `now_ns`: returns how long to wait
    /// before sending, and moves the next free slot one interval on.
    pub fn reserve(&mut self, now_ns: u64) -> (wait_ns: u64)
        requires
            old(self).next_at_ns as int + old(self).interval_ns <= u64::MAX,
            now_ns as int + old(self).interval_ns <= u64::MAX,
        ensures
            ({
                let slot = if old(self).next_at_ns >= now_ns {
                    old(self).next_at_ns
                } else {
                    now_ns
                };
                &&& wait_ns == slot - now_ns
                &&& final(self).next_at_ns == slot + old(self).interval_ns
                &&& final(self).interval_ns == old(self).interval_ns
            }),
    {
        let slot = if self.next_at_ns >= now_ns {
            self.next_at_ns
        } else {
            now_ns
        };
        self.next_at_ns = slot + self.interval_ns;
        slot - now_ns
    }
}

/// Successive reservations are at least one interval apart, and no request
/// goes out before it was asked for.
pub proof fn lemma_reservations_spaced(next_at: u64, interval: u64, now1: u64, now2: u64)
    ensures
        ({
            let slot1 = if next_at >= now1 {
                next_at as int
            } else {
                now1 as int
            };
            let next = slot1 + interval;
            let slot2 = if next >= now2 {
                next
            } else {
                now2 as int
            };
            slot2 - slot1 >= interval && slot1 >= now1 && slot2 >= now2
        }),
{
}

} // verus!
