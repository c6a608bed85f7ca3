//! HTTP policy: timeouts, retries and the browser identity sent.

use vstd::prelude::*;
use crate::infra::error::AppError;

verus! {

/// Timeout of one request, in seconds.
pub const TIMEOUT_SEC: u64 = 20;

/// Connection timeout, in seconds.
pub const CONNECT_TIMEOUT_SEC: u64 = 10;

/// Automatic retries after a request's first attempt failed: a request is
/// tried at most `RETRY_COUNT + 1` times.
pub const RETRY_COUNT: u32 = 3;

/// A mainstream desktop browser's user agent: all four sources answer
/// differently (or not at all) to other agents.
pub const UA: &'static str = "Mozilla/5.0 (Windows NT 10.0; Win64; x64) AppleWebKit/537.36 (KHTML, like Gecko) Chrome/131.0.0.0 Safari/537.36";

pub const ACCEPT_LANGUAGE: &'static str = "zh-CN,zh;q=0.9,en;q=0.8";

pub open spec fn pow3(n: nat) -> nat
    decreases n,
{
    if n == 0 {
        1
    } else {
        3 * pow3((n - 1) as nat)
    }
}

/// What to do after attempt `attempt` (from zero) failed with `err`: wait
/// this many seconds and try again (1 s, 3 s, 9 s before the three
/// retries), or give up. Only network errors are retried; retrying a local
/// error cannot help.
pub fn retry_after(attempt: u32, err: &AppError) -> (r: Option<u64>)
    requires
        attempt <= RETRY_COUNT,
    ensures
        r == if (err is Http || err is BadResponse || err is ProviderUnavailable) && attempt
            < RETRY_COUNT {
            Some(pow3(attempt as nat) as u64)
        } else {
            None
        },
{
    if err.is_retryable() && attempt < RETRY_COUNT {
        let mut d: u64 = 1;
        let mut k: u32 = 0;
        while k < attempt
            invariant
                k <= attempt < RETRY_COUNT,
                d == pow3(k as nat),
                d <= 27,
                k == 0 ==> d == 1,
                k == 1 ==> d == 3,
                k == 2 ==> d == 9,
            decreases attempt - k,
        {
            d = d * 3;
            k = k + 1;
        }
        Some(d)
    } else {
        None
    }
}

} // verus!
