//! Per-tenant rate limiting. Event counting over the sliding window is
//! delegated to `pingora_limits` behind trusted wrappers; the enforcement
//! decision against the configured limit is verified.

use vstd::prelude::*;
use pingora_limits::rate::Rate;

verus! {

#[verifier::external_type_specification]
#[verifier::external_body]
pub struct ExRate(Rate);

/// Relies on `pingora_limits::rate::Rate::new`: a sliding-window event
/// counter over the given interval. The counter's state is opaque.
#[verifier::external_body]
pub fn new_rate(interval_seconds: u64) -> (r: Rate) {
    Rate::new(core::time::Duration::from_secs(interval_seconds))
}

/// True when an observed request count breaks a tenant's limit: the request
/// at `count == limit` still passes, the one after it is rejected.
pub open spec fn spec_rate_limited(count: int, limit: int) -> bool {
    count > limit
}

/// The rate-limit boundary: a window count equal to the limit passes, one
/// past the limit is rejected.
pub proof fn lemma_rate_limit_threshold(limit: int)
    ensures
        !spec_rate_limited(limit, limit),
        spec_rate_limited(limit + 1, limit),
{
}

/// One tenant's limiter: a sliding-window counter and the maximum number of
/// requests allowed per interval.
pub struct RateLimiter {
    limits: Rate,
    max_req_per_second: u32,
}

impl RateLimiter {
    /// The configured limit, as a mathematical value.
    pub closed spec fn spec_limit(&self) -> int {
        self.max_req_per_second as int
    }

    pub fn new(limits: Rate, max_req_per_second: u32) -> (r: Self)
        ensures
            r.spec_limit() == max_req_per_second as int,
    {
        RateLimiter { limits, max_req_per_second }
    }

    /// Relies on `pingora_limits::rate::Rate::observe`: reports one event
    /// for `key` and returns the count seen for that key in the current
    /// window. The count depends on the clock and the estimator's state, so
    /// nothing is promised of it; enforcement compares it to the limit in
    /// verified code.
    #[verifier::external_body]
    pub fn increase(&self, key: &str) -> isize {
        self.limits.observe(&key, 1)
    }

    /// The configured limit.
    pub fn limit(&self) -> (r: u32)
        ensures
            r as int == self.spec_limit(),
    {
        self.max_req_per_second
    }

    pub fn max_req_per_second(&self) -> (r: isize)
        requires
            self.spec_limit() <= isize::MAX,
        ensures
            r == self.spec_limit(),
    {
        self.max_req_per_second as isize
    }

    /// The enforcement decision for a window count `increase` handed back.
    pub fn is_exceeded(&self, count: isize) -> (r: bool)
        ensures
            r == spec_rate_limited(count as int, self.spec_limit()),
    {
        if count <= 0 {
            false
        } else {
            (count as u64) > (self.max_req_per_second as u64)
        }
    }
}

} // verus!
