//! The bound on requests handled at once (`max_concurrent_requests`): a
//! request is admitted while fewer than the limit are in flight, and waits
//! otherwise.
use vstd::prelude::*;

verus! {

/// Counts the requests in flight against a limit.
#[derive(Debug)]
pub struct ConcurrencyLimiter {
    in_flight: usize,
    limit: usize,
}

impl ConcurrencyLimiter {
    #[verifier::type_invariant]
    spec fn within_limit(self) -> bool {
        self.in_flight <= self.limit
    }

    /// The number of requests in flight.
    pub closed spec fn in_flight_count(self) -> nat {
        self.in_flight as nat
    }

    /// The most requests allowed in flight at once.
    pub closed spec fn limit_count(self) -> nat {
        self.limit as nat
    }

    /// A limiter with nothing in flight.
    pub fn new(limit: usize) -> (g: ConcurrencyLimiter)
        ensures
            g.in_flight_count() == 0,
            g.limit_count() == limit,
    {
        ConcurrencyLimiter { in_flight: 0, limit }
    }

    /// Admits one more request when fewer than the limit are in flight, and
    /// counts it; otherwise leaves the limiter as it is. The count never exceeds
    /// the limit.
    pub fn try_enter(&mut self) -> (admitted: bool)
        ensures
            admitted == (old(self).in_flight_count() < old(self).limit_count()),
            final(self).in_flight_count() == old(self).in_flight_count() + if admitted {
                1nat
            } else {
                0nat
            },
            final(self).limit_count() == old(self).limit_count(),
            final(self).in_flight_count() <= final(self).limit_count(),
    {
        proof {
            use_type_invariant(&*self);
        }
        if self.in_flight < self.limit {
            self.in_flight = self.in_flight + 1;
            true
        } else {
            false
        }
    }

    /// Counts one admitted request as finished (nothing changes when none is in flight).
    pub fn leave(&mut self)
        ensures
            final(self).in_flight_count() == if old(self).in_flight_count() > 0 {
                (old(self).in_flight_count() - 1) as nat
            } else {
                0nat
            },
            final(self).limit_count() == old(self).limit_count(),
            final(self).in_flight_count() <= final(self).limit_count(),
    {
        proof {
            use_type_invariant(&*self);
        }
        if self.in_flight > 0 {
            self.in_flight = self.in_flight - 1;
        }
    }

    /// The number of requests in flight.
    pub fn in_flight(&self) -> (n: usize)
        ensures
            n == self.in_flight_count(),
            n <= self.limit_count(),
    {
        proof {
            use_type_invariant(self);
        }
        self.in_flight
    }
}

} // verus!
