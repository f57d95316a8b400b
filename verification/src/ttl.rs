//! Time-to-live values for DNS records.

use vstd::prelude::*;

verus! {

/// The hard-coded fallback TTL, in seconds, used when neither a hostname,
/// nor its zone, nor the run-wide configuration names one.
pub const DEFAULT_TTL_SECONDS: i64 = 300;

/// A record time-to-live in seconds. Always positive.
#[derive(Clone, Copy, Debug, PartialEq, Eq, Structural)]
pub struct Ttl {
    seconds: i64,
}

impl Ttl {
    /// The number of seconds this TTL stands for.
    pub closed spec fn spec_seconds(self) -> int {
        self.seconds as int
    }

    /// Every `Ttl` that can be constructed carries a positive count of seconds.
    pub closed spec fn wf(self) -> bool {
        self.seconds > 0
    }

    /// Makes a TTL from a positive number of seconds.
    pub fn from_seconds(seconds: i64) -> (t: Ttl)
        requires
            seconds > 0,
        ensures
            t.spec_seconds() == seconds,
            t.wf(),
    {
        Ttl { seconds }
    }

    /// Reads the TTL back as seconds.
    pub fn seconds(self) -> (s: i64)
        ensures
            s == self.spec_seconds(),
            self.wf() ==> s > 0,
    {
        self.seconds
    }
}

} // verus!
