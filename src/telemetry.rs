//! Throughput accounting for the proxy: relays report the bytes they pass on,
//! and the total is logged and reset on a fixed interval.
use vstd::prelude::*;

verus! {

/// Bytes relayed since the last report.
pub struct Throughput {
    pub bytes: u64,
}

impl Throughput {
    pub fn new() -> (r: Throughput)
        ensures
            r.bytes == 0,
    {
        Throughput { bytes: 0 }
    }

    /// Adds `n` relayed bytes; the count stops at `u64::MAX`.
    pub fn record(&mut self, n: u64)
        ensures
            final(self).bytes == if old(self).bytes + n > u64::MAX {
                u64::MAX as int
            } else {
                old(self).bytes + n
            },
    {
        self.bytes = self.bytes.saturating_add(n);
    }

    /// The bytes relayed since the last report; the count starts again at zero.
    pub fn take(&mut self) -> (r: u64)
        ensures
            r == old(self).bytes,
            final(self).bytes == 0,
    {
        let r = self.bytes;
        self.bytes = 0;
        r
    }
}

/// Bytes per second over an interval of `secs` seconds.
pub fn rate_per_sec(bytes: u64, secs: u64) -> (r: u64)
    requires
        secs > 0,
    ensures
        r == bytes / secs,
{
    bytes / secs
}

} // verus!
