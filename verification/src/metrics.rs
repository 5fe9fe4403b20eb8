//! Chain throughput metrics.
//!
//! Plain monotonically increasing counters, incremented additively with
//! saturation at the counter width; a chain updates them after every
//! stage with the records and bytes observed at that stage's input and
//! output and with the count of new errors.  Counters never decrease
//! and never reset inside a `process` call.

use vstd::prelude::*;

verus! {

/// Cumulative counters for one or more chains.
#[derive(Clone, Copy, Debug, PartialEq, Eq, Structural)]
pub struct SmartModuleChainMetrics {
    pub records_in: u64,
    pub records_out: u64,
    pub bytes_in: u64,
    pub bytes_out: u64,
    pub errors: u64,
}

/// Addition capped at the counter width.
pub open spec fn capped(x: int) -> int {
    if x > u64::MAX {
        u64::MAX as int
    } else {
        x
    }
}

/// Saturating counter addition.
pub fn sat_add(a: u64, b: u64) -> (r: u64)
    ensures
        r as int == capped(a + b),
{
    if a > u64::MAX - b {
        u64::MAX
    } else {
        a + b
    }
}

/// Capping commutes with adding a non-negative delta to a capped sum.
pub proof fn lemma_capped_add(base: int, delta: int)
    requires
        0 <= base,
        0 <= delta,
    ensures
        capped(capped(base) + delta) == capped(base + delta),
{
}

impl SmartModuleChainMetrics {
    /// All counters at zero.
    pub fn new() -> (r: SmartModuleChainMetrics)
        ensures
            r.records_in == 0,
            r.records_out == 0,
            r.bytes_in == 0,
            r.bytes_out == 0,
            r.errors == 0,
    {
        SmartModuleChainMetrics {
            records_in: 0,
            records_out: 0,
            bytes_in: 0,
            bytes_out: 0,
            errors: 0,
        }
    }

    /// Records one stage's observations; every counter grows by its
    /// delta, saturating, and none decreases.
    pub fn add_stage(&mut self, recs_in: u64, recs_out: u64, b_in: u64, b_out: u64, errs: u64)
        ensures
            final(self).records_in as int == capped(old(self).records_in + recs_in),
            final(self).records_out as int == capped(old(self).records_out + recs_out),
            final(self).bytes_in as int == capped(old(self).bytes_in + b_in),
            final(self).bytes_out as int == capped(old(self).bytes_out + b_out),
            final(self).errors as int == capped(old(self).errors + errs),
    {
        self.records_in = sat_add(self.records_in, recs_in);
        self.records_out = sat_add(self.records_out, recs_out);
        self.bytes_in = sat_add(self.bytes_in, b_in);
        self.bytes_out = sat_add(self.bytes_out, b_out);
        self.errors = sat_add(self.errors, errs);
    }
}

impl Default for SmartModuleChainMetrics {
    /// All counters at zero.
    fn default() -> (r: SmartModuleChainMetrics)
        ensures
            r.records_in == 0,
            r.records_out == 0,
            r.bytes_in == 0,
            r.bytes_out == 0,
            r.errors == 0,
    {
        SmartModuleChainMetrics::new()
    }
}

} // verus!
