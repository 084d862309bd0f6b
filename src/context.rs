//! Compute-unit metering for one program run.
use vstd::prelude::*;

verus! {

/// Remaining and consumed compute units of one run.
pub struct SolanaContext {
    pub compute_units_remaining: u64,
    /// Total consumption, kept for monitoring.
    pub compute_units_consumed: u64,
}

/// Compute budget that a run starts with.
pub const DEFAULT_COMPUTE_BUDGET: u64 = 200_000;

impl SolanaContext {
    /// The two counters never hold more than the budget the meter was seeded with,
    /// so their sum stays representable.
    pub open spec fn wf(&self) -> bool {
        self.compute_units_remaining + self.compute_units_consumed <= u64::MAX
    }

    /// The meter after a charge of `units`: what remains is taken up to
    /// `units`, and what is taken is added to the consumption.
    pub open spec fn after_charge(&self, units: u64) -> SolanaContext {
        if units <= self.compute_units_remaining {
            SolanaContext {
                compute_units_remaining: (self.compute_units_remaining - units) as u64,
                compute_units_consumed: (self.compute_units_consumed + units) as u64,
            }
        } else {
            SolanaContext {
                compute_units_remaining: 0,
                compute_units_consumed: (self.compute_units_consumed
                    + self.compute_units_remaining) as u64,
            }
        }
    }

    /// A meter seeded with `budget` units and nothing consumed.
    pub fn new(budget: u64) -> (r: SolanaContext)
        ensures
            r.compute_units_remaining == budget,
            r.compute_units_consumed == 0,
            r.wf(),
    {
        SolanaContext { compute_units_remaining: budget, compute_units_consumed: 0 }
    }

    /// Charges `units`, clamped to what remains.
    pub fn consume_compute_units(&mut self, units: u64)
        requires
            old(self).wf(),
        ensures
            final(self).wf(),
            *final(self) == old(self).after_charge(units),
            units <= old(self).compute_units_remaining ==> {
                &&& final(self).compute_units_remaining == old(self).compute_units_remaining
                    - units
                &&& final(self).compute_units_consumed == old(self).compute_units_consumed + units
            },
            units > old(self).compute_units_remaining ==> {
                &&& final(self).compute_units_remaining == 0
                &&& final(self).compute_units_consumed == old(self).compute_units_consumed
                    + old(self).compute_units_remaining
            },
    {
        let consumed = if units <= self.compute_units_remaining {
            units
        } else {
            self.compute_units_remaining
        };
        self.compute_units_remaining = self.compute_units_remaining - consumed;
        self.compute_units_consumed = self.compute_units_consumed + consumed;
    }

    /// Charges `units` on behalf of a syscall.
    pub fn consume_gas(&mut self, units: u64)
        requires
            old(self).wf(),
        ensures
            final(self).wf(),
            *final(self) == old(self).after_charge(units),
            units <= old(self).compute_units_remaining ==> {
                &&& final(self).compute_units_remaining == old(self).compute_units_remaining
                    - units
                &&& final(self).compute_units_consumed == old(self).compute_units_consumed + units
            },
            units > old(self).compute_units_remaining ==> {
                &&& final(self).compute_units_remaining == 0
                &&& final(self).compute_units_consumed == old(self).compute_units_consumed
                    + old(self).compute_units_remaining
            },
    {
        self.consume_compute_units(units);
    }

    /// The units left; no side effect.
    pub fn get_remaining(&self) -> (r: u64)
        ensures
            r == self.compute_units_remaining,
    {
        self.compute_units_remaining
    }
}

} // verus!
