//! Wall-clock-bounded work budget for a single drain pass.
//!
//! The driver is one cooperative task among many; each receive or send pass
//! must stop once it has spent its per-cycle time budget. Time enters as a
//! monotonic reading in nanoseconds taken by the caller. The limiter keeps a
//! smoothed estimate of the cost of one unit of work from prior cycles and
//! stops a cycle once the elapsed time plus one more estimated unit would
//! exceed the budget, so short bursts stay cheap.

use vstd::prelude::*;

verus! {

/// Bounds the time spent inside one drain pass.
#[derive(Clone, Copy, Debug)]
pub struct WorkLimiter {
    /// Per-cycle budget, in nanoseconds.
    pub budget: u64,
    /// Monotonic reading at which the current cycle started.
    pub cycle_start: u64,
    /// Whether a cycle is currently open.
    pub in_cycle: bool,
    /// Units of useful work recorded in the current cycle.
    pub cycle_work: u64,
    /// Smoothed estimate of the cost of one unit of work, in nanoseconds.
    pub per_item_estimate: u64,
}

impl WorkLimiter {
    /// Nanoseconds elapsed in the current cycle at reading `now`; zero if the
    /// clock reads earlier than the cycle start.
    pub open spec fn elapsed(self, now: u64) -> nat {
        if now >= self.cycle_start {
            (now - self.cycle_start) as nat
        } else {
            0
        }
    }

    /// Whether one more unit of work is expected to fit in the budget.
    pub open spec fn spec_allow(self, now: u64) -> bool {
        self.elapsed(now) + self.per_item_estimate <= self.budget
    }

    /// The smoothed per-unit estimate after a cycle that spent `elapsed`
    /// nanoseconds on `work` units: seven parts old estimate, one part the
    /// cycle's own average. A cycle without work leaves the estimate alone.
    pub open spec fn next_estimate(self, elapsed: nat, work: u64) -> int {
        if work == 0 {
            self.per_item_estimate as int
        } else {
            (7 * self.per_item_estimate + elapsed / (work as nat)) / 8
        }
    }

    /// A fresh limiter with the given per-cycle budget in nanoseconds.
    pub fn new(budget: u64) -> (r: Self)
        ensures
            r.budget == budget,
            r.cycle_start == 0,
            !r.in_cycle,
            r.cycle_work == 0,
            r.per_item_estimate == 0,
    {
        WorkLimiter { budget, cycle_start: 0, in_cycle: false, cycle_work: 0, per_item_estimate: 0 }
    }

    /// Mark the beginning of a drain pass at monotonic reading `now`.
    pub fn start_cycle(&mut self, now: u64)
        ensures
            final(self).budget == old(self).budget,
            final(self).per_item_estimate == old(self).per_item_estimate,
            final(self).cycle_start == now,
            final(self).in_cycle,
            final(self).cycle_work == 0,
    {
        self.cycle_start = now;
        self.in_cycle = true;
        self.cycle_work = 0;
    }

    /// Attribute `n` units of useful work to the current cycle; the count
    /// saturates rather than wraps.
    pub fn record_work(&mut self, n: usize)
        ensures
            final(self).budget == old(self).budget,
            final(self).per_item_estimate == old(self).per_item_estimate,
            final(self).cycle_start == old(self).cycle_start,
            final(self).in_cycle == old(self).in_cycle,
            final(self).cycle_work
                == if old(self).cycle_work + n <= u64::MAX { old(self).cycle_work + n } else { u64::MAX as int },
    {
        self.cycle_work = self.cycle_work.saturating_add(n as u64);
    }

    /// Whether the cycle may do one more unit of work at reading `now`: true
    /// while the elapsed time plus one estimated unit stays within the budget.
    pub fn allow_work(&self, now: u64) -> (r: bool)
        ensures
            r == self.spec_allow(now),
    {
        let elapsed: u64 = if now >= self.cycle_start { now - self.cycle_start } else { 0 };
        match elapsed.checked_add(self.per_item_estimate) {
            Some(total) => total <= self.budget,
            None => false,
        }
    }

    /// Close the cycle at reading `now` and fold its measured per-unit cost
    /// into the smoothed estimate.
    pub fn finish_cycle(&mut self, now: u64)
        ensures
            final(self).budget == old(self).budget,
            final(self).cycle_start == old(self).cycle_start,
            final(self).cycle_work == old(self).cycle_work,
            !final(self).in_cycle,
            final(self).per_item_estimate
                == old(self).next_estimate(old(self).elapsed(now), old(self).cycle_work),
    {
        let elapsed: u64 = if now >= self.cycle_start { now - self.cycle_start } else { 0 };
        if self.cycle_work > 0 {
            let per_item: u64 = elapsed / self.cycle_work;
            let blended: u128 = (7u128 * self.per_item_estimate as u128 + per_item as u128) / 8;
            assert(blended <= u64::MAX);
            self.per_item_estimate = blended as u64;
        }
        self.in_cycle = false;
    }
}

} // verus!
