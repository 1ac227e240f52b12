//! Fixed-interval gates driving the movement and animation cadences.
//!
//! Each gate accumulates elapsed milliseconds and fires whenever a full
//! period has passed, keeping the remainder for the next tick.

use vstd::prelude::*;

verus! {

/// Elapsed milliseconds a repeating gate may be asked to absorb in one tick.
pub const MAX_TICK_MS: u64 = 0x1_0000_0000;

/// A repeating fixed-interval gate: fires once per elapsed period.
#[derive(Clone, Copy, PartialEq, Eq, Structural, Debug)]
pub struct TickGate {
    pub period_ms: u64,
    pub elapsed_ms: u64,
}

impl TickGate {
    /// A gate is well formed when its period is positive and its
    /// accumulator has not yet reached a full period.
    pub open spec fn wf(self) -> bool {
        0 < self.period_ms <= MAX_TICK_MS && self.elapsed_ms < self.period_ms
    }

    /// A fresh gate with the given period and an empty accumulator.
    pub fn new(period_ms: u64) -> (g: Self)
        requires
            0 < period_ms <= MAX_TICK_MS,
        ensures
            g == (TickGate { period_ms, elapsed_ms: 0 }),
            g.wf(),
    {
        TickGate { period_ms, elapsed_ms: 0 }
    }

    /// Absorbs `delta_ms` elapsed milliseconds; returns whether at least one
    /// full period passed, keeping the remainder in the accumulator.
    pub fn tick(&mut self, delta_ms: u64) -> (fired: bool)
        requires
            old(self).wf(),
            delta_ms <= MAX_TICK_MS,
        ensures
            fired == (old(self).elapsed_ms + delta_ms >= old(self).period_ms),
            final(self).period_ms == old(self).period_ms,
            final(self).elapsed_ms as int == (old(self).elapsed_ms + delta_ms) % (
            old(self).period_ms as int),
            final(self).wf(),
    {
        let total = self.elapsed_ms + delta_ms;
        if total >= self.period_ms {
            self.elapsed_ms = total % self.period_ms;
            true
        } else {
            proof {
                vstd::arithmetic::div_mod::lemma_small_mod(total as nat, self.period_ms as nat);
            }
            self.elapsed_ms = total;
            false
        }
    }
}

/// The movement-cadence gate: a 17 ms repeating gate, roughly one firing per
/// displayed frame.
#[derive(Clone, Copy, PartialEq, Eq, Structural, Debug)]
pub struct FrameTimer(pub TickGate);

impl Default for FrameTimer {
    fn default() -> (t: Self)
        ensures
            t.0 == (TickGate { period_ms: 17, elapsed_ms: 0 }),
            t.0.wf(),
    {
        FrameTimer(TickGate::new(17))
    }
}

/// The sprite-frame cadence gate: a 190 ms repeating gate.
#[derive(Clone, Copy, PartialEq, Eq, Structural, Debug)]
pub struct AnimationTimer(pub TickGate);

impl Default for AnimationTimer {
    fn default() -> (t: Self)
        ensures
            t.0 == (TickGate { period_ms: 190, elapsed_ms: 0 }),
            t.0.wf(),
    {
        AnimationTimer(TickGate::new(190))
    }
}

} // verus!
