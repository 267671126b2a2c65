use vstd::prelude::*;

verus! {

/// Steps of spinning before a waiter is told to stop spinning.
pub const SPIN_LIMIT: u32 = 6;

/// Steps after which waiting is over.
pub const YIELD_LIMIT: u32 = 10;

/// Relies on `core::hint::spin_loop`: a hint to the processor, with no
/// effect on any value.
#[verifier::external_body]
fn spin_hint() {
    core::hint::spin_loop()
}

/// Exponential backoff for spinning waiters: each step spins twice as long as
/// the one before, up to `2^SPIN_LIMIT` iterations.
#[derive(Debug)]
pub struct Backoff {
    step: u32,
}

impl Backoff {
    /// The current step.
    pub closed spec fn spec_step(&self) -> u32 {
        self.step
    }

    /// A backoff at its first step.
    pub fn new() -> (r: Self)
        ensures
            r.spec_step() == 0,
    {
        Backoff { step: 0 }
    }

    /// Goes back to the first step.
    pub fn reset(&mut self)
        ensures
            final(self).spec_step() == 0,
    {
        self.step = 0;
    }

    /// Spins for `2^min(step, SPIN_LIMIT)` iterations, then moves to the next
    /// step; `false` once the spin limit has been passed.
    pub fn spin(&mut self) -> (r: bool)
        ensures
            r == (old(self).spec_step() <= SPIN_LIMIT),
            final(self).spec_step() == if r {
                old(self).spec_step() + 1
            } else {
                old(self).spec_step() as int
            },
    {
        let shift = if self.step < SPIN_LIMIT {
            self.step
        } else {
            SPIN_LIMIT
        };
        let rounds: u32 = 1u32 << shift;
        let mut i: u32 = 0;
        while i < rounds
            invariant
                i <= rounds,
            decreases rounds - i,
        {
            spin_hint();
            i = i + 1;
        }
        if self.step <= SPIN_LIMIT {
            self.step = self.step + 1;
            true
        } else {
            false
        }
    }

    /// Whether waiting is over.
    pub fn is_completed(&self) -> (r: bool)
        ensures
            r == (self.spec_step() > YIELD_LIMIT),
    {
        self.step > YIELD_LIMIT
    }
}

} // verus!
