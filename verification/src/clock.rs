//! The fixed time step: how many ticks a frame of a given length is owed.

use vstd::prelude::*;

verus! {

/// Time that has passed and is not yet made up for by ticks. All times are
/// whole numbers of one unit, such as nanoseconds.
#[derive(Clone, Copy, Debug, PartialEq, Eq, Structural)]
pub struct Accumulator {
    /// Length of a tick.
    pub step: u64,
    /// The most that is ever owed: what passes beyond it is forgotten.
    pub cap: u64,
    /// What is owed now.
    pub owed: u64,
}

/// What is owed once `elapsed` more has passed, before any tick is made.
pub open spec fn owed_after(owed: int, elapsed: int, cap: int) -> int {
    if owed + elapsed > cap {
        cap
    } else {
        owed + elapsed
    }
}

impl Accumulator {
    /// The tick has a length, and no more is owed than the cap allows.
    pub open spec fn wf(self) -> bool {
        self.step > 0 && self.owed <= self.cap
    }

    /// An accumulator to which nothing is owed; `None` for ticks without
    /// length.
    pub fn new(step: u64, cap: u64) -> (r: Option<Accumulator>)
        ensures
            r is Some <==> step > 0,
            r matches Some(a) ==> a == (Accumulator { step, cap, owed: 0 }) && a.wf(),
    {
        if step == 0 {
            None
        } else {
            Some(Accumulator { step, cap, owed: 0 })
        }
    }

    /// Takes note that `elapsed` has passed and says how many ticks are to be
    /// made now: as many whole ticks as fit into what is owed, which is at
    /// most the cap. What is left over stays owed.
    pub fn advance(&mut self, elapsed: u64) -> (ticks: u64)
        requires
            old(self).wf(),
        ensures
            final(self).wf(),
            final(self).step == old(self).step,
            final(self).cap == old(self).cap,
            ticks == owed_after(old(self).owed as int, elapsed as int, old(self).cap as int) / (
            old(self).step as int),
            final(self).owed == owed_after(
                old(self).owed as int,
                elapsed as int,
                old(self).cap as int,
            ) % (old(self).step as int),
            final(self).owed < old(self).step,
    {
        let total: u64 = if elapsed > self.cap - self.owed {
            self.cap
        } else {
            self.owed + elapsed
        };
        let ticks: u64 = total / self.step;
        self.owed = total % self.step;
        proof {
            let (t, s) = (total as int, self.step as int);
            assert(0 <= t % s < s && t % s <= t) by (nonlinear_arith)
                requires
                    t >= 0,
                    s > 0,
            ;
        }
        ticks
    }
}

} // verus!
