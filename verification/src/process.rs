//! A process as the scheduler sees it: a stride and a priority.

use vstd::prelude::*;

verus! {

/// The stride that a process of priority 1 gains each time it is
/// dispatched. A process of priority `p` gains `BIG_STRIDE / p`.
pub const BIG_STRIDE: i64 = 0x1_0000_0000;

/// `total` brought into the range of `i64`: values beyond either end are
/// replaced by that end.
pub open spec fn clamped(total: int) -> i64 {
    if total > i64::MAX {
        i64::MAX
    } else if total < i64::MIN {
        i64::MIN
    } else {
        total as i64
    }
}

/// `i64::saturating_add` of std computes `x + y` and, where the sum does
/// not fit, returns the bound of `i64` on the side of the overflow.
pub assume_specification[ <i64>::saturating_add ](x: i64, y: i64) -> (sum: i64)
    ensures
        sum == clamped(x + y),
;

/// The scheduler's record of one process.
#[derive(Clone, Copy, Debug, PartialEq, Eq)]
pub struct Process {
    /// Virtual time the process has consumed so far.
    pub stride: i64,
    /// Share of the processor the process is entitled to. It must be
    /// positive for the process to be dispatched.
    pub priority: i64,
}

impl Process {
    /// Whether the process has a priority that a stride step can be
    /// computed from.
    pub open spec fn has_step(self) -> bool {
        self.priority >= 1
    }

    /// The stride that one dispatch adds.
    pub open spec fn step(self) -> int {
        BIG_STRIDE as int / self.priority as int
    }

    /// The process after one dispatch: its stride has grown by its step,
    /// and stays at the top of the range once it has reached it.
    pub open spec fn dispatched(self) -> Process {
        Process { stride: clamped(self.stride + self.step()), ..self }
    }

    /// The process after `times` dispatches.
    pub open spec fn dispatched_times(self, times: nat) -> Process
        decreases times,
    {
        if times == 0 {
            self
        } else {
            self.dispatched_times((times - 1) as nat).dispatched()
        }
    }

    /// The step of a process of positive priority lies between zero and
    /// `BIG_STRIDE`, and is at least one while the priority does not exceed
    /// `BIG_STRIDE`.
    pub proof fn lemma_step_bounds(self)
        requires
            self.has_step(),
        ensures
            0 <= self.step() <= BIG_STRIDE,
            self.priority <= BIG_STRIDE ==> self.step() >= 1,
    {
        assert(0 <= BIG_STRIDE as int / self.priority as int <= BIG_STRIDE) by (nonlinear_arith)
            requires
                self.priority >= 1,
                BIG_STRIDE >= 0,
        ;
        if self.priority <= BIG_STRIDE {
            assert(1 <= BIG_STRIDE as int / self.priority as int) by (nonlinear_arith)
                requires
                    1 <= self.priority <= BIG_STRIDE,
            ;
        }
    }

    /// A process of the given priority that has not run yet.
    pub fn new(priority: i64) -> (process: Self)
        ensures
            process == (Process { stride: 0, priority }),
    {
        Process { stride: 0, priority }
    }

    /// The stride that one dispatch adds to this process.
    pub fn stride_step(&self) -> (step: i64)
        requires
            self.has_step(),
        ensures
            step == self.step(),
            0 <= step <= BIG_STRIDE,
    {
        proof {
            self.lemma_step_bounds();
        }
        BIG_STRIDE / self.priority
    }

    /// Accounts for one dispatch of this process.
    pub fn dispatch(&mut self)
        requires
            old(self).has_step(),
        ensures
            *final(self) == old(self).dispatched(),
    {
        let step = self.stride_step();
        self.stride = self.stride.saturating_add(step);
    }

    /// One dispatch adds exactly the step, and so raises the stride, as
    /// long as the step is not zero and the sum still fits.
    pub proof fn lemma_dispatch_raises_stride(self)
        requires
            1 <= self.priority <= BIG_STRIDE,
            self.stride + self.step() <= i64::MAX,
        ensures
            self.dispatched().stride == self.stride + BIG_STRIDE as int / self.priority as int,
            self.dispatched().stride > self.stride,
            self.dispatched().priority == self.priority,
    {
        self.lemma_step_bounds();
    }

    /// A dispatch never lowers the stride: at the top of the range it stays
    /// where it is instead of wrapping round.
    pub proof fn lemma_dispatch_never_lowers_stride(self)
        requires
            self.has_step(),
        ensures
            self.dispatched().stride >= self.stride,
            self.stride + self.step() >= i64::MAX ==> self.dispatched().stride == i64::MAX,
    {
        self.lemma_step_bounds();
    }

    /// After any number of dispatches the stride is the sum of the first
    /// stride and that many steps, or the top of the range where the sum
    /// lies beyond it.
    pub proof fn lemma_dispatched_times(self, times: nat)
        requires
            self.has_step(),
        ensures
            self.dispatched_times(times).priority == self.priority,
            self.dispatched_times(times).stride == clamped(self.stride + times * self.step()),
        decreases times,
    {
        self.lemma_step_bounds();
        if times > 0 {
            let before = (times - 1) as nat;
            let earlier = self.dispatched_times(before);
            self.lemma_dispatched_times(before);
            assert(earlier.step() == self.step());
            assert(self.dispatched_times(times) == earlier.dispatched());
            assert(times * self.step() == before * self.step() + self.step())
                by (nonlinear_arith)
                requires
                    before == times - 1,
            ;
            assert(before * self.step() >= 0) by (nonlinear_arith)
                requires
                    self.step() >= 0,
            ;
        } else {
            assert(times * self.step() == 0) by (nonlinear_arith)
                requires
                    times == 0,
            ;
        }
    }

    /// A process of priority 1 that starts from a stride that is not
    /// negative has reached the top of the range, and not wrapped round,
    /// after `BIG_STRIDE + 1` dispatches.
    pub proof fn lemma_stride_saturates(self)
        requires
            self.priority == 1,
            self.stride >= 0,
        ensures
            self.dispatched_times((BIG_STRIDE + 1) as nat).stride == i64::MAX,
    {
        self.lemma_dispatched_times((BIG_STRIDE + 1) as nat);
        assert((BIG_STRIDE + 1) * BIG_STRIDE > i64::MAX) by (nonlinear_arith)
            requires
                BIG_STRIDE == 0x1_0000_0000,
        ;
    }
}

} // verus!
