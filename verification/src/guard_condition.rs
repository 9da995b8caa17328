//! The guard condition: a level-triggered, manually resettable readiness
//! latch. Multiple triggers before a reset collapse into one ready signal;
//! a ready wait cycle consumes (clears) it exactly once.

use vstd::prelude::*;

use crate::wait::WaitSetTrait;

verus! {

/// A level-triggered latch feeding the wait multiplexer. The broadcast on
/// the process-wide wait signal that accompanies a trigger happens outside
/// this library, under the same lock as the wait itself.
#[derive(Clone, Copy, PartialEq, Eq, Structural, Debug)]
pub struct GuardCondition {
    pub triggered: bool,
}

impl GuardCondition {
    /// A fresh guard condition, not triggered.
    pub fn new() -> (g: GuardCondition)
        ensures
            !g.triggered,
    {
        GuardCondition { triggered: false }
    }

    /// Sets the latch; it stays set until a ready wait cycle consumes it.
    pub fn trigger(&mut self)
        ensures
            final(self).triggered,
    {
        self.triggered = true;
    }
}

impl WaitSetTrait for GuardCondition {
    open spec fn spec_is_empty(&self) -> bool {
        !self.triggered
    }

    open spec fn spec_consumed(&self) -> GuardCondition {
        GuardCondition { triggered: false }
    }

    fn is_empty(&self) -> (r: bool) {
        !self.triggered
    }

    fn cleanup(&mut self) {
        self.triggered = false;
    }
}

} // verus!
