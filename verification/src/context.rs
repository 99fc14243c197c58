//! The simulation context: the state the loader under test observes and
//! mutates during one invocation.
//!
//! It carries the fault budget (a countdown of flash operations left before a
//! forced interruption emulating power loss), whether that interruption has
//! fired, the tally of intercepted assertion failures, and whether assertion
//! failures are intercepted at all.

use vstd::prelude::*;

verus! {

/// Per-invocation mutable state, built fresh by each invocation.
pub struct SimContext {
    /// A fault budget was supplied; without one the run is unlimited.
    pub budget_active: bool,
    /// Flash operations left before the forced interruption fires.
    pub remaining: i32,
    /// The forced interruption fired during this call.
    pub interrupted: bool,
    /// Assertion failures observed so far.
    pub assert_count: u8,
    /// Tally assertion failures and keep running instead of treating the
    /// first one as fatal.
    pub catch_asserts: bool,
}

impl SimContext {
    /// An active budget never goes negative, and an interruption only fires
    /// on an exhausted budget.
    pub open spec fn wf(&self) -> bool {
        &&& self.budget_active ==> self.remaining >= 0
        &&& self.interrupted ==> self.budget_active && self.remaining == 0
    }

    /// A context for one invocation: `budget` flash operations may run before
    /// the forced interruption, or any number if no budget is given.
    pub fn new(budget: Option<i32>, catch_asserts: bool) -> (r: SimContext)
        requires
            budget matches Some(b) ==> b >= 0,
        ensures
            r.wf(),
            r.budget_active == (budget is Some),
            r.remaining == (match budget {
                Some(b) => b,
                None => 0,
            }),
            !r.interrupted,
            r.assert_count == 0,
            r.catch_asserts == catch_asserts,
    {
        SimContext {
            budget_active: budget.is_some(),
            remaining: match budget {
                Some(b) => b,
                None => 0,
            },
            interrupted: false,
            assert_count: 0,
            catch_asserts,
        }
    }

    /// Account one flash write or erase operation.  With budget left (or no
    /// budget at all) the operation may proceed; on an exhausted budget the
    /// forced interruption fires instead and the operation must be abandoned.
    pub fn note_flash_op(&mut self) -> (proceed: bool)
        requires
            old(self).wf(),
            !old(self).interrupted,
        ensures
            final(self).wf(),
            proceed == !(old(self).budget_active && old(self).remaining == 0),
            final(self).budget_active == old(self).budget_active,
            final(self).assert_count == old(self).assert_count,
            final(self).catch_asserts == old(self).catch_asserts,
            final(self).interrupted == !proceed,
            final(self).remaining == (if old(self).budget_active && proceed {
                old(self).remaining - 1
            } else {
                old(self).remaining as int
            }),
    {
        if self.budget_active {
            if self.remaining == 0 {
                self.interrupted = true;
                return false;
            }
            self.remaining = self.remaining - 1;
        }
        true
    }

    /// Record one intercepted assertion failure.
    pub fn note_assert(&mut self)
        requires
            old(self).wf(),
            old(self).assert_count < 255,
        ensures
            final(self).wf(),
            *final(self) == (SimContext { assert_count: (old(self).assert_count + 1) as u8, ..*old(self) }),
    {
        self.assert_count = self.assert_count + 1;
    }
}

} // verus!
