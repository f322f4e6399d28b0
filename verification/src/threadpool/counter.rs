//! A counter with paired, explicitly released increment and decrement
//! guards, so that bookkeeping adjusted around a job can always be restored
//! on every exit path.

use vstd::prelude::*;

verus! {

/// Which adjustment a guard undoes when it is released.
#[derive(Clone, Copy, Debug, PartialEq, Eq, Structural)]
pub enum GuardOp {
    /// The guard undoes an increment.
    Decrement,
    /// The guard undoes a decrement.
    Increment,
}

/// A pending counter adjustment: releasing it undoes the operation that
/// created it. Deterministic destruction is deliberately not relied on —
/// the holder releases the guard on every exit path.
pub struct CounterOpGuard {
    /// The operation to perform on release.
    op: GuardOp,
}

impl CounterOpGuard {
    /// The operation the guard will perform.
    pub closed spec fn op_spec(&self) -> GuardOp {
        self.op
    }

    /// Applies the pending adjustment to the counter and consumes the
    /// guard.
    pub fn release(self, counter: &mut Counter)
        ensures
            final(counter)@ == (match self.op_spec() {
                GuardOp::Decrement => Counter::dec_spec(old(counter)@),
                GuardOp::Increment => Counter::inc_spec(old(counter)@),
            }),
    {
        match self.op {
            GuardOp::Decrement => counter.decrement(),
            GuardOp::Increment => counter.increment(),
        }
    }
}

/// A `usize` counter whose increments and decrements wrap at the type's
/// bounds, with guards that undo a temporary adjustment.
pub struct Counter {
    /// The counter value.
    value: usize,
}

impl Counter {
    /// The counter's value.
    pub closed spec fn view(&self) -> usize {
        self.value
    }

    /// The value after an increment: one more, wrapping at the top.
    pub open spec fn inc_spec(v: usize) -> usize {
        if v == usize::MAX {
            0
        } else {
            (v + 1) as usize
        }
    }

    /// The value after a decrement: one less, wrapping at the bottom.
    pub open spec fn dec_spec(v: usize) -> usize {
        if v == 0 {
            usize::MAX
        } else {
            (v - 1) as usize
        }
    }

    /// Creates a new counter.
    pub fn new(value: usize) -> (r: Self)
        ensures
            r@ == value,
    {
        Self { value }
    }

    /// The current counter value.
    pub fn get(&self) -> (r: usize)
        ensures
            r == self@,
    {
        self.value
    }

    /// Increments the counter by one, wrapping at the top.
    pub fn increment(&mut self)
        ensures
            final(self)@ == Self::inc_spec(old(self)@),
    {
        if self.value == usize::MAX {
            self.value = 0;
        } else {
            self.value = self.value + 1;
        }
    }

    /// Decrements the counter by one, wrapping at the bottom.
    pub fn decrement(&mut self)
        ensures
            final(self)@ == Self::dec_spec(old(self)@),
    {
        if self.value == 0 {
            self.value = usize::MAX;
        } else {
            self.value = self.value - 1;
        }
    }

    /// Increments the counter and hands back a guard whose release undoes
    /// the increment.
    pub fn increment_tmp(&mut self) -> (r: CounterOpGuard)
        ensures
            final(self)@ == Self::inc_spec(old(self)@),
            r.op_spec() == GuardOp::Decrement,
    {
        self.increment();
        CounterOpGuard { op: GuardOp::Decrement }
    }

    /// Decrements the counter and hands back a guard whose release undoes
    /// the decrement.
    pub fn decrement_tmp(&mut self) -> (r: CounterOpGuard)
        ensures
            final(self)@ == Self::dec_spec(old(self)@),
            r.op_spec() == GuardOp::Increment,
    {
        self.decrement();
        CounterOpGuard { op: GuardOp::Increment }
    }
}

/// A released guard restores the value its creation changed: a temporary
/// increment followed by its release is the identity, and so is a
/// temporary decrement.
pub proof fn lemma_guard_round_trip(v: usize)
    ensures
        Counter::dec_spec(Counter::inc_spec(v)) == v,
        Counter::inc_spec(Counter::dec_spec(v)) == v,
{
}

} // verus!
