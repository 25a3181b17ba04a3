use vstd::prelude::*;

verus! {

/// A limit on how much data may be sent, and how much of it has been used.
#[derive(Debug)]
pub struct FlowControl {
    max: u64,
    used: u64,
}

impl View for FlowControl {
    /// The limit and the amount used.
    type V = (u64, u64);

    closed spec fn view(&self) -> (u64, u64) {
        (self.max, self.used)
    }
}

/// The smaller of two integers.
pub open spec fn spec_min(a: int, b: int) -> int {
    if a < b { a } else { b }
}

impl FlowControl {
    #[verifier::type_invariant]
    spec fn used_within_max(self) -> bool {
        self.used <= self.max
    }

    /// A flow control whose limit is zero.
    pub fn new() -> (r: Self)
        ensures
            r@ == (0u64, 0u64),
    {
        FlowControl { max: 0, used: 0 }
    }

    /// Takes up to `amount` from both flow controls at once: as much as both have remaining,
    /// returning the amount taken.
    pub fn take(first: &mut FlowControl, second: &mut FlowControl, amount: usize) -> (taken: usize)
        ensures
            taken == spec_min(amount as int, spec_min(old(first)@.0 - old(first)@.1, old(second)@.0 - old(second)@.1)),
            final(first)@ == (old(first)@.0, (old(first)@.1 + taken) as u64),
            final(second)@ == (old(second)@.0, (old(second)@.1 + taken) as u64),
            final(first)@.1 <= final(first)@.0,
            final(second)@.1 <= final(second)@.0,
    {
        let amount: u64 = amount as u64;
        let first_remaining = first.remaining();
        let second_remaining = second.remaining();
        let available = if first_remaining < second_remaining {
            first_remaining
        } else {
            second_remaining
        };
        let taken = if amount < available {
            amount
        } else {
            available
        };
        proof {
            use_type_invariant(&*first);
            use_type_invariant(&*second);
        }
        first.used = first.used + taken;
        second.used = second.used + taken;
        taken as usize
    }

    /// A flow control whose limit is `max`.
    pub fn with_initial_max(max: u64) -> (r: Self)
        ensures
            r@ == (max, 0u64),
    {
        Self { max, used: 0 }
    }

    /// Raises the limit to `max` when that is higher, returning whether it was raised.
    pub fn advance_max(&mut self, max: u64) -> (advanced: bool)
        ensures
            advanced == (max > old(self)@.0),
            final(self)@ == (if max > old(self)@.0 { max } else { old(self)@.0 }, old(self)@.1),
            final(self)@.1 <= final(self)@.0,
    {
        proof {
            use_type_invariant(&*self);
        }
        if max > self.max {
            self.max = max;
            true
        } else {
            false
        }
    }

    pub fn max(&self) -> (r: u64)
        ensures
            r == self@.0,
            self@.1 <= self@.0,
    {
        proof {
            use_type_invariant(self);
        }
        self.max
    }

    pub fn used(&self) -> (r: u64)
        ensures
            r == self@.1,
            self@.1 <= self@.0,
    {
        proof {
            use_type_invariant(self);
        }
        self.used
    }

    /// How much more may be used before the limit.
    pub fn remaining(&self) -> (r: u64)
        ensures
            self@.1 <= self@.0,
            r == self@.0 - self@.1,
    {
        proof {
            use_type_invariant(self);
        }
        self.max - self.used
    }
}

} // verus!
