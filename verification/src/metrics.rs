use vstd::prelude::*;

verus! {

/// Addition that wraps around at the machine word size, as a counter update
/// does.
pub open spec fn spec_wrap_add(a: int, b: int) -> int {
    if a + b <= usize::MAX {
        a + b
    } else {
        a + b - usize::MAX - 1
    }
}

/// A simple monotonically updated counter.
pub struct Counter {
    value: usize,
}

impl Counter {
    pub closed spec fn spec_value(&self) -> int {
        self.value as int
    }

    /// Create a new counter with an initial value.
    pub fn new(initial_value: usize) -> (r: Counter)
        ensures
            r.spec_value() == initial_value,
    {
        Counter { value: initial_value }
    }

    /// Increment the counter by a specific amount, wrapping on overflow.
    pub fn increment(&mut self, amount: usize)
        ensures
            final(self).spec_value() == spec_wrap_add(old(self).spec_value(), amount as int),
    {
        if amount <= usize::MAX - self.value {
            self.value = self.value + amount;
        } else {
            self.value = amount - (usize::MAX - self.value) - 1;
        }
    }

    /// The current value of the counter.
    pub fn value(&self) -> (r: usize)
        ensures
            r == self.spec_value(),
    {
        self.value
    }
}

impl Default for Counter {
    /// A counter starting at zero.
    fn default() -> (r: Counter)
        ensures
            r.spec_value() == 0,
    {
        Counter::new(0)
    }
}

} // verus!
