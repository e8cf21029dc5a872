//! The monotonic counter exposed to scripts and the periodically
//! drained request meter behind the metrics reporter.

use vstd::prelude::*;

verus! {

/// A monotonic counter. Each call to [`Counter::next`] hands out the
/// current value and raises the counter by one, so a fresh counter
/// hands out 0, 1, 2, ... in order.
pub struct Counter {
    value: u64,
}

impl View for Counter {
    type V = nat;

    closed spec fn view(&self) -> nat {
        self.value as nat
    }
}

impl Counter {
    pub fn new() -> (c: Counter)
        ensures
            c@ == 0,
    {
        Counter { value: 0 }
    }

    /// The current value: what the next call would return.
    pub fn peek(&self) -> (r: u64)
        ensures
            r as nat == self@,
    {
        self.value
    }

    /// Return the pre-increment value and raise the counter by one.
    pub fn next(&mut self) -> (r: u64)
        requires
            old(self)@ < u64::MAX,
        ensures
            r as nat == old(self)@,
            final(self)@ == old(self)@ + 1,
    {
        let r = self.value;
        self.value = self.value + 1;
        r
    }
}

/// The counter value after `calls` calls to [`Counter::next`] on a
/// fresh counter: each call raises the value by exactly one.
pub open spec fn counter_value_after(calls: nat) -> nat
    decreases calls,
{
    if calls == 0 {
        0
    } else {
        counter_value_after((calls - 1) as nat) + 1
    }
}

/// On a fresh counter, call number `i` (counting from zero) returns
/// exactly `i`: the value starts at zero, each call returns the value
/// it found and raises it by one, so the calls return 0, 1, ..., N-1.
pub proof fn lemma_counter_sequence(i: nat)
    ensures
        counter_value_after(i) == i,
    decreases i,
{
    if i > 0 {
        lemma_counter_sequence((i - 1) as nat);
    }
}

/// The request meter the metrics reporter drains once a period. One
/// completed request is recorded at a time; draining returns the count
/// accumulated since the previous drain and resets it to zero.
pub struct RequestMeter {
    count: u64,
}

impl View for RequestMeter {
    type V = nat;

    closed spec fn view(&self) -> nat {
        self.count as nat
    }
}

impl RequestMeter {
    pub fn new() -> (m: RequestMeter)
        ensures
            m@ == 0,
    {
        RequestMeter { count: 0 }
    }

    /// Record one completed request, wrapping around at the machine
    /// limit as a hardware counter would.
    pub fn record(&mut self)
        ensures
            final(self)@ == if old(self)@ == u64::MAX as nat {
                0nat
            } else {
                old(self)@ + 1
            },
    {
        if self.count == u64::MAX {
            self.count = 0;
        } else {
            self.count = self.count + 1;
        }
    }

    /// Read and reset in one step: returns the count accumulated since
    /// the previous drain and leaves the meter at zero.
    pub fn drain(&mut self) -> (r: u64)
        ensures
            r as nat == old(self)@,
            final(self)@ == 0,
    {
        let r = self.count;
        self.count = 0;
        r
    }
}

} // verus!
