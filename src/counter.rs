use vstd::prelude::*;

verus! {

/// The number of requests handled so far. It only ever grows, by one per
/// completed request.
pub struct RequestCounter {
    count: u64,
}

impl View for RequestCounter {
    type V = nat;

    closed spec fn view(&self) -> nat {
        self.count as nat
    }
}

/// The value of a counter that stood at `v` after `m` increments.
pub open spec fn after_increments(v: nat, m: nat) -> nat
    decreases m,
{
    if m == 0 {
        v
    } else {
        after_increments(v, (m - 1) as nat) + 1
    }
}

/// No lost updates: `m` increments raise the value by exactly `m`, so the
/// value never decreases.
pub proof fn lemma_counter_accumulates(v: nat, m: nat)
    ensures
        after_increments(v, m) == v + m,
        after_increments(v, m) >= v,
    decreases m,
{
    if m > 0 {
        lemma_counter_accumulates(v, (m - 1) as nat);
    }
}

impl RequestCounter {
    pub fn new() -> (r: RequestCounter)
        ensures
            r@ == 0,
    {
        RequestCounter { count: 0 }
    }

    /// Adds one.
    pub fn increment(&mut self)
        requires
            old(self)@ < u64::MAX,
        ensures
            final(self)@ == old(self)@ + 1,
    {
        self.count = self.count + 1;
    }

    /// Whether one more increment still fits in 64 bits.
    pub fn can_increment(&self) -> (r: bool)
        ensures
            r == (self@ < u64::MAX),
    {
        self.count < u64::MAX
    }

    pub fn value(&self) -> (r: u64)
        ensures
            r == self@,
    {
        self.count
    }
}

} // verus!
