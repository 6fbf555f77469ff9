//! Simulation cycle counter.

use crate::text::{i64_to_decimal, signed_decimal, string_from_chars};
use std::ops::{Add, Sub};
use vstd::prelude::*;
use vstd::std_specs::ops::{AddSpec, SubSpec};

verus! {

/// Represents a cycle difference.
pub type CycleDelta = i64;

/// Represents a number of cycles to advance by.
pub type Cycles = u64;

/// Represents a simulation cycle. Cycles reached by the operations below are
/// never negative.
#[derive(Debug, Clone, Copy, PartialEq, Eq, Structural, Hash)]
pub struct Cycle(pub i64);

/// Whether `c + delta` is a valid cycle: it fits in an `i64` and is not
/// negative.
pub open spec fn valid_cycle_value(v: int) -> bool {
    0 <= v <= i64::MAX
}

impl Cycle {
    /// The cycle `cycles` cycles after this one.
    pub open spec fn advanced(self, cycles: nat) -> Cycle {
        Cycle((self.0 + cycles) as i64)
    }

    /// Returns the first simulation cycle.
    pub fn t_zero() -> (c: Cycle)
        ensures
            c.0 == 0,
    {
        Cycle(0)
    }

    /// Advances by the specified number of cycles. The count may not exceed
    /// `i64::MAX`, and the sum must fit in an `i64`.
    pub fn advance(self, cycles: Cycles) -> (c: Cycle)
        requires
            cycles <= i64::MAX,
            self.0 + cycles <= i64::MAX,
        ensures
            c == self.advanced(cycles as nat),
    {
        Cycle(self.0 + cycles as i64)
    }

    /// Converts a non-negative cycle to an unsigned cycle count.
    pub fn to_u64(self) -> (v: u64)
        requires
            self.0 >= 0,
        ensures
            v == self.0,
    {
        self.0 as u64
    }

    /// The decimal representation of the cycle.
    pub fn to_string(self) -> (s: String)
        ensures
            s@ == signed_decimal(self.0 as int),
    {
        string_from_chars(&i64_to_decimal(self.0))
    }
}

impl Add<CycleDelta> for Cycle {
    type Output = Cycle;

    /// Advances by a (possibly negative) number of cycles.
    fn add(self, other: CycleDelta) -> (c: Cycle) {
        Cycle(self.0 + other)
    }
}

impl vstd::std_specs::ops::AddSpecImpl<CycleDelta> for Cycle {
    open spec fn obeys_add_spec() -> bool {
        true
    }

    open spec fn add_req(self, rhs: CycleDelta) -> bool {
        valid_cycle_value(self.0 + rhs)
    }

    open spec fn add_spec(self, rhs: CycleDelta) -> Cycle {
        Cycle((self.0 + rhs) as i64)
    }
}

impl Sub<CycleDelta> for Cycle {
    type Output = Cycle;

    /// Reverts by a (possibly negative) number of cycles.
    fn sub(self, other: CycleDelta) -> (c: Cycle) {
        Cycle(self.0 - other)
    }
}

impl vstd::std_specs::ops::SubSpecImpl<CycleDelta> for Cycle {
    open spec fn obeys_sub_spec() -> bool {
        true
    }

    open spec fn sub_req(self, rhs: CycleDelta) -> bool {
        valid_cycle_value(self.0 - rhs)
    }

    open spec fn sub_spec(self, rhs: CycleDelta) -> Cycle {
        Cycle((self.0 - rhs) as i64)
    }
}

impl Sub<Cycle> for Cycle {
    type Output = CycleDelta;

    /// The number of cycles between two cycles.
    fn sub(self, other: Cycle) -> (d: CycleDelta) {
        self.0 - other.0
    }
}

impl vstd::std_specs::ops::SubSpecImpl<Cycle> for Cycle {
    open spec fn obeys_sub_spec() -> bool {
        true
    }

    open spec fn sub_req(self, rhs: Cycle) -> bool {
        i64::MIN <= self.0 - rhs.0 <= i64::MAX
    }

    open spec fn sub_spec(self, rhs: Cycle) -> CycleDelta {
        (self.0 - rhs.0) as i64
    }
}

impl From<Cycle> for i64 {
    fn from(c: Cycle) -> (v: i64) {
        c.0
    }
}

impl vstd::std_specs::convert::FromSpecImpl<Cycle> for i64 {
    open spec fn obeys_from_spec() -> bool {
        true
    }

    open spec fn from_spec(c: Cycle) -> i64 {
        c.0
    }
}

/// Advancing twice is advancing once by the sum.
pub proof fn lemma_advance_compose(c: Cycle, a: nat, b: nat)
    requires
        c.0 + a + b <= i64::MAX,
    ensures
        c.advanced(a).advanced(b) == c.advanced(a + b),
{
}

/// Adding a delta and subtracting it again gives back the cycle, and the
/// difference between the two is the delta.
pub proof fn lemma_delta_roundtrip(c: Cycle, d: CycleDelta)
    requires
        valid_cycle_value(c.0 as int),
        c.add_req(d),
    ensures
        c.add_spec(d).sub_req(d),
        c.add_spec(d).sub_spec(d) == c,
        c.add_spec(d).sub_req(c),
        c.add_spec(d).sub_spec(c) == d,
{
}

} // verus!
