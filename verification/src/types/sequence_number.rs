//! Sequence numbers used within a gate stream, and their generator.

use crate::text::{decimal, string_from_chars, u64_to_decimal};
use vstd::prelude::*;

verus! {

/// Represents a sequence number used within a gate stream. The value 0 means
/// that nothing has been transferred yet.
#[derive(Debug, Clone, Copy, PartialEq, Eq, Structural, Hash)]
pub struct SequenceNumber(pub u64);

impl SequenceNumber {
    /// Whether receiving this number acknowledges `other`.
    pub open spec fn acks(self, other: SequenceNumber) -> bool {
        self.0 >= other.0
    }

    /// Whether this number comes after `other`.
    pub open spec fn comes_after(self, other: SequenceNumber) -> bool {
        self.0 > other.0
    }

    /// The number before this one; `none()` is its own predecessor.
    pub open spec fn predecessor(self) -> SequenceNumber {
        if self.0 == 0 {
            SequenceNumber(0)
        } else {
            SequenceNumber((self.0 - 1) as u64)
        }
    }

    /// Returns true if receiving this sequence number in a `Success` message
    /// acknowledges the given other sequence number.
    pub fn acknowledges(self, other: SequenceNumber) -> (b: bool)
        ensures
            b == self.acks(other),
    {
        self.0 >= other.0
    }

    /// Returns true if this sequence number comes after the given sequence
    /// number. Every sequence number comes after `SequenceNumber::none()`,
    /// except for `SequenceNumber::none()` which never comes after anything.
    pub fn after(self, other: SequenceNumber) -> (b: bool)
        ensures
            b == self.comes_after(other),
    {
        self.0 > other.0
    }

    /// Returns the sequence number that comes before this one; `none()` is
    /// its own predecessor.
    pub fn preceding(self) -> (p: SequenceNumber)
        ensures
            p == self.predecessor(),
    {
        if self.0 == 0 {
            SequenceNumber(0)
        } else {
            SequenceNumber(self.0 - 1)
        }
    }

    /// "None" value for sequence numbers, used to indicate that nothing has
    /// been transferred yet.
    pub fn none() -> (s: SequenceNumber)
        ensures
            s.0 == 0,
    {
        SequenceNumber(0)
    }

    /// The decimal representation of the sequence number.
    pub fn to_string(self) -> (s: String)
        ensures
            s@ == decimal(self.0 as nat),
    {
        string_from_chars(&u64_to_decimal(self.0))
    }
}

/// Every sequence number comes after `none()` except `none()` itself;
/// `none()` comes after nothing; coming after implies acknowledging; and
/// every number other than `none()` comes after its predecessor, which it
/// acknowledges.
pub proof fn lemma_sequence_order(s: SequenceNumber, t: SequenceNumber)
    ensures
        s.comes_after(SequenceNumber(0)) <==> s != SequenceNumber(0),
        !SequenceNumber(0).comes_after(t),
        s.comes_after(t) ==> s.acks(t),
        s.acks(s.predecessor()),
        s != SequenceNumber(0) ==> s.comes_after(s.predecessor()),
{
}

/// Each number a generator hands out comes after every number it handed out
/// before: the numbers `g + 1` and `g + 1 + k` for `k > 0`.
pub proof fn lemma_generator_increasing(first: SequenceNumber, later: SequenceNumber, k: nat)
    requires
        k > 0,
        later.0 == first.0 + k,
    ensures
        later.comes_after(first),
        later.acks(first),
        !first.comes_after(later),
{
}

/// Generates sequence numbers. They start at 1 and count up by one; the
/// generator remembers the number it handed out last, `none()` before the
/// first.
#[derive(Debug)]
pub struct SequenceNumberGenerator {
    previous: SequenceNumber,
}

impl View for SequenceNumberGenerator {
    type V = nat;

    /// The number handed out last.
    closed spec fn view(&self) -> nat {
        self.previous.0 as nat
    }
}

impl Default for SequenceNumberGenerator {
    fn default() -> (g: SequenceNumberGenerator)
        ensures
            g@ == 0,
    {
        SequenceNumberGenerator::new()
    }
}

impl SequenceNumberGenerator {
    /// Constructs a new sequence number generator.
    pub fn new() -> (g: SequenceNumberGenerator)
        ensures
            g@ == 0,
    {
        SequenceNumberGenerator { previous: SequenceNumber(0) }
    }

    /// Acquires the next sequence number: the one after the previous.
    pub fn get_next(&mut self) -> (s: SequenceNumber)
        requires
            old(self)@ < u64::MAX,
        ensures
            s.0 == old(self)@ + 1,
            final(self)@ == s.0,
    {
        let next = SequenceNumber(self.previous.0 + 1);
        self.previous = next;
        next
    }

    /// Returns the previously acquired sequence number.
    pub fn get_previous(&self) -> (s: SequenceNumber)
        ensures
            s.0 == self@,
    {
        self.previous
    }
}

} // verus!
