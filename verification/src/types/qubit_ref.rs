//! Qubit references and their generator.

use crate::error::{inv_arg, Error, Result};
use crate::text::{decimal, string_from_chars, u64_to_decimal};
use vstd::prelude::*;

verus! {

/// Represents a reference to a qubit. The value 0 is the null reference.
#[derive(Debug, Clone, Copy, PartialEq, Eq, Structural, Hash)]
pub struct QubitRef(pub u64);

impl QubitRef {
    /// Returns a null qubit reference.
    pub fn null() -> (q: QubitRef)
        ensures
            q.0 == 0,
    {
        QubitRef(0)
    }

    /// Returns whether this reference is null.
    pub fn is_null(self) -> (b: bool)
        ensures
            b == (self.0 == 0),
    {
        self.0 == 0
    }

    /// Converts the foreign representation of a qubit reference (0 meaning
    /// no qubit) to the type-safe representation.
    pub fn from_foreign(qubit: u64) -> (q: Option<QubitRef>)
        ensures
            qubit == 0 ==> q is None,
            qubit != 0 ==> q == Some(QubitRef(qubit)),
    {
        if qubit == 0 {
            None
        } else {
            Some(QubitRef(qubit))
        }
    }

    /// The message for a use of the null reference.
    pub open spec fn msg_null_qubit() -> Seq<char> {
        "making use of null qubit reference"@
    }

    /// Converts a qubit reference to its foreign representation; fails for
    /// the null reference.
    pub fn to_foreign(self) -> (r: Result<u64>)
        ensures
            self.0 == 0 ==> r is Err && r->Err_0 is InvalidArgument && r->Err_0->InvalidArgument_0@
                == Self::msg_null_qubit(),
            self.0 != 0 ==> r == Ok::<u64, Error>(self.0),
    {
        if self.is_null() {
            Err(inv_arg("making use of null qubit reference"))
        } else {
            Ok(self.0)
        }
    }

    /// Converts an optional qubit reference to its foreign representation,
    /// with 0 for `None`; fails for the null reference.
    pub fn option_to_foreign(qubit: Option<QubitRef>) -> (r: Result<u64>)
        ensures
            qubit is None ==> r == Ok::<u64, Error>(0),
            qubit is Some && (qubit->0).0 == 0 ==> r is Err && r->Err_0 is InvalidArgument
                && r->Err_0->InvalidArgument_0@ == Self::msg_null_qubit(),
            qubit is Some && (qubit->0).0 != 0 ==> r == Ok::<u64, Error>((qubit->0).0),
    {
        if let Some(x) = qubit {
            x.to_foreign()
        } else {
            Ok(0)
        }
    }

    /// The decimal representation of the reference.
    pub fn to_string(self) -> (s: String)
        ensures
            s@ == decimal(self.0 as nat),
    {
        string_from_chars(&u64_to_decimal(self.0))
    }
}

impl From<QubitRef> for String {
    /// The decimal representation of the reference.
    fn from(q: QubitRef) -> (s: String)
        ensures
            s@ == decimal(q.0 as nat),
    {
        q.to_string()
    }
}

impl vstd::std_specs::convert::FromSpecImpl<QubitRef> for String {
    /// Two strings with the same characters need not be the same value to
    /// Verus, so conversions are described by `from`'s own postcondition.
    open spec fn obeys_from_spec() -> bool {
        false
    }

    open spec fn from_spec(q: QubitRef) -> String {
        choose|s: String| s@ == decimal(q.0 as nat)
    }
}

/// Generates fresh qubit references. References start at 1 and count up;
/// freed references are never reused.
#[derive(Debug)]
pub struct QubitRefGenerator {
    next: u64,
}

impl View for QubitRefGenerator {
    type V = nat;

    /// The reference the next allocation starts at.
    closed spec fn view(&self) -> nat {
        self.next as nat
    }
}

impl Default for QubitRefGenerator {
    fn default() -> (g: QubitRefGenerator)
        ensures
            g@ == 1,
    {
        QubitRefGenerator::new()
    }
}

impl QubitRefGenerator {
    /// Constructs a new reference generator.
    pub fn new() -> (g: QubitRefGenerator)
        ensures
            g@ == 1,
    {
        QubitRefGenerator { next: 1 }
    }

    /// Allocates `num_qubits` consecutive references, starting with the
    /// lowest one not handed out before.
    pub fn allocate(&mut self, num_qubits: usize) -> (refs: Vec<QubitRef>)
        requires
            old(self)@ + num_qubits <= u64::MAX,
        ensures
            final(self)@ == old(self)@ + num_qubits,
            refs@.len() == num_qubits,
            forall|i: int| 0 <= i < num_qubits ==> #[trigger] refs@[i].0 == old(self)@ + i,
    {
        let mut refs: Vec<QubitRef> = Vec::new();
        let mut i: usize = 0;
        while i < num_qubits
            invariant
                i <= num_qubits,
                self.next == old(self)@ + i,
                old(self)@ + num_qubits <= u64::MAX,
                refs@.len() == i,
                forall|j: int| 0 <= j < i ==> #[trigger] refs@[j].0 == old(self)@ + j,
            decreases num_qubits - i,
        {
            refs.push(QubitRef(self.next));
            self.next = self.next + 1;
            i = i + 1;
        }
        refs
    }

    /// Frees qubit references. References are never reused, so this does
    /// not change the generator.
    pub fn free(&mut self, qubits: Vec<QubitRef>)
        ensures
            final(self)@ == old(self)@,
            *final(self) == *old(self),
    {
    }
}

/// A generator never hands out the null reference, and two successive
/// allocations from the same generator never share a reference.
pub proof fn lemma_allocations_fresh(
    start: nat,
    first: Seq<QubitRef>,
    second: Seq<QubitRef>,
    n1: nat,
    n2: nat,
)
    requires
        start >= 1,
        first.len() == n1,
        second.len() == n2,
        forall|i: int| 0 <= i < n1 ==> #[trigger] first[i].0 == start + i,
        forall|i: int| 0 <= i < n2 ==> #[trigger] second[i].0 == start + n1 + i,
    ensures
        forall|i: int| 0 <= i < n1 ==> #[trigger] first[i].0 != 0,
        forall|i: int, j: int|
            0 <= i < n1 && 0 <= j < n2 ==> #[trigger] first[i] != #[trigger] second[j],
{
    assert forall|i: int, j: int| 0 <= i < n1 && 0 <= j < n2 implies #[trigger] first[i]
        != #[trigger] second[j] by {
        assert(first[i].0 == start + i);
        assert(second[j].0 == start + n1 + j);
    }
}

} // verus!
