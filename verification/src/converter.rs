//! Conversions between values and the binary strings of an `ArbData`, and
//! the converter interfaces built on them.

use crate::error::{inv_arg, Error, Result};
use crate::types::arb_data::ArbData;
use vstd::bytes::{spec_u64_from_le_bytes, spec_u64_to_le_bytes, u64_from_le_bytes, u64_to_le_bytes};
use vstd::prelude::*;

verus! {

/// A type that can be constructed from (part of) an `ArbData`; what the
/// construction does not consume stays in the `ArbData`.
pub trait FromArb: Sized {
    /// Constructs from the given `ArbData`, taking the parameters used out
    /// of it.
    fn from_arb(src: &mut ArbData) -> Result<Self>;
}

/// A type that can be turned into (part of) an `ArbData`. Adding values
/// with `ToArb` makes them come back with `FromArb` in the reverse order.
pub trait ToArb {
    /// Adds this value's parameters to the `ArbData`.
    fn to_arb(self, dest: &mut ArbData);
}

impl FromArb for () {
    /// Takes nothing.
    fn from_arb(src: &mut ArbData) -> (r: Result<()>)
        ensures
            r is Ok,
            final(src)@ == old(src)@,
    {
        Ok(())
    }
}

impl ToArb for () {
    /// Adds nothing.
    fn to_arb(self, dest: &mut ArbData)
        ensures
            final(dest)@ == old(dest)@,
    {
    }
}

/// The message for a missing or malformed 64-bit integer argument.
pub open spec fn msg_expected_u64() -> Seq<char> {
    "expected 64-bit integer argument in ArbData"@
}

impl FromArb for u64 {
    /// Takes the first binary string, which must hold 8 bytes: the number in
    /// little-endian order.
    fn from_arb(src: &mut ArbData) -> (r: Result<u64>)
        ensures
            old(src)@.1.len() == 0 ==> r is Err && r->Err_0 is InvalidArgument && r->Err_0->InvalidArgument_0@
                == msg_expected_u64() && final(src)@ == old(src)@,
            old(src)@.1.len() > 0 ==> final(src)@ == (old(src)@.0, old(src)@.1.drop_first()),
            old(src)@.1.len() > 0 && old(src)@.1[0].len() == 8 ==> r == Ok::<u64, Error>(
                spec_u64_from_le_bytes(old(src)@.1[0]),
            ),
            old(src)@.1.len() > 0 && old(src)@.1[0].len() != 8 ==> r is Err && r->Err_0 is InvalidArgument
                && r->Err_0->InvalidArgument_0@ == msg_expected_u64(),
    {
        let args = src.get_args_mut();
        if args.len() == 0 {
            return Err(inv_arg("expected 64-bit integer argument in ArbData"));
        }
        let ghost before = args@;
        let first = args.remove(0);
        assert(crate::cbor::views(args@) =~= crate::cbor::views(before).drop_first());
        assert(first@ == crate::cbor::views(before)[0]);
        if first.len() != 8 {
            return Err(inv_arg("expected 64-bit integer argument in ArbData"));
        }
        Ok(u64_from_le_bytes(first.as_slice()))
    }
}

impl ToArb for u64 {
    /// Inserts the number, as 8 bytes in little-endian order, as the first
    /// binary string.
    fn to_arb(self, dest: &mut ArbData)
        ensures
            final(dest)@ == (old(dest)@.0, seq![spec_u64_to_le_bytes(self)] + old(dest)@.1),
    {
        let bytes = u64_to_le_bytes(self);
        let args = dest.get_args_mut();
        let ghost before = args@;
        args.insert(0, bytes);
        assert(crate::cbor::views(args@) =~= seq![spec_u64_to_le_bytes(self)] + crate::cbor::views(
            before,
        ));
    }
}

/// What `to_arb` adds for a number, `from_arb` takes back: the first binary
/// string is then 8 bytes long and reads as the number, and taking it leaves
/// the binary strings that were there before.
pub proof fn lemma_u64_arb_roundtrip(x: u64, args: Seq<Seq<u8>>)
    ensures
        (seq![spec_u64_to_le_bytes(x)] + args).len() > 0,
        (seq![spec_u64_to_le_bytes(x)] + args)[0].len() == 8,
        spec_u64_from_le_bytes((seq![spec_u64_to_le_bytes(x)] + args)[0]) == x,
        (seq![spec_u64_to_le_bytes(x)] + args).drop_first() == args,
{
    vstd::bytes::lemma_auto_spec_u64_to_from_le_bytes();
    assert(spec_u64_to_le_bytes(x).len() == 8);
    assert((seq![spec_u64_to_le_bytes(x)] + args).drop_first() =~= args);
}

/// A type that detects more specific outputs among more generic inputs, and
/// constructs inputs back from outputs.
pub trait Converter {
    /// The more generic detector input type = constructor output type.
    type Input;
    /// The more specific detector output type = constructor input type.
    type Output;

    /// Detects whether the input is an instance of the output type:
    /// `Ok(Some(..))` on a match, `Ok(None)` when it is not one.
    fn detect(&self, input: &Self::Input) -> Result<Option<Self::Output>>;

    /// Constructs the generic input from the specific output.
    fn construct(&self, input: &Self::Output) -> Result<Self::Input>;
}

/// Matrix converter for any matrix of a given size, or of any size.
pub struct UMatrixConverter {
    /// The number of qubits the matrix should have, if that matters.
    pub num_qubits: Option<usize>,
}

impl UMatrixConverter {
    /// Constructs the converter.
    pub fn new(num_qubits: Option<usize>) -> (c: UMatrixConverter)
        ensures
            c.num_qubits == num_qubits,
    {
        UMatrixConverter { num_qubits }
    }
}

/// Converter for measurement gates.
pub struct MeasurementGateConverter {
    /// The number of measured qubits expected, if that matters.
    pub num_measures: Option<usize>,
}

impl MeasurementGateConverter {
    /// Constructs the converter.
    pub fn new(num_measures: Option<usize>) -> (c: MeasurementGateConverter)
        ensures
            c.num_measures == num_measures,
    {
        MeasurementGateConverter { num_measures }
    }
}

} // verus!
