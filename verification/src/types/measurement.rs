//! Qubit measurement values and results.

use crate::types::arb_data::ArbData;
use crate::types::qubit_ref::QubitRef;
use vstd::prelude::*;

verus! {

/// Represents the state of a single qubit measurement register.
#[derive(Debug, Clone, Copy, PartialEq, Eq, Structural)]
pub enum QubitMeasurementValue {
    /// The value is unknown because the qubit has not been measured yet, or
    /// the most recent measurement failed.
    Undefined,
    /// The qubit was measured to be zero.
    Zero,
    /// The qubit was measured to be one.
    One,
}

/// The value as an optional boolean: `None` when undefined.
pub open spec fn value_as_option(v: QubitMeasurementValue) -> Option<bool> {
    match v {
        QubitMeasurementValue::Undefined => None,
        QubitMeasurementValue::Zero => Some(false),
        QubitMeasurementValue::One => Some(true),
    }
}

/// The value for an optional boolean: undefined for `None`.
pub open spec fn value_from_option(o: Option<bool>) -> QubitMeasurementValue {
    match o {
        None => QubitMeasurementValue::Undefined,
        Some(false) => QubitMeasurementValue::Zero,
        Some(true) => QubitMeasurementValue::One,
    }
}

/// The one-character rendering of a value.
pub open spec fn value_text(v: QubitMeasurementValue) -> Seq<char> {
    match v {
        QubitMeasurementValue::Undefined => seq!['?'],
        QubitMeasurementValue::Zero => seq!['0'],
        QubitMeasurementValue::One => seq!['1'],
    }
}

impl QubitMeasurementValue {
    /// Whether the value is undefined.
    pub fn is_undefined(self) -> (b: bool)
        ensures
            b == (self == QubitMeasurementValue::Undefined),
    {
        self == QubitMeasurementValue::Undefined
    }

    /// Whether the value is zero.
    pub fn is_zero(self) -> (b: bool)
        ensures
            b == (self == QubitMeasurementValue::Zero),
    {
        self == QubitMeasurementValue::Zero
    }

    /// Whether the value is one.
    pub fn is_one(self) -> (b: bool)
        ensures
            b == (self == QubitMeasurementValue::One),
    {
        self == QubitMeasurementValue::One
    }

    /// Renders the value as `?`, `0` or `1`.
    pub fn to_string(self) -> (s: String)
        ensures
            s@ == value_text(self),
    {
        let c: char = match self {
            QubitMeasurementValue::Undefined => '?',
            QubitMeasurementValue::Zero => '0',
            QubitMeasurementValue::One => '1',
        };
        crate::text::string_from_chars(&vec![c])
    }
}

impl From<QubitMeasurementValue> for Option<bool> {
    fn from(v: QubitMeasurementValue) -> (o: Option<bool>) {
        match v {
            QubitMeasurementValue::Undefined => None,
            QubitMeasurementValue::Zero => Some(false),
            QubitMeasurementValue::One => Some(true),
        }
    }
}

impl vstd::std_specs::convert::FromSpecImpl<QubitMeasurementValue> for Option<bool> {
    open spec fn obeys_from_spec() -> bool {
        true
    }

    open spec fn from_spec(v: QubitMeasurementValue) -> Option<bool> {
        value_as_option(v)
    }
}

impl From<Option<bool>> for QubitMeasurementValue {
    fn from(o: Option<bool>) -> (v: QubitMeasurementValue) {
        match o {
            None => QubitMeasurementValue::Undefined,
            Some(false) => QubitMeasurementValue::Zero,
            Some(true) => QubitMeasurementValue::One,
        }
    }
}

impl vstd::std_specs::convert::FromSpecImpl<Option<bool>> for QubitMeasurementValue {
    open spec fn obeys_from_spec() -> bool {
        true
    }

    open spec fn from_spec(o: Option<bool>) -> QubitMeasurementValue {
        value_from_option(o)
    }
}

impl From<bool> for QubitMeasurementValue {
    fn from(b: bool) -> (v: QubitMeasurementValue) {
        if b {
            QubitMeasurementValue::One
        } else {
            QubitMeasurementValue::Zero
        }
    }
}

impl vstd::std_specs::convert::FromSpecImpl<bool> for QubitMeasurementValue {
    open spec fn obeys_from_spec() -> bool {
        true
    }

    open spec fn from_spec(b: bool) -> QubitMeasurementValue {
        value_from_option(Some(b))
    }
}

/// Converting a value to an optional boolean and back gives the value, and
/// the opposite trip gives the optional boolean back.
pub proof fn lemma_measurement_roundtrip(v: QubitMeasurementValue, o: Option<bool>)
    ensures
        value_from_option(value_as_option(v)) == v,
        value_as_option(value_from_option(o)) == o,
{
}

/// A qubit measurement result.
#[derive(Debug, Clone, PartialEq, Eq)]
pub struct QubitMeasurementResult {
    /// The measured qubit.
    pub qubit: QubitRef,
    /// The measured value.
    pub value: QubitMeasurementValue,
    /// Implementation-specific additional data, such as the probability of
    /// this outcome.
    pub data: ArbData,
}

impl QubitMeasurementResult {
    /// Constructs a measurement result.
    pub fn new(qubit: QubitRef, value: QubitMeasurementValue, data: ArbData) -> (r:
        QubitMeasurementResult)
        ensures
            r.qubit == qubit,
            r.value == value,
            r.data@ == data@,
    {
        QubitMeasurementResult { qubit, value, data }
    }
}

} // verus!
