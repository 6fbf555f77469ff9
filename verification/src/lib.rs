//! DQCsim core types and logic: simulation cycles, qubit references,
//! sequence numbers, measurements, CBOR canonicalization, `ArbData` and
//! `ArbCmd` objects, and the utility functions that go with them.

pub mod error;
pub mod types;
pub mod cbor;
pub mod cbor_canonical;
pub mod cbor_prefix;
pub mod text;
pub mod util;
pub mod configuration;
pub mod channel;
pub mod host;
pub mod converter;
pub mod random;
pub mod plugin;
pub mod log;
