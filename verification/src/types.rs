//! Core DQCsim datatypes.

pub mod cycle;
pub mod qubit_ref;
pub mod sequence_number;
pub mod measurement;
pub mod arb_data;
pub mod arb_cmd;
pub mod gate_type;
pub mod gate_rules;
