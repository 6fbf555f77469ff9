//! Kinds of gates.

use vstd::prelude::*;

verus! {

/// A type of quantum or mixed quantum-classical gate.
#[derive(Debug, Clone, PartialEq, Eq, Hash)]
pub enum GateType {
    /// One or more target qubits, zero or more control qubits, and a unitary
    /// matrix sized for the targets, expanded by the controls.
    Unitary,
    /// One or more measured qubits and a 2x2 matrix giving the basis.
    Measurement,
    /// One or more target qubits, initialized to |0> and then put through a
    /// 2x2 matrix giving the basis.
    Prep,
    /// A user-defined mixed quantum-classical operation, identified by name.
    Custom(String),
}

/// An abstract unitary gate type, without parameters or qubits, except for
/// the number of target qubits of `U`.
#[derive(Debug, Clone, Copy, PartialEq, Eq, Hash, Structural)]
pub enum UnitaryGateType {
    /// Identity.
    I,
    /// Pauli-X.
    X,
    /// Pauli-Y.
    Y,
    /// Pauli-Z.
    Z,
    /// Hadamard.
    H,
    /// Phase.
    S,
    /// S† (conjugate transpose of S).
    SDAG,
    /// T.
    T,
    /// T† (conjugate transpose of T).
    TDAG,
    /// 90 degree rotation around X-axis.
    RX90,
    /// minus 90 degree rotation around X-axis.
    RXM90,
    /// 180 degree rotation around X-axis.
    RX180,
    /// 90 degree rotation around Y-axis.
    RY90,
    /// minus 90 degree rotation around Y-axis.
    RYM90,
    /// 180 degree rotation around Y-axis.
    RY180,
    /// 90 degree rotation around Z-axis.
    RZ90,
    /// minus 90 degree rotation around Z-axis.
    RZM90,
    /// 180 degree rotation around Z-axis.
    RZ180,
    /// Arbitrary rotation around X-axis.
    RX,
    /// Arbitrary rotation around Y-axis.
    RY,
    /// Arbitrary rotation around Z-axis.
    RZ,
    /// Arbitrary rotation around Z-axis, with its global phase chosen so
    /// that it works as a submatrix for controlled phase operations.
    Phase,
    /// Same as Phase, but with θ = π/2^k.
    PhaseK,
    /// Arbitrary rotation around X-, Y- and Z-axis.
    R,
    /// Swap.
    SWAP,
    /// Square root of Swap.
    SQSWAP,
    /// Abstract unitary gate with the given number of target qubits.
    U(usize),
}

} // verus!
