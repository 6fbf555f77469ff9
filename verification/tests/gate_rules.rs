use dqcsim::types::gate_rules::{check_custom_gate, check_single_qubit_gate, check_unitary_gate};
use dqcsim::types::qubit_ref::QubitRef;

fn q(n: u64) -> QubitRef {
    QubitRef::from_foreign(n).unwrap()
}

#[test]
fn unitary_gate_rules() {
    assert_eq!(
        check_unitary_gate(&[], &[], 2).unwrap_err().to_string(),
        "Invalid argument: at least one target qubit is required"
    );
    assert_eq!(
        check_unitary_gate(&[q(1), q(1)], &[], 4).unwrap_err().to_string(),
        "Invalid argument: qubit 1 is used more than once"
    );
    assert_eq!(
        check_unitary_gate(&[q(1)], &[q(1)], 2).unwrap_err().to_string(),
        "Invalid argument: qubit 1 is used more than once"
    );
    assert_eq!(
        check_unitary_gate(&[q(3), q(2)], &[q(4), q(2), q(3)], 4).unwrap_err().to_string(),
        "Invalid argument: qubit 2 is used more than once"
    );
    assert_eq!(
        check_unitary_gate(&[q(2), q(3)], &[], 1).unwrap_err().to_string(),
        "Invalid argument: the matrix is expected to be sized for 2 qubits but has dimension 1"
    );
    assert_eq!(
        check_unitary_gate(&[q(1), q(2), q(3), q(4)], &[], 1).unwrap_err().to_string(),
        "Invalid argument: the matrix is expected to be sized for 4 qubits but has dimension 1"
    );
    assert!(check_unitary_gate(&[q(1)], &[q(2)], 2).is_ok());
    assert!(check_unitary_gate(&[q(1), q(2)], &[], 4).is_ok());
}

#[test]
fn single_qubit_gate_rules() {
    assert_eq!(
        check_single_qubit_gate(&[q(1), q(1)], 2).unwrap_err().to_string(),
        "Invalid argument: qubit 1 is measured more than once"
    );
    assert_eq!(
        check_single_qubit_gate(&[q(1)], 4).unwrap_err().to_string(),
        "Invalid argument: the matrix is expected to be 2x2 but has dimension 4"
    );
    assert!(check_single_qubit_gate(&[q(1), q(2)], 2).is_ok());
    assert!(check_single_qubit_gate(&[], 2).is_ok());
}

#[test]
fn custom_gate_rules() {
    assert_eq!(
        check_custom_gate(&[q(1)], &[q(1)], &[]).unwrap_err().to_string(),
        "Invalid argument: qubit 1 is used more than once"
    );
    assert_eq!(
        check_custom_gate(&[], &[], &[q(1), q(1)]).unwrap_err().to_string(),
        "Invalid argument: qubit 1 is measured more than once"
    );
    assert!(check_custom_gate(&[q(1)], &[q(2)], &[q(1)]).is_ok());
}
