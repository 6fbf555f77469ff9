//! Rules on the qubits and matrix sizes of gates, checked when gates are
//! made: a unitary gate needs at least one target, no
//! qubit may be used twice, no qubit may be measured twice, and the matrix
//! must fit the targets. Whether a matrix is unitary is a floating-point
//! question and is not decided here.

use crate::error::{Error, Result};
use crate::text::{decimal, push_str, str_chars, string_from_chars, u64_to_decimal};
use crate::types::qubit_ref::QubitRef;
use crate::util::{lemma_two_pow_mono, log_2, two_pow};
use vstd::prelude::*;

verus! {

/// The first qubit of `qs` that also occurs before it, if any.
pub open spec fn first_repeat(qs: Seq<u64>) -> Option<u64>
    decreases qs.len(),
{
    if qs.len() == 0 {
        None
    } else {
        match first_repeat(qs.drop_last()) {
            Some(q) => Some(q),
            None => if qs.drop_last().contains(qs.last()) {
                Some(qs.last())
            } else {
                None
            },
        }
    }
}

/// The numbers of some qubit references.
pub open spec fn ref_numbers(qs: Seq<QubitRef>) -> Seq<u64> {
    qs.map_values(|q: QubitRef| q.0)
}

/// The message for a qubit used more than once.
pub open spec fn msg_used_twice(q: u64) -> Seq<char> {
    "qubit "@ + decimal(q as nat) + " is used more than once"@
}

/// The message for a qubit measured more than once.
pub open spec fn msg_measured_twice(q: u64) -> Seq<char> {
    "qubit "@ + decimal(q as nat) + " is measured more than once"@
}

/// The message for a unitary gate without targets.
pub open spec fn msg_no_target() -> Seq<char> {
    "at least one target qubit is required"@
}

/// The message for a unitary matrix that does not fit the targets.
pub open spec fn msg_unitary_size(n: nat, dimension: nat) -> Seq<char> {
    "the matrix is expected to be sized for "@ + decimal(n) + " qubits but has dimension "@ + decimal(
        dimension,
    )
}

/// The message for a basis matrix that is not 2x2.
pub open spec fn msg_not_two_by_two(dimension: nat) -> Seq<char> {
    "the matrix is expected to be 2x2 but has dimension "@ + decimal(dimension)
}

/// A repeat found in a prefix is the first repeat of the whole.
proof fn lemma_repeat_prefix(qs: Seq<u64>, k: int)
    requires
        0 <= k <= qs.len(),
        first_repeat(qs.take(k)) is Some,
    ensures
        first_repeat(qs) == first_repeat(qs.take(k)),
    decreases qs.len() - k,
{
    if k < qs.len() {
        assert(qs.take(k + 1).drop_last() =~= qs.take(k));
        lemma_repeat_prefix(qs, k + 1);
    } else {
        assert(qs.take(k) =~= qs);
    }
}

/// The first qubit of `qs` that also occurs before it, if any.
fn find_repeat(qs: &Vec<u64>) -> (r: Option<u64>)
    ensures
        r == first_repeat(qs@),
{
    let mut i: usize = 0;
    while i < qs.len()
        invariant
            i <= qs@.len(),
            first_repeat(qs@.take(i as int)) is None,
        decreases qs@.len() - i,
    {
        let q = qs[i];
        let mut j: usize = 0;
        while j < i
            invariant
                i < qs@.len(),
                j <= i,
                q == qs@[i as int],
                first_repeat(qs@.take(i as int)) is None,
                forall|k: int| 0 <= k < j ==> qs@[k] != q,
            decreases i - j,
        {
            if qs[j] == q {
                proof {
                    let p = qs@.take(i as int + 1);
                    assert(p.drop_last() =~= qs@.take(i as int));
                    assert(p.drop_last()[j as int] == q);
                    assert(p.last() == q);
                    assert(p.drop_last().contains(p.last()));
                    assert(first_repeat(p) == Some(q));
                    lemma_repeat_prefix(qs@, i as int + 1);
                }
                return Some(q);
            }
            j = j + 1;
        }
        proof {
            let p = qs@.take(i as int + 1);
            assert(p.drop_last() =~= qs@.take(i as int));
            assert(!p.drop_last().contains(p.last())) by {
                if p.drop_last().contains(p.last()) {
                    let k = choose|k: int| 0 <= k < p.drop_last().len() && p.drop_last()[k] == p.last();
                    assert(qs@[k] == q);
                }
            }
        }
        i = i + 1;
    }
    assert(qs@.take(i as int) =~= qs@);
    None
}

/// The numbers of some qubit references, in order.
fn numbers_of(a: &[QubitRef], b: &[QubitRef]) -> (r: Vec<u64>)
    ensures
        r@ == ref_numbers(a@) + ref_numbers(b@),
{
    let mut r: Vec<u64> = Vec::new();
    let mut i: usize = 0;
    while i < a.len()
        invariant
            i <= a@.len(),
            r@ =~= ref_numbers(a@.take(i as int)),
        decreases a@.len() - i,
    {
        r.push(a[i].0);
        i = i + 1;
        assert(r@ =~= ref_numbers(a@.take(i as int)));
    }
    assert(a@.take(i as int) =~= a@);
    let mut j: usize = 0;
    while j < b.len()
        invariant
            j <= b@.len(),
            r@ =~= ref_numbers(a@) + ref_numbers(b@.take(j as int)),
        decreases b@.len() - j,
    {
        r.push(b[j].0);
        j = j + 1;
        assert(r@ =~= ref_numbers(a@) + ref_numbers(b@.take(j as int)));
    }
    assert(b@.take(j as int) =~= b@);
    r
}

/// Builds the error for a qubit, with the given rest of the message.
fn qubit_message(q: u64, rest: &str) -> (e: Error)
    ensures
        e is InvalidArgument,
        e->InvalidArgument_0@ == "qubit "@ + decimal(q as nat) + rest@,
{
    let mut msg = str_chars("qubit ");
    let mut d = u64_to_decimal(q);
    msg.append(&mut d);
    push_str(&mut msg, rest);
    Error::InvalidArgument(string_from_chars(&msg))
}

/// Builds the error for a matrix of the wrong size.
fn size_message(head: &str, n: Option<usize>, dimension: usize) -> (e: Error)
    ensures
        e is InvalidArgument,
        n is None ==> e->InvalidArgument_0@ == head@ + decimal(dimension as nat),
        n is Some ==> e->InvalidArgument_0@ == head@ + decimal(n->0 as nat)
            + " qubits but has dimension "@ + decimal(dimension as nat),
{
    let mut msg = str_chars(head);
    if let Some(k) = n {
        let mut d = u64_to_decimal(k as u64);
        msg.append(&mut d);
        push_str(&mut msg, " qubits but has dimension ");
    }
    let mut d = u64_to_decimal(dimension as u64);
    msg.append(&mut d);
    Error::InvalidArgument(string_from_chars(&msg))
}

/// Checks the qubits and the matrix size of a unitary gate: at least one
/// target, no qubit among the targets and controls twice, and a matrix of
/// dimension `2^n` for `n` targets.
pub fn check_unitary_gate(targets: &[QubitRef], controls: &[QubitRef], dimension: usize) -> (r: Result<()>)
    ensures
        targets@.len() == 0 ==> r is Err && r->Err_0 is InvalidArgument && r->Err_0->InvalidArgument_0@
            == msg_no_target(),
        targets@.len() > 0 ==> (first_repeat(ref_numbers(targets@) + ref_numbers(controls@)) matches Some(q)
            ==> r is Err && r->Err_0 is InvalidArgument && r->Err_0->InvalidArgument_0@ == msg_used_twice(q)),
        targets@.len() > 0 && first_repeat(ref_numbers(targets@) + ref_numbers(controls@)) is None
            && two_pow(targets@.len()) != dimension ==> r is Err && r->Err_0 is InvalidArgument
            && r->Err_0->InvalidArgument_0@ == msg_unitary_size(targets@.len(), dimension as nat),
        targets@.len() > 0 && first_repeat(ref_numbers(targets@) + ref_numbers(controls@)) is None
            && two_pow(targets@.len()) == dimension ==> r is Ok,
{
    if targets.len() == 0 {
        return Err(crate::error::inv_arg("at least one target qubit is required"));
    }
    let all = numbers_of(targets, controls);
    if let Some(q) = find_repeat(&all) {
        return Err(qubit_message(q, " is used more than once"));
    }
    match log_2(dimension) {
        Some(k) => {
            if k == targets.len() {
                return Ok(());
            }
            proof {
                if two_pow(targets@.len()) == dimension {
                    if k < targets@.len() {
                        lemma_two_pow_mono(k as nat, targets@.len());
                    } else {
                        lemma_two_pow_mono(targets@.len(), k as nat);
                    }
                }
            }
        },
        None => {},
    }
    Err(size_message("the matrix is expected to be sized for ", Some(targets.len()), dimension))
}

/// Checks the qubits and the basis of a measurement or prep gate: no qubit
/// twice, and a 2x2 matrix.
pub fn check_single_qubit_gate(qubits: &[QubitRef], dimension: usize) -> (r: Result<()>)
    ensures
        first_repeat(ref_numbers(qubits@)) matches Some(q) ==> r is Err && r->Err_0 is InvalidArgument
            && r->Err_0->InvalidArgument_0@ == msg_measured_twice(q),
        first_repeat(ref_numbers(qubits@)) is None && dimension != 2 ==> r is Err
            && r->Err_0 is InvalidArgument && r->Err_0->InvalidArgument_0@ == msg_not_two_by_two(
            dimension as nat,
        ),
        first_repeat(ref_numbers(qubits@)) is None && dimension == 2 ==> r is Ok,
{
    let all = numbers_of(qubits, &[]);
    assert(ref_numbers(Seq::<QubitRef>::empty()) =~= Seq::<u64>::empty());
    assert(all@ =~= ref_numbers(qubits@));
    if let Some(q) = find_repeat(&all) {
        return Err(qubit_message(q, " is measured more than once"));
    }
    if dimension != 2 {
        return Err(size_message("the matrix is expected to be 2x2 but has dimension ", None, dimension));
    }
    Ok(())
}

/// Checks the qubits of a custom gate: no qubit among the targets and
/// controls twice, and no qubit measured twice.
pub fn check_custom_gate(targets: &[QubitRef], controls: &[QubitRef], measures: &[QubitRef]) -> (r: Result<()>)
    ensures
        first_repeat(ref_numbers(targets@) + ref_numbers(controls@)) matches Some(q) ==> r is Err
            && r->Err_0 is InvalidArgument && r->Err_0->InvalidArgument_0@ == msg_used_twice(q),
        first_repeat(ref_numbers(targets@) + ref_numbers(controls@)) is None ==> (first_repeat(
            ref_numbers(measures@),
        ) matches Some(q) ==> r is Err && r->Err_0 is InvalidArgument && r->Err_0->InvalidArgument_0@
            == msg_measured_twice(q)),
        first_repeat(ref_numbers(targets@) + ref_numbers(controls@)) is None && first_repeat(
            ref_numbers(measures@),
        ) is None ==> r is Ok,
{
    let used = numbers_of(targets, controls);
    if let Some(q) = find_repeat(&used) {
        return Err(qubit_message(q, " is used more than once"));
    }
    let measured = numbers_of(measures, &[]);
    assert(ref_numbers(Seq::<QubitRef>::empty()) =~= Seq::<u64>::empty());
    assert(measured@ =~= ref_numbers(measures@));
    if let Some(q) = find_repeat(&measured) {
        return Err(qubit_message(q, " is measured more than once"));
    }
    Ok(())
}

} // verus!
