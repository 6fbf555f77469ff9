use dqcsim::types::cycle::{Cycle, CycleDelta};
use dqcsim::types::measurement::{QubitMeasurementResult, QubitMeasurementValue};
use dqcsim::types::qubit_ref::{QubitRef, QubitRefGenerator};
use dqcsim::types::sequence_number::{SequenceNumber, SequenceNumberGenerator};
use dqcsim::types::arb_data::ArbData;

#[test]
fn zero() {
    let c = Cycle::t_zero();
    assert_eq!(c, Cycle(0i64));
}

#[test]
fn advance() {
    let c = Cycle::t_zero();
    let c = c.advance(1234u64);
    assert_eq!(c, Cycle(1234));
    let c = c.advance(1u64);
    assert_eq!(c, Cycle(1235));
}

#[test]
fn cycle_convert() {
    let a = 1234u64;
    let c = Cycle(1234);
    let c: u64 = c.to_u64();
    assert_eq!(a, c);

    let a = 1234i64;
    let c = Cycle(1234);
    let c: i64 = c.into();
    assert_eq!(a, c);
}

#[allow(clippy::eq_op)]
#[test]
fn ops() {
    let a = Cycle(21);
    let b: CycleDelta = 21;
    let c: CycleDelta = -2;
    assert_eq!(a + b, Cycle(42));
    assert_eq!(a - b, Cycle(0));
    assert_eq!(a + c, Cycle(19));
    assert_eq!(a - c, Cycle(23));
    assert_eq!(a - a, 0_i64);
}

#[test]
fn cycle_display() {
    assert_eq!(Cycle(1234).to_string(), "1234");
    assert_eq!(Cycle(-42).to_string(), "-42");
    assert_eq!(Cycle(i64::MIN).to_string(), "-9223372036854775808");
}

#[test]
fn cycle_advance_composes() {
    let c = Cycle(10);
    assert_eq!(c.advance(5).advance(7), c.advance(12));
    assert_eq!((c + 5) - 5, c);
    assert_eq!((c + 5) - c, 5);
}

#[test]
fn measurement_display() {
    let m = QubitMeasurementValue::Undefined;
    assert_eq!(m.to_string(), "?");
    let m = QubitMeasurementValue::Zero;
    assert_eq!(m.to_string(), "0");
    let m = QubitMeasurementValue::One;
    assert_eq!(m.to_string(), "1");
}

#[test]
fn is_funcs() {
    let m = QubitMeasurementValue::Undefined;
    assert!(m.is_undefined());
    let m = QubitMeasurementValue::Zero;
    assert!(m.is_zero());
    let m = QubitMeasurementValue::One;
    assert!(m.is_one());
}

#[test]
fn measurement_convert() {
    let m = QubitMeasurementValue::Undefined;
    let o: Option<bool> = m.into();
    assert_eq!(o, None);
    let t: QubitMeasurementValue = o.into();
    assert!(t.is_undefined());

    let m = QubitMeasurementValue::One;
    let o: Option<bool> = m.into();
    assert_eq!(o, Some(true));
    let t: QubitMeasurementValue = o.into();
    assert!(t.is_one());

    let m = QubitMeasurementValue::Zero;
    let o: Option<bool> = m.into();
    assert_eq!(o, Some(false));
    let t: QubitMeasurementValue = o.into();
    assert!(t.is_zero());

    let z = false;
    let m: QubitMeasurementValue = z.into();
    assert!(m.is_zero());

    let o = true;
    let m: QubitMeasurementValue = o.into();
    assert!(m.is_one());
}

#[test]
fn measurement_result_new() {
    let r = QubitMeasurementResult::new(QubitRef(3), QubitMeasurementValue::One, ArbData::default());
    assert_eq!(r.qubit, QubitRef(3));
    assert!(r.value.is_one());
    assert_eq!(r.data, ArbData::default());
}

#[test]
fn qubit_ref_construct_generator() {
    let mut q1 = QubitRefGenerator::default();
    let mut q2 = QubitRefGenerator::new();
    assert_eq!(q1.allocate(2), q2.allocate(2));
}

#[test]
fn alloc_free() {
    let mut q = QubitRefGenerator::default();
    let qrefs = q.allocate(1);
    assert_eq!(qrefs.len(), 1);
    q.free(vec![QubitRef::from_foreign(4).unwrap()]);
    let qrefs = q.allocate(1);
    assert_eq!(qrefs[0], QubitRef::from_foreign(2).unwrap());
}

#[test]
fn convert_qrefs() {
    let mut q = QubitRefGenerator::new();

    let qr = QubitRef::null();
    assert!(qr.to_foreign().is_err());
    assert!(QubitRef::option_to_foreign(Some(qr)).is_err());

    let qr = QubitRef(0);
    assert!(qr.to_foreign().is_err());
    assert!(QubitRef::option_to_foreign(Some(qr)).is_err());

    let qr = QubitRef::from_foreign(0);
    assert_eq!(qr, None);

    let qr = QubitRef::from_foreign(1).unwrap();
    assert_eq!(qr, (q.allocate(1))[0]);

    assert_eq!(
        42,
        QubitRef::from_foreign(42).unwrap().to_foreign().unwrap()
    );

    assert_eq!(0, QubitRef::option_to_foreign(None).unwrap());
    assert_eq!(
        42,
        QubitRef::option_to_foreign(Some(QubitRef::from_foreign(42).unwrap())).unwrap()
    );
}

#[test]
fn display_qref() {
    let qubits = QubitRefGenerator::default().allocate(1);
    assert_eq!(qubits[0].to_string(), "1");
    let s: String = qubits[0].into();
    assert_eq!(s, "1".to_string());
}

#[test]
fn qubit_allocations_are_fresh() {
    let mut q = QubitRefGenerator::new();
    let a = q.allocate(3);
    let b = q.allocate(2);
    assert_eq!(a, vec![QubitRef(1), QubitRef(2), QubitRef(3)]);
    assert_eq!(b, vec![QubitRef(4), QubitRef(5)]);
    assert!(a.iter().all(|x| !x.is_null() && !b.contains(x)));
    assert!(q.allocate(0).is_empty());
}

#[test]
fn sequence_number_construct_generator() {
    let mut s1 = SequenceNumberGenerator::default();
    let mut s2 = SequenceNumberGenerator::new();
    assert_eq!(s1.get_next(), s2.get_next());
}

#[test]
fn gets() {
    let mut s = SequenceNumberGenerator::default();
    assert_eq!(s.get_previous(), SequenceNumber(0));
    assert_eq!(s.get_previous(), SequenceNumber(0));
    assert_eq!(s.get_next(), SequenceNumber(1));
    assert_eq!(s.get_next(), SequenceNumber(2));
    assert_eq!(s.get_previous(), SequenceNumber(2));
    assert_eq!(s.get_next(), SequenceNumber(3));
    assert_eq!(s.get_previous(), SequenceNumber(3));
}

#[test]
fn seqs() {
    let mut s = SequenceNumberGenerator::default();
    let sn = s.get_previous();

    assert_eq!(sn.preceding(), SequenceNumber(0));
    assert!(!sn.after(SequenceNumber(0)));
    assert!(!sn.after(SequenceNumber(1)));
    assert!(sn.acknowledges(SequenceNumber(0)));
    assert!(!sn.acknowledges(SequenceNumber(1)));

    let sn = s.get_next();
    assert_eq!(sn.preceding(), SequenceNumber(0));
    assert!(sn.after(SequenceNumber(0)));
    assert!(!sn.after(SequenceNumber(1)));
    assert!(sn.acknowledges(SequenceNumber(0)));
    assert!(sn.acknowledges(SequenceNumber(1)));

    let sn = s.get_next();
    assert_eq!(sn.preceding(), SequenceNumber(1));
    assert!(sn.after(SequenceNumber(0)));
    assert!(sn.after(SequenceNumber(1)));
    assert!(!sn.after(SequenceNumber(2)));
    assert!(sn.acknowledges(SequenceNumber(0)));
    assert!(sn.acknowledges(SequenceNumber(1)));
    assert!(sn.acknowledges(SequenceNumber(2)));
    assert!(!sn.acknowledges(SequenceNumber(3)));
}

#[test]
fn sequence_number_display() {
    assert_eq!(SequenceNumber(123).to_string(), "123");
}

#[test]
fn sequence_number_order() {
    let none = SequenceNumber::none();
    let s = SequenceNumber(5);
    assert!(s.after(none) && !none.after(s) && !none.after(none));
    assert!(s.after(s.preceding()) && s.acknowledges(s.preceding()));
    assert_eq!(none.preceding(), none);
}
