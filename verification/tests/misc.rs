use dqcsim::converter::{FromArb, MeasurementGateConverter, ToArb, UMatrixConverter};
use dqcsim::host::PluginConfig;
use dqcsim::types::arb_data::ArbData;

#[test]
fn u64_arb_roundtrip() {
    let mut d = ArbData::from_args(vec![b"rest".to_vec()]);
    42u64.to_arb(&mut d);
    7u64.to_arb(&mut d);
    assert_eq!(d.get_args()[0], 7u64.to_le_bytes().to_vec());
    assert_eq!(u64::from_arb(&mut d).unwrap(), 7);
    assert_eq!(u64::from_arb(&mut d).unwrap(), 42);
    assert_eq!(d.get_args(), &[b"rest".to_vec()][..]);
    assert!(u64::from_arb(&mut d).is_err());
    assert!(d.get_args().is_empty());
    assert_eq!(
        u64::from_arb(&mut d).unwrap_err().to_string(),
        "Invalid argument: expected 64-bit integer argument in ArbData"
    );
    ().to_arb(&mut d);
    assert!(<()>::from_arb(&mut d).is_ok());
}

#[test]
fn converter_constructors() {
    assert_eq!(UMatrixConverter::new(Some(2)).num_qubits, Some(2));
    assert_eq!(MeasurementGateConverter::new(None).num_measures, None);
}

#[test]
fn plugin_config_name() {
    assert_eq!(PluginConfig::from_str("front").name(), "front");
}

use dqcsim::log::{Loglevel, LoglevelFilter};

#[test]
fn level_order() {
    assert!(Loglevel::Debug < Loglevel::Trace);
    assert!(Loglevel::Info < Loglevel::Debug);
    assert!(Loglevel::Note < Loglevel::Info);
    assert!(Loglevel::Warn < Loglevel::Note);
    assert!(Loglevel::Error < Loglevel::Warn);
    assert!(Loglevel::Fatal < Loglevel::Error);
    assert!(LoglevelFilter::Off < LoglevelFilter::from(Loglevel::Fatal));
}

#[test]
fn filter_to_level() {
    assert!(Loglevel::try_from(LoglevelFilter::Fatal).is_ok());
    assert!(Loglevel::try_from(LoglevelFilter::Error).is_ok());
    assert!(Loglevel::try_from(LoglevelFilter::Warn).is_ok());
    assert!(Loglevel::try_from(LoglevelFilter::Note).is_ok());
    assert!(Loglevel::try_from(LoglevelFilter::Info).is_ok());
    assert!(Loglevel::try_from(LoglevelFilter::Debug).is_ok());
    assert!(Loglevel::try_from(LoglevelFilter::Trace).is_ok());
    assert!(Loglevel::try_from(LoglevelFilter::Off).is_err());
}

#[test]
fn level_filter_roundtrip() {
    for l in [Loglevel::Fatal, Loglevel::Warn, Loglevel::Trace] {
        assert_eq!(Loglevel::try_from(LoglevelFilter::from(l)), Ok(l));
    }
}
