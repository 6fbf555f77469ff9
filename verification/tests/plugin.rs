use dqcsim::plugin::{GatestreamUp, MessageSource, PluginState, PluginType};
use dqcsim::random::RandomNumberGenerator;
use dqcsim::types::arb_data::ArbData;
use dqcsim::types::measurement::{QubitMeasurementResult, QubitMeasurementValue};
use dqcsim::types::qubit_ref::QubitRef;
use dqcsim::types::sequence_number::SequenceNumber;

fn measured(q: u64, v: QubitMeasurementValue) -> QubitMeasurementResult {
    QubitMeasurementResult::new(QubitRef(q), v, ArbData::from_args(vec![vec![q as u8]]))
}

#[test]
fn gatestream_requests_are_numbered() {
    let mut s = PluginState::new(PluginType::Frontend);
    let (qubits, seq) = s.allocate(2).unwrap();
    assert_eq!(qubits, vec![QubitRef(1), QubitRef(2)]);
    assert_eq!(seq, SequenceNumber(1));
    let seq = s.gate(&vec![QubitRef(1)], &vec![], &vec![]).unwrap();
    assert_eq!(seq, SequenceNumber(2));
    let (now, seq) = s.advance(10).unwrap();
    assert_eq!(now.0, 10);
    assert_eq!(seq, SequenceNumber(3));
    assert_eq!(s.get_cycle().unwrap().0, 10);
    assert_eq!(s.free(vec![QubitRef(1)]).unwrap(), SequenceNumber(4));
    assert_eq!(
        s.free(vec![QubitRef(1)]).unwrap_err().to_string(),
        "Invalid argument: qubit 1 is not allocated"
    );
    assert_eq!(
        s.gate(&vec![QubitRef(2)], &vec![QubitRef(7)], &vec![]).unwrap_err().to_string(),
        "Invalid argument: qubit 7 is not allocated"
    );
    let (qubits, seq) = s.allocate(1).unwrap();
    assert_eq!(qubits, vec![QubitRef(3)]);
    assert_eq!(seq, SequenceNumber(5));
}

#[test]
fn gatestream_call_restrictions() {
    let mut b = PluginState::new(PluginType::Backend);
    assert_eq!(
        b.allocate(1).unwrap_err().to_string(),
        "Invalid operation: allocate() is not available for backends"
    );
    let mut o = PluginState::new(PluginType::Operator);
    o.set_synchronized(false);
    assert_eq!(
        o.advance(1).unwrap_err().to_string(),
        "Invalid operation: advance() cannot be called while handling a gatestream response"
    );
    assert!(o.get_cycle().is_err());
}

#[test]
fn gatestream_measurements() {
    let mut s = PluginState::new(PluginType::Operator);
    s.allocate(3).unwrap();
    let seq = s.gate(&vec![], &vec![], &vec![QubitRef(1), QubitRef(2), QubitRef(1)]).unwrap();
    assert_eq!(s.sync_point("get_measurement()", QubitRef(1)).unwrap(), seq);
    assert!(s.needs_sync(seq));
    s.received_advanced(5);
    s.received_measurement(measured(2, QubitMeasurementValue::One));
    s.received_measurement(measured(3, QubitMeasurementValue::Zero));
    let (forwarded, completed) = s.received_downstream_sequence(seq);
    assert!(!s.needs_sync(seq));
    assert_eq!(completed, None);
    // qubit 2 was expected; qubit 3 was not and is ignored; qubit 1 never
    // came and becomes undefined.
    assert_eq!(forwarded.len(), 2);
    assert_eq!(forwarded[0].qubit, QubitRef(2));
    assert!(forwarded[1].value.is_undefined());
    assert!(s.get_measurement(QubitRef(2)).unwrap().value.is_one());
    assert_eq!(s.get_measurement(QubitRef(2)).unwrap().data.get_args(), &[vec![2u8]][..]);
    assert!(s.get_measurement(QubitRef(1)).unwrap().value.is_undefined());
    assert_eq!(
        s.get_measurement(QubitRef(3)).unwrap_err().to_string(),
        "Invalid argument: qubit 3 has not been measured yet"
    );
    assert_eq!(
        s.get_cycles_between_measures(QubitRef(2)).unwrap_err().to_string(),
        "Invalid argument: qubit 2 has only been measured once"
    );
    s.advance(7).unwrap();
    assert_eq!(s.get_cycles_since_measure(QubitRef(2)).unwrap(), 2);
    let seq = s.gate(&vec![], &vec![], &vec![QubitRef(2)]).unwrap();
    s.received_advanced(3);
    s.received_measurement(measured(2, QubitMeasurementValue::Zero));
    s.received_downstream_sequence(seq);
    assert!(s.get_measurement(QubitRef(2)).unwrap().value.is_zero());
    assert_eq!(s.get_cycles_between_measures(QubitRef(2)).unwrap(), 3);
}

#[test]
fn gatestream_backend_forwards_nothing() {
    let mut s = PluginState::new(PluginType::Frontend);
    s.allocate(1).unwrap();
    let seq = s.gate(&vec![], &vec![], &vec![QubitRef(1)]).unwrap();
    s.received_measurement(measured(1, QubitMeasurementValue::One));
    let (forwarded, _) = s.received_downstream_sequence(seq);
    assert!(forwarded.is_empty());
    assert!(s.get_measurement(QubitRef(1)).unwrap().value.is_one());
}

#[test]
fn gatestream_upstream_completion() {
    let mut s = PluginState::new(PluginType::Operator);
    assert_eq!(s.issued_upstream(SequenceNumber(1)), Some(SequenceNumber(1)));
    assert_eq!(s.issued_upstream(SequenceNumber(1)), None);
    s.allocate(2).unwrap();
    let down = s.gate(&vec![], &vec![], &vec![QubitRef(1), QubitRef(2)]).unwrap();
    let (send, res) = s.finish_gate(
        SequenceNumber(2),
        &vec![QubitRef(1), QubitRef(2)],
        vec![measured(1, QubitMeasurementValue::One)],
    );
    assert!(res.is_ok());
    assert_eq!(send.len(), 1);
    assert_eq!(s.issued_upstream(SequenceNumber(3)), None);
    s.received_measurement(measured(1, QubitMeasurementValue::One));
    s.received_measurement(measured(2, QubitMeasurementValue::One));
    let (_, completed) = s.received_downstream_sequence(down);
    assert_eq!(completed, Some(SequenceNumber(3)));
}

#[test]
fn gatestream_gate_results_checked() {
    let mut s = PluginState::new(PluginType::Backend);
    let (send, res) = s.finish_gate(
        SequenceNumber(1),
        &vec![QubitRef(4), QubitRef(5)],
        vec![measured(4, QubitMeasurementValue::One), measured(4, QubitMeasurementValue::Zero)],
    );
    assert_eq!(send.len(), 1);
    assert_eq!(
        res.unwrap_err().to_string(),
        "user-defined gate() function returned multiple measurements for qubit 4"
    );
    let (_, res) = s.finish_gate(SequenceNumber(2), &vec![QubitRef(4), QubitRef(5)], vec![]);
    assert_eq!(
        res.unwrap_err().to_string(),
        "user-defined gate() function failed to return measurement for qubits 4 or 5"
    );
}


#[test]
fn gatestream_downstream_messages() {
    let mut s = PluginState::new(PluginType::Operator);
    s.allocate(1).unwrap();
    let seq = s.gate(&vec![], &vec![], &vec![QubitRef(1)]).unwrap();
    assert!(s.handle_downstream_message(GatestreamUp::Advanced(4)).is_ok());
    assert!(!s.synchronized);
    assert!(s
        .handle_downstream_message(GatestreamUp::Measured(measured(1, QubitMeasurementValue::One)))
        .is_ok());
    let (forwarded, _) = s.handle_downstream_message(GatestreamUp::CompletedUpTo(seq)).unwrap();
    assert_eq!(forwarded.len(), 1);
    s.set_synchronized(true);
    assert!(s.get_measurement(QubitRef(1)).unwrap().value.is_one());
    assert_eq!(s.downstream.cycle_rx.0, 4);
    assert_eq!(
        s.handle_downstream_message(GatestreamUp::Failure(seq, "boom".to_string()))
            .unwrap_err()
            .to_string(),
        "simulation failed due to downstream error: boom"
    );
    assert_eq!(
        s.handle_downstream_message(GatestreamUp::ArbFailure("x".to_string()))
            .unwrap_err()
            .to_string(),
        "unexpected message received from downstream"
    );
}

#[test]
fn downstream_completion_forwards_and_completes() {
    let mut s = PluginState::new(PluginType::Operator);
    s.allocate(2).unwrap();
    let seq = s.gate(&vec![], &vec![], &vec![QubitRef(1), QubitRef(2)]).unwrap();
    let (finished, outcome) = s.finish_gate(SequenceNumber(1), &vec![QubitRef(1), QubitRef(2)], vec![]);
    assert!(finished.is_empty());
    assert!(outcome.is_ok());
    assert_eq!(s.issued_upstream(SequenceNumber(1)), None);
    s.handle_downstream_message(GatestreamUp::Measured(measured(2, QubitMeasurementValue::One)))
        .unwrap();
    let (forwarded, completed) = s.handle_downstream_message(GatestreamUp::CompletedUpTo(seq)).unwrap();
    assert_eq!(forwarded.len(), 2);
    assert_eq!(forwarded[0].qubit, QubitRef(2));
    assert!(forwarded[0].value.is_one());
    assert_eq!(forwarded[1].qubit, QubitRef(1));
    assert!(forwarded[1].value.is_undefined());
    assert_eq!(completed, Some(SequenceNumber(1)));
    assert_eq!(s.upstream.completed_up_to, SequenceNumber(1));
    assert!(s.downstream.measurement_queue.is_empty());
}

#[test]
fn refused_calls_need_no_room() {
    let mut b = PluginState::new(PluginType::Backend);
    assert_eq!(
        b.allocate(usize::MAX).unwrap_err().to_string(),
        "Invalid operation: allocate() is not available for backends"
    );
    let mut f = PluginState::new(PluginType::Frontend);
    f.allocate(2).unwrap();
    assert_eq!(
        f.gate(&vec![QubitRef(1)], &vec![QubitRef(5)], &vec![QubitRef(4)]).unwrap_err().to_string(),
        "Invalid argument: qubit 5 is not allocated"
    );
    assert_eq!(
        f.free(vec![QubitRef(2), QubitRef(9), QubitRef(8)]).unwrap_err().to_string(),
        "Invalid argument: qubit 9 is not allocated"
    );
    assert_eq!(
        QubitRef::option_to_foreign(Some(QubitRef::null())).unwrap_err().to_string(),
        "Invalid argument: making use of null qubit reference"
    );
}

#[test]
fn gatestream_upstream_refs() {
    let mut s = PluginState::new(PluginType::Backend);
    assert_eq!(s.upstream_allocate(2), vec![QubitRef(1), QubitRef(2)]);
    s.upstream_free(vec![QubitRef(1)]);
    assert_eq!(s.upstream_allocate(1), vec![QubitRef(3)]);
}

#[test]
fn random_streams_are_deterministic() {
    let mut a = RandomNumberGenerator::new(3, 42);
    let mut b = RandomNumberGenerator::new(3, 42);
    assert_eq!(a.get_selected(), 0);
    let xs: Vec<u64> = (0..4).map(|_| a.random_u64()).collect();
    let ys: Vec<u64> = (0..4).map(|_| b.random_u64()).collect();
    assert_eq!(xs, ys);
    a.select(2);
    b.select(1);
    assert_eq!(a.get_selected(), 2);
    assert_ne!(a.random_u64(), b.random_u64());
    let mut c = RandomNumberGenerator::new(3, 43);
    assert_ne!(c.random_u64(), RandomNumberGenerator::new(3, 42).random_u64());
}

#[test]
fn random_generator_has_at_least_one_stream() {
    let mut g = RandomNumberGenerator::new(0, 7);
    g.select(0);
    let x = g.random_u64();
    assert_eq!(RandomNumberGenerator::new(1, 7).random_u64(), x);
}

#[test]
fn plugin_init_checks_type_and_seeds() {
    let mut s = PluginState::new(PluginType::Operator);
    assert!(s.rng.is_none());
    assert_eq!(s.selected_stream(), 0);
    assert_eq!(
        s.handle_init(PluginType::Backend, 5).unwrap_err().to_string(),
        "Invalid operation: host is expecting a plugin of type Backend, but we're a plugin of type Operator"
    );
    assert!(s.rng.is_some());
    let mut t = PluginState::new(PluginType::Operator);
    t.handle_init(PluginType::Operator, 5).unwrap();
    assert_eq!(s.random_u64(), t.random_u64());
    t.select_stream(1);
    assert_eq!(t.selected_stream(), 1);
    t.handle_downstream_message(GatestreamUp::Advanced(3)).unwrap();
    assert_eq!(t.selected_stream(), 2);
    assert!(!t.synchronized);
}

#[test]
fn arb_exchange_outcomes() {
    let b = PluginState::new(PluginType::Backend);
    assert_eq!(
        b.check_arb().unwrap_err().to_string(),
        "Invalid operation: arb() is not available for backends"
    );
    let mut f = PluginState::new(PluginType::Frontend);
    assert!(f.check_arb().is_ok());
    f.set_synchronized(false);
    assert_eq!(
        f.check_arb().unwrap_err().to_string(),
        "Invalid operation: arb() cannot be called while handling a gatestream response"
    );
    let d = PluginState::arb_reply(Some(GatestreamUp::ArbSuccess(ArbData::from_args(vec![vec![9u8]])))).unwrap();
    assert_eq!(d.get_args(), &[vec![9u8]][..]);
    assert_eq!(
        PluginState::arb_reply(Some(GatestreamUp::ArbFailure("nope".to_string()))).unwrap_err().to_string(),
        "nope"
    );
    assert_eq!(
        PluginState::arb_reply(Some(GatestreamUp::Advanced(1))).unwrap_err().to_string(),
        "Protocol error: unexpected message from downstream"
    );
    assert_eq!(PluginState::arb_reply(None).unwrap_err().to_string(), "Simulation aborted");
}

fn arb_arg(x: u8) -> ArbData {
    ArbData::from_args(vec![vec![x]])
}

#[test]
fn host_exchange_in_run() {
    let mut o = PluginState::new(PluginType::Operator);
    assert_eq!(
        o.handle_run(vec![arb_arg(1)], true).unwrap_err().to_string(),
        "Invalid operation: received run request from simulator, but we're not a frontend!"
    );
    assert!(!o.inside_run);

    let mut f = PluginState::new(PluginType::Frontend);
    assert_eq!(
        f.send(arb_arg(0)).unwrap_err().to_string(),
        "Invalid operation: send() can only be called from inside the run() callback"
    );
    assert_eq!(
        f.recv().unwrap_err().to_string(),
        "Invalid operation: recv() can only be called from inside the run() callback"
    );
    assert_eq!(f.handle_run(vec![arb_arg(1), arb_arg(2)], false).unwrap(), false);
    assert!(!f.inside_run);
    assert_eq!(f.handle_run(vec![arb_arg(3)], true).unwrap(), true);
    assert!(f.inside_run);
    assert_eq!(f.recv().unwrap().unwrap().get_args(), &[vec![1u8]][..]);
    f.send(arb_arg(7)).unwrap();
    f.send(arb_arg(8)).unwrap();
    assert_eq!(f.recv().unwrap().unwrap().get_args(), &[vec![2u8]][..]);
    assert_eq!(f.recv().unwrap().unwrap().get_args(), &[vec![3u8]][..]);
    assert!(f.recv().unwrap().is_none());
    let out = f.drain_to_host();
    assert_eq!(out.len(), 2);
    assert_eq!(out[0].get_args(), &[vec![7u8]][..]);
    assert_eq!(out[1].get_args(), &[vec![8u8]][..]);
    assert!(f.drain_to_host().is_empty());
    f.handle_init(PluginType::Frontend, 1).unwrap();
    f.set_synchronized(false);
    f.select_stream(2);
    f.run_request_received(vec![arb_arg(4)], false).unwrap();
    assert!(f.synchronized);
    assert_eq!(f.selected_stream(), 0);
    assert_eq!(f.recv().unwrap().unwrap().get_args(), &[vec![4u8]][..]);
    assert_eq!(
        f.run_request_received(vec![], true).unwrap_err().to_string(),
        "Protocol error: cannot start accelerator while accelerator is already running"
    );
    f.leave_run();
    assert!(!f.inside_run);
}

#[test]
fn backend_getters_refused() {
    let b = PluginState::new(PluginType::Backend);
    assert_eq!(
        b.get_measurement(QubitRef(1)).unwrap_err().to_string(),
        "Invalid operation: get_measurement() is not available for backends"
    );
    assert_eq!(
        b.get_cycles_since_measure(QubitRef(1)).unwrap_err().to_string(),
        "Invalid operation: get_cycles_since_measure() is not available for backends"
    );
    let mut o = PluginState::new(PluginType::Operator);
    o.set_synchronized(false);
    assert_eq!(
        o.get_cycles_between_measures(QubitRef(1)).unwrap_err().to_string(),
        "Invalid operation: get_cycles_between_measures() cannot be called while handling a gatestream response"
    );
}

#[test]
fn plugin_random_numbers_follow_the_seed() {
    let mut a = PluginState::new(PluginType::Frontend);
    let mut b = PluginState::new(PluginType::Frontend);
    a.handle_init(PluginType::Frontend, 99).unwrap();
    b.handle_init(PluginType::Frontend, 99).unwrap();
    let mut g = RandomNumberGenerator::new(3, 99);
    for stream in [0usize, 2, 1, 0] {
        a.select_stream(stream);
        b.select_stream(stream);
        g.select(stream);
        let x = a.random_u64();
        assert_eq!(x, b.random_u64());
        assert_eq!(x, g.random_u64());
    }
}

#[test]
fn message_dispatch_steps() {
    let mut s = PluginState::new(PluginType::Operator);
    s.handle_init(PluginType::Operator, 3).unwrap();
    s.set_synchronized(false);
    assert!(s.begin_message(MessageSource::Upstream));
    assert!(s.synchronized);
    assert_eq!(s.selected_stream(), 1);
    assert!(s.begin_message(MessageSource::Simulator));
    assert_eq!(s.selected_stream(), 0);
    let (reply, done) = s.finish_upstream_request(
        SequenceNumber(1),
        Err(dqcsim::error::Error::InvalidArgument("bad".to_string())),
    );
    match reply {
        Some(GatestreamUp::Failure(q, m)) => {
            assert_eq!(q, SequenceNumber(1));
            assert_eq!(m, "Invalid argument: bad");
        }
        _ => panic!("expected a failure reply"),
    }
    assert_eq!(done, Some(SequenceNumber(1)));
    let (reply, done) = s.finish_upstream_request(SequenceNumber(2), Ok(()));
    assert!(reply.is_none());
    assert_eq!(done, Some(SequenceNumber(2)));
    s.handle_abort();
    assert!(!s.begin_message(MessageSource::Upstream));
    assert!(!s.begin_message(MessageSource::Downstream));
}
