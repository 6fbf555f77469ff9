//! The state of a plugin: the gatestream bookkeeping (sequence numbers,
//! simulation time, live qubits and their measurement results, for requests
//! sent downstream and acknowledgements sent upstream), its random number
//! streams, and the messages a frontend exchanges with the host.
//!
//! The plugin's run loop, its connections and the user callbacks stand
//! outside; the functions here decide, from the state and an event, the next
//! state and what is to be sent.

use crate::error::{inv_arg, inv_op, Error, Result};
use crate::text::{decimal, push_str, str_chars, string_from_chars, u64_to_decimal};
use crate::util::{conj_text, enumerate_chars, enumerate_text, seq_views};
use crate::types::arb_data::ArbData;
use crate::types::cycle::Cycle;
use crate::types::measurement::{QubitMeasurementResult, QubitMeasurementValue};
use crate::types::qubit_ref::{QubitRef, QubitRefGenerator};
use crate::types::sequence_number::{SequenceNumber, SequenceNumberGenerator};
use crate::random::RandomNumberGenerator;
use std::collections::{HashMap, VecDeque};
use vstd::prelude::*;

verus! {

broadcast use vstd::std_specs::hash::group_hash_axioms;

/// The role of a plugin in the simulation pipeline.
#[derive(Debug, Clone, Copy, PartialEq, Eq, Structural)]
pub enum PluginType {
    /// The first plugin: sends requests downstream only.
    Frontend,
    /// A plugin in the middle: receives requests from upstream and sends
    /// requests downstream.
    Operator,
    /// The last plugin: receives requests from upstream only.
    Backend,
}

/// The latest measurement of a qubit.
#[derive(Debug, Clone)]
pub struct MeasurementRecord {
    /// The measured value.
    pub value: QubitMeasurementValue,
    /// The data attached to the measurement.
    pub data: ArbData,
    /// The downstream simulation time of the measurement.
    pub timestamp: Cycle,
    /// The time since the measurement before, if there was one.
    pub timer: Option<u64>,
}

/// What is kept for each live downstream qubit.
#[derive(Debug, Clone)]
pub struct QubitRecord {
    /// The latest measurement of the qubit, if any.
    pub measurement: Option<MeasurementRecord>,
    /// The downstream sequence number of the last gate that measured the
    /// qubit; the simulation must be synchronized up to it before the
    /// measurement is read.
    pub last_mutation: SequenceNumber,
}

/// Bookkeeping for the requests received from upstream.
#[derive(Debug)]
pub struct UpstreamState {
    /// The upstream sequence number up to which the user's callbacks have
    /// been called.
    pub issued_up_to: SequenceNumber,
    /// Pairs of a downstream and an upstream sequence number: the upstream
    /// request may only be acknowledged once the downstream one is, since
    /// its measurement results come from downstream. Oldest first.
    pub postponed: Vec<(SequenceNumber, SequenceNumber)>,
    /// The latest upstream sequence number announced as completed.
    pub completed_up_to: SequenceNumber,
    /// References for the qubits the upstream plugin allocates; in step
    /// with the downstream references of the upstream plugin.
    pub qubit_refs: QubitRefGenerator,
}

/// Bookkeeping for the requests sent downstream.
#[derive(Debug)]
pub struct DownstreamState {
    /// Sequence numbers of the requests sent.
    pub sequence_tx: SequenceNumberGenerator,
    /// The latest sequence number acknowledged by the downstream plugin.
    pub sequence_rx: SequenceNumber,
    /// Simulation time as requested.
    pub cycle_tx: Cycle,
    /// Simulation time as acknowledged.
    pub cycle_rx: Cycle,
    /// References for the qubits allocated downstream.
    pub qubit_refs: QubitRefGenerator,
    /// The live qubits, by reference, and what is known of them.
    pub qubits: HashMap<u64, QubitRecord>,
    /// Measurement results received, waiting for the sequence number they
    /// belong to. Oldest first.
    pub measurement_queue: Vec<QubitMeasurementResult>,
    /// For each gate sent that measures qubits, its sequence number and the
    /// qubits whose results are still expected. Oldest first.
    pub expected: Vec<(SequenceNumber, Vec<u64>)>,
}

/// The gatestream state of a plugin.
pub struct PluginState {
    /// The role of the plugin.
    pub typ: PluginType,
    /// Whether the callbacks being run are synchronous to a request; false
    /// while gatestream responses are being handled.
    pub synchronized: bool,
    /// Bookkeeping for upstream requests.
    pub upstream: UpstreamState,
    /// Bookkeeping for downstream requests.
    pub downstream: DownstreamState,
    /// The random number streams, once seeded by the host: one for the
    /// messages from the host, one for those from upstream and one for
    /// those from downstream.
    pub rng: Option<RandomNumberGenerator>,
    /// Whether the frontend's `run()` callback is running.
    pub inside_run: bool,
    /// Messages from the frontend to the host, oldest first.
    pub frontend_to_host_data: VecDeque<ArbData>,
    /// Messages from the host to the frontend, oldest first.
    pub host_to_frontend_data: VecDeque<ArbData>,
    /// Whether the host asked to abort; no message is handled after that.
    pub aborted: bool,
}

/// The message for an API call that backends may not make.
pub open spec fn msg_not_for_backends(call: Seq<char>) -> Seq<char> {
    call + " is not available for backends"@
}

/// The message for an API call made while gatestream responses are being
/// handled.
pub open spec fn msg_not_synchronized(call: Seq<char>) -> Seq<char> {
    call + " cannot be called while handling a gatestream response"@
}

/// The message for a qubit that is not live.
pub open spec fn msg_not_allocated(q: u64) -> Seq<char> {
    "qubit "@ + crate::text::decimal(q as nat) + " is not allocated"@
}

/// Builds the error for an API call that is not allowed in this state.
fn call_error(call: &str, backend: bool) -> (e: Error)
    ensures
        e is InvalidOperation,
        backend ==> e->InvalidOperation_0@ == msg_not_for_backends(call@),
        !backend ==> e->InvalidOperation_0@ == msg_not_synchronized(call@),
{
    let mut msg: Vec<char> = Vec::new();
    push_str(&mut msg, call);
    if backend {
        push_str(&mut msg, " is not available for backends");
        assert(msg@ =~= msg_not_for_backends(call@));
    } else {
        push_str(&mut msg, " cannot be called while handling a gatestream response");
        assert(msg@ =~= msg_not_synchronized(call@));
    }
    Error::InvalidOperation(string_from_chars(&msg))
}

/// Builds the error for a qubit that is not live.
fn not_allocated(q: u64) -> (e: Error)
    ensures
        e is InvalidArgument,
        e->InvalidArgument_0@ == msg_not_allocated(q),
{
    let mut msg: Vec<char> = Vec::new();
    push_str(&mut msg, "qubit ");
    let mut d = u64_to_decimal(q);
    msg.append(&mut d);
    push_str(&mut msg, " is not allocated");
    assert(msg@ =~= msg_not_allocated(q));
    Error::InvalidArgument(string_from_chars(&msg))
}

/// The message for a downstream API call that may not be made now.
pub open spec fn refusal_message(typ: PluginType, synchronized: bool, call: Seq<char>) -> Seq<char> {
    if typ == PluginType::Backend {
        msg_not_for_backends(call)
    } else {
        msg_not_synchronized(call)
    }
}

/// Whether a downstream API call may be made: not by a backend, and only
/// synchronously to a request.
pub open spec fn may_call_downstream(typ: PluginType, synchronized: bool) -> bool {
    typ != PluginType::Backend && synchronized
}

impl PluginState {
    /// The state of a plugin that has not sent or received anything.
    pub fn new(typ: PluginType) -> (s: PluginState)
        ensures
            s.typ == typ,
            s.synchronized,
            s.upstream.issued_up_to.0 == 0,
            s.upstream.postponed@.len() == 0,
            s.upstream.completed_up_to.0 == 0,
            s.upstream.qubit_refs@ == 1,
            s.downstream.sequence_tx@ == 0,
            s.downstream.sequence_rx.0 == 0,
            s.downstream.cycle_tx.0 == 0,
            s.downstream.cycle_rx.0 == 0,
            s.downstream.qubit_refs@ == 1,
            s.downstream.qubits@ == Map::<u64, QubitRecord>::empty(),
            s.downstream.measurement_queue@.len() == 0,
            s.downstream.expected@.len() == 0,
            s.rng is None,
            !s.inside_run,
            s.frontend_to_host_data@.len() == 0,
            s.host_to_frontend_data@.len() == 0,
            !s.aborted,
            s.wf(),
    {
        PluginState {
            typ,
            synchronized: true,
            upstream: UpstreamState {
                issued_up_to: SequenceNumber::none(),
                postponed: Vec::new(),
                completed_up_to: SequenceNumber::none(),
                qubit_refs: QubitRefGenerator::new(),
            },
            downstream: DownstreamState {
                sequence_tx: SequenceNumberGenerator::new(),
                sequence_rx: SequenceNumber::none(),
                cycle_tx: Cycle::t_zero(),
                cycle_rx: Cycle::t_zero(),
                qubit_refs: QubitRefGenerator::new(),
                qubits: HashMap::new(),
                measurement_queue: Vec::new(),
                expected: Vec::new(),
            },
            rng: None,
            inside_run: false,
            frontend_to_host_data: VecDeque::new(),
            host_to_frontend_data: VecDeque::new(),
            aborted: false,
        }
    }

    /// Checks that a downstream API call may be made now.
    fn check_call(&self, call: &str) -> (r: Result<()>)
        ensures
            may_call_downstream(self.typ, self.synchronized) ==> r is Ok,
            self.typ == PluginType::Backend ==> r is Err && r->Err_0 is InvalidOperation
                && r->Err_0->InvalidOperation_0@ == msg_not_for_backends(call@),
            self.typ != PluginType::Backend && !self.synchronized ==> r is Err
                && r->Err_0 is InvalidOperation && r->Err_0->InvalidOperation_0@
                == msg_not_synchronized(call@),
    {
        if self.typ == PluginType::Backend {
            Err(call_error(call, true))
        } else if !self.synchronized {
            Err(call_error(call, false))
        } else {
            Ok(())
        }
    }

    /// Checks that the qubits are live.
    fn check_qubits_live(&self, qubits: &Vec<u64>) -> (r: Result<()>)
        ensures
            r is Ok <==> forall|i: int| 0 <= i < qubits@.len() ==> self.downstream.qubits@.contains_key(
                #[trigger] qubits@[i],
            ),
            r is Err ==> r->Err_0 is InvalidArgument && r->Err_0->InvalidArgument_0@ == msg_not_allocated(
                first_dead(self.downstream.qubits@, qubits@),
            ),
    {
        let mut i: usize = 0;
        while i < qubits.len()
            invariant
                i <= qubits@.len(),
                forall|j: int| 0 <= j < i ==> self.downstream.qubits@.contains_key(
                    #[trigger] qubits@[j],
                ),
            decreases qubits@.len() - i,
        {
            if !self.downstream.qubits.contains_key(&qubits[i]) {
                proof {
                    lemma_first_dead(self.downstream.qubits@, qubits@, i as int);
                }
                return Err(not_allocated(qubits[i]));
            }
            i = i + 1;
        }
        Ok(())
    }
}

/// The first of `qs` that is not a live qubit (0 when all are).
pub open spec fn first_dead(m: Map<u64, QubitRecord>, qs: Seq<u64>) -> u64
    decreases qs.len(),
{
    if qs.len() == 0 {
        0
    } else if !m.contains_key(qs[0]) {
        qs[0]
    } else {
        first_dead(m, qs.drop_first())
    }
}

/// A dead qubit after only live ones is the first dead qubit.
proof fn lemma_first_dead(m: Map<u64, QubitRecord>, qs: Seq<u64>, i: int)
    requires
        0 <= i < qs.len(),
        !m.contains_key(qs[i]),
        forall|j: int| 0 <= j < i ==> m.contains_key(#[trigger] qs[j]),
    ensures
        first_dead(m, qs) == qs[i],
    decreases qs.len(),
{
    if i > 0 {
        assert(m.contains_key(qs[0]));
        assert forall|j: int| 0 <= j < i - 1 implies m.contains_key(#[trigger] qs.drop_first()[j]) by {
            assert(qs.drop_first()[j] == qs[j + 1]);
        }
        lemma_first_dead(m, qs.drop_first(), i - 1);
    }
}

/// The records of freshly allocated qubits `start .. start + n`: no
/// measurement, never mutated.
pub open spec fn fresh_records(start: nat, n: nat) -> Map<u64, QubitRecord> {
    Map::new(
        |k: u64| start <= k < start + n,
        |k: u64| QubitRecord { measurement: None, last_mutation: SequenceNumber(0) },
    )
}

/// Whether the upstream bookkeeping is unchanged.
pub open spec fn same_upstream(a: &UpstreamState, b: &UpstreamState) -> bool {
    &&& a.issued_up_to == b.issued_up_to
    &&& a.postponed@ == b.postponed@
    &&& a.completed_up_to == b.completed_up_to
    &&& a.qubit_refs@ == b.qubit_refs@
}

impl PluginState {
    /// The gatestream invariant: every live qubit has a reference that was
    /// handed out already, no measurement is timed after the acknowledged
    /// simulation time, which is not negative, and once seeded there are
    /// three random number streams.
    pub open spec fn wf(&self) -> bool {
        &&& forall|k: u64| #[trigger]
            self.downstream.qubits@.contains_key(k) ==> 1 <= k < self.downstream.qubit_refs@
        &&& self.downstream.qubit_refs@ >= 1
        &&& 0 <= self.downstream.cycle_rx.0
        &&& forall|k: u64| #[trigger]
            self.downstream.qubits@.contains_key(k) ==> (self.downstream.qubits@[k].measurement matches Some(
                r,
            ) ==> 0 <= r.timestamp.0 <= self.downstream.cycle_rx.0)
        &&& self.rng matches Some(g) ==> g.num_streams() == 3
    }

    /// Allocates `num_qubits` downstream qubits: hands out fresh references,
    /// starts their records, and returns them with the sequence number of
    /// the allocate request to send. Not for backends, and only synchronous
    /// to a request.
    pub fn allocate(&mut self, num_qubits: usize) -> (r: Result<(Vec<QubitRef>, SequenceNumber)>)
        requires
            old(self).wf(),
            may_call_downstream(old(self).typ, old(self).synchronized) ==> (old(self).downstream.qubit_refs@ + num_qubits <= u64::MAX
                && old(self).downstream.sequence_tx@ < u64::MAX),
        ensures
            final(self).wf(),
            !may_call_downstream(old(self).typ, old(self).synchronized) ==> r is Err && r->Err_0 is InvalidOperation
                && r->Err_0->InvalidOperation_0@ == refusal_message(old(self).typ, old(self).synchronized, "allocate()"@) && *final(self) == *old(self),
            may_call_downstream(old(self).typ, old(self).synchronized) ==> r is Ok && {
                let (refs, seq) = r->Ok_0;
                &&& refs@.len() == num_qubits
                &&& forall|i: int| 0 <= i < num_qubits ==> #[trigger] refs@[i].0 == old(self).downstream.qubit_refs@ + i
                &&& seq.0 == old(self).downstream.sequence_tx@ + 1
                &&& final(self).downstream.sequence_tx@ == seq.0
                &&& final(self).downstream.qubit_refs@ == old(self).downstream.qubit_refs@ + num_qubits
                &&& final(self).downstream.qubits@ == old(self).downstream.qubits@.union_prefer_right(
                    fresh_records(old(self).downstream.qubit_refs@, num_qubits as nat),
                )
                &&& final(self).typ == old(self).typ
                &&& final(self).synchronized == old(self).synchronized
                &&& same_upstream(&final(self).upstream, &old(self).upstream)
                &&& final(self).downstream.sequence_rx == old(self).downstream.sequence_rx
                &&& final(self).downstream.cycle_tx == old(self).downstream.cycle_tx
                &&& final(self).downstream.cycle_rx == old(self).downstream.cycle_rx
                &&& final(self).downstream.measurement_queue@ == old(self).downstream.measurement_queue@
                &&& final(self).downstream.expected@ == old(self).downstream.expected@
            },
    {
        if let Err(e) = self.check_call("allocate()") {
            return Err(e);
        }
        let ghost start = self.downstream.qubit_refs@;
        let ghost before = self.downstream.qubits@;
        let qubits = self.downstream.qubit_refs.allocate(num_qubits);
        let mut i: usize = 0;
        while i < qubits.len()
            invariant
                i <= qubits@.len() == num_qubits,
                start + num_qubits <= u64::MAX,
                forall|j: int| 0 <= j < num_qubits ==> #[trigger] qubits@[j].0 == start + j,
                self.downstream.qubits@ == before.union_prefer_right(fresh_records(start, i as nat)),
                old(self).wf(),
                start == old(self).downstream.qubit_refs@,
                before == old(self).downstream.qubits@,
                self.downstream.qubit_refs@ == start + num_qubits,
                self.typ == old(self).typ,
                self.synchronized == old(self).synchronized,
                self.rng == old(self).rng,
                same_upstream(&self.upstream, &old(self).upstream),
                self.downstream.sequence_tx@ == old(self).downstream.sequence_tx@,
                self.downstream.sequence_rx == old(self).downstream.sequence_rx,
                self.downstream.cycle_tx == old(self).downstream.cycle_tx,
                self.downstream.cycle_rx == old(self).downstream.cycle_rx,
                self.downstream.measurement_queue@ == old(self).downstream.measurement_queue@,
                self.downstream.expected@ == old(self).downstream.expected@,
            decreases qubits@.len() - i,
        {
            let q = qubits[i].0;
            self.downstream.qubits.insert(
                q,
                QubitRecord { measurement: None, last_mutation: SequenceNumber::none() },
            );
            assert(self.downstream.qubits@ =~= before.union_prefer_right(
                fresh_records(start, (i + 1) as nat),
            ));
            i = i + 1;
        }
        let seq = self.downstream.sequence_tx.get_next();
        Ok((qubits, seq))
    }
}

/// The distinct values of `s`, each where it first occurs.
pub open spec fn dedup(s: Seq<u64>) -> Seq<u64>
    decreases s.len(),
{
    if s.len() == 0 {
        Seq::empty()
    } else if dedup(s.drop_last()).contains(s.last()) {
        dedup(s.drop_last())
    } else {
        dedup(s.drop_last()).push(s.last())
    }
}

/// The reference values of a list of qubit references.
pub open spec fn ref_values(qubits: Seq<QubitRef>) -> Seq<u64> {
    qubits.map_values(|q: QubitRef| q.0)
}

/// The distinct values of a list, each where it first occurs.
fn dedup_values(s: &Vec<u64>) -> (r: Vec<u64>)
    ensures
        r@ == dedup(s@),
        forall|k: u64| r@.contains(k) <==> s@.contains(k),
{
    let mut r: Vec<u64> = Vec::new();
    let mut i: usize = 0;
    while i < s.len()
        invariant
            i <= s@.len(),
            r@ == dedup(s@.take(i as int)),
            forall|k: u64| r@.contains(k) <==> s@.take(i as int).contains(k),
        decreases s@.len() - i,
    {
        let x = s[i];
        assert(s@.take(i + 1).drop_last() =~= s@.take(i as int));
        let mut found = false;
        let mut j: usize = 0;
        while j < r.len()
            invariant
                j <= r@.len(),
                found == (exists|t: int| 0 <= t < j && r@[t] == x),
            decreases r@.len() - j,
        {
            if r[j] == x {
                found = true;
            }
            j = j + 1;
        }
        let ghost rr = r@;
        assert(found <==> rr.contains(x)) by {
            if rr.contains(x) {
                let t = choose|t: int| 0 <= t < rr.len() && #[trigger] rr[t] == x;
                assert(0 <= t < j && r@[t] == x);
            }
        }
        if !found {
            r.push(x);
        }
        assert forall|k: u64| r@.contains(k) <==> (rr.contains(k) || k == x) by {
            if !found {
                assert(r@ == rr.push(x));
                if rr.contains(k) {
                    let t = choose|t: int| 0 <= t < rr.len() && #[trigger] rr[t] == k;
                    assert(r@[t] == k);
                }
                if r@.contains(k) && k != x {
                    let t = choose|t: int| 0 <= t < r@.len() && #[trigger] r@[t] == k;
                    assert(rr[t] == k);
                }
                assert(r@[rr.len() as int] == x);
            }
        }
        assert forall|k: u64| s@.take(i + 1).contains(k) <==> (s@.take(i as int).contains(k) || k == x) by {
            if s@.take(i + 1).contains(k) {
                let t = choose|t: int| 0 <= t < i + 1 && #[trigger] s@.take(i + 1)[t] == k;
                if t < i {
                    assert(s@.take(i as int)[t] == k);
                }
            }
            if s@.take(i as int).contains(k) {
                let t = choose|t: int| 0 <= t < i && #[trigger] s@.take(i as int)[t] == k;
                assert(s@.take(i + 1)[t] == k);
            }
            assert(s@.take(i + 1)[i as int] == x);
        }
        assert(s@.take(i + 1).last() == x);
        assert forall|k: u64| r@.contains(k) <==> s@.take(i + 1).contains(k) by {
            assert(r@.contains(k) <==> (rr.contains(k) || k == x));
            assert(s@.take(i + 1).contains(k) <==> (s@.take(i as int).contains(k) || k == x));
            assert(rr.contains(k) <==> s@.take(i as int).contains(k));
        }
        i = i + 1;
    }
    assert(s@.take(i as int) =~= s@);
    r
}

/// The reference values of a list of qubit references.
fn qubit_values(qubits: &Vec<QubitRef>) -> (r: Vec<u64>)
    ensures
        r@ == ref_values(qubits@),
{
    let mut r: Vec<u64> = Vec::new();
    let mut i: usize = 0;
    while i < qubits.len()
        invariant
            i <= qubits@.len(),
            r@ =~= ref_values(qubits@).take(i as int),
        decreases qubits@.len() - i,
    {
        r.push(qubits[i].0);
        i = i + 1;
    }
    assert(ref_values(qubits@).take(i as int) =~= ref_values(qubits@));
    r
}

impl PluginState {
    /// Frees downstream qubits, which must all be live: drops their records
    /// and returns the sequence number of the free request to send. Not for
    /// backends, and only synchronous to a request.
    pub fn free(&mut self, qubits: Vec<QubitRef>) -> (r: Result<SequenceNumber>)
        requires
            old(self).wf(),
            may_call_downstream(old(self).typ, old(self).synchronized) ==> old(self).downstream.sequence_tx@ < u64::MAX,
        ensures
            final(self).wf(),
            !may_call_downstream(old(self).typ, old(self).synchronized) ==> r is Err && r->Err_0 is InvalidOperation
                && r->Err_0->InvalidOperation_0@ == refusal_message(old(self).typ, old(self).synchronized, "free()"@)
                && *final(self) == *old(self),
            may_call_downstream(old(self).typ, old(self).synchronized) && (exists|i: int|
                0 <= i < qubits@.len() && !old(self).downstream.qubits@.contains_key(
                    #[trigger] qubits@[i].0,
                )) ==> r is Err && r->Err_0 is InvalidArgument && r->Err_0->InvalidArgument_0@
                == msg_not_allocated(first_dead(old(self).downstream.qubits@, ref_values(qubits@)))
                && *final(self) == *old(self),
            may_call_downstream(old(self).typ, old(self).synchronized) && (forall|i: int|
                0 <= i < qubits@.len() ==> old(self).downstream.qubits@.contains_key(
                    #[trigger] qubits@[i].0,
                )) ==> r is Ok && {
                let seq = r->Ok_0;
                &&& seq.0 == old(self).downstream.sequence_tx@ + 1
                &&& final(self).downstream.sequence_tx@ == seq.0
                &&& final(self).downstream.qubits@ == old(self).downstream.qubits@.remove_keys(
                    ref_values(qubits@).to_set(),
                )
                &&& final(self).downstream.qubit_refs@ == old(self).downstream.qubit_refs@
                &&& final(self).typ == old(self).typ
                &&& final(self).synchronized == old(self).synchronized
                &&& same_upstream(&final(self).upstream, &old(self).upstream)
                &&& final(self).downstream.sequence_rx == old(self).downstream.sequence_rx
                &&& final(self).downstream.cycle_tx == old(self).downstream.cycle_tx
                &&& final(self).downstream.cycle_rx == old(self).downstream.cycle_rx
                &&& final(self).downstream.measurement_queue@ == old(self).downstream.measurement_queue@
                &&& final(self).downstream.expected@ == old(self).downstream.expected@
            },
    {
        if let Err(e) = self.check_call("free()") {
            return Err(e);
        }
        let values = qubit_values(&qubits);
        if let Err(e) = self.check_qubits_live(&values) {
            proof {
                let i = choose|i: int| 0 <= i < values@.len() && !self.downstream.qubits@.contains_key(values@[i]);
                assert(values@[i] == qubits@[i].0);
            }
            return Err(e);
        }
        assert forall|i: int| 0 <= i < qubits@.len() implies self.downstream.qubits@.contains_key(
            #[trigger] qubits@[i].0,
        ) by {
            assert(values@[i] == qubits@[i].0);
        }
        let seq = self.downstream.sequence_tx.get_next();
        let ghost before = self.downstream.qubits@;
        let mut i: usize = 0;
        while i < values.len()
            invariant
                i <= values@.len(),
                values@ == ref_values(qubits@),
                self.downstream.qubits@ == before.remove_keys(values@.take(i as int).to_set()),
                old(self).wf(),
                before == old(self).downstream.qubits@,
                self.downstream.qubit_refs@ == old(self).downstream.qubit_refs@,
                self.typ == old(self).typ,
                self.synchronized == old(self).synchronized,
                self.rng == old(self).rng,
                same_upstream(&self.upstream, &old(self).upstream),
                self.downstream.sequence_tx@ == seq.0,
                seq.0 == old(self).downstream.sequence_tx@ + 1,
                self.downstream.sequence_rx == old(self).downstream.sequence_rx,
                self.downstream.cycle_tx == old(self).downstream.cycle_tx,
                self.downstream.cycle_rx == old(self).downstream.cycle_rx,
                self.downstream.measurement_queue@ == old(self).downstream.measurement_queue@,
                self.downstream.expected@ == old(self).downstream.expected@,
            decreases values@.len() - i,
        {
            self.downstream.qubits.remove(&values[i]);
            assert(values@.take(i + 1) =~= values@.take(i as int).push(values@[i as int]));
            proof {
                values@.take(i as int).lemma_push_to_set_commute(values@[i as int]);
            }
            assert(self.downstream.qubits@ =~= before.remove_keys(values@.take(i + 1).to_set()));
            i = i + 1;
        }
        assert(values@.take(i as int) =~= values@);
        self.downstream.qubit_refs.free(qubits);
        Ok(seq)
    }
}

/// The records after a gate with sequence number `seq` that measures `qs`:
/// the measured qubits were last mutated by it.
pub open spec fn mark_mutated(m: Map<u64, QubitRecord>, qs: Seq<u64>, seq: SequenceNumber) -> Map<
    u64,
    QubitRecord,
> {
    Map::new(
        |k: u64| m.contains_key(k),
        |k: u64|
            if qs.contains(k) {
                QubitRecord { measurement: m[k].measurement, last_mutation: seq }
            } else {
                m[k]
            },
    )
}

/// The sequence numbers and qubit sets of the expected measurements.
pub open spec fn expected_view(e: Seq<(SequenceNumber, Vec<u64>)>) -> Seq<(SequenceNumber, Seq<u64>)> {
    e.map_values(|p: (SequenceNumber, Vec<u64>)| (p.0, p.1@))
}

/// Whether all the given qubits are live.
pub open spec fn all_live(m: Map<u64, QubitRecord>, qs: Seq<u64>) -> bool {
    forall|i: int| 0 <= i < qs.len() ==> m.contains_key(#[trigger] qs[i])
}

impl PluginState {
    /// Sends a gate downstream, given its target, control and measured
    /// qubits, which must all be live: records this gate as the last
    /// mutation of the measured qubits, expects their measurements, and
    /// returns the sequence number of its gate request to send. Not for
    /// backends, and only synchronous to a request.
    pub fn gate(&mut self, targets: &Vec<QubitRef>, controls: &Vec<QubitRef>, measures: &Vec<QubitRef>) -> (r:
        Result<SequenceNumber>)
        requires
            old(self).wf(),
            may_call_downstream(old(self).typ, old(self).synchronized) ==> old(self).downstream.sequence_tx@ < u64::MAX,
        ensures
            final(self).wf(),
            !may_call_downstream(old(self).typ, old(self).synchronized) ==> r is Err && r->Err_0 is InvalidOperation
                && r->Err_0->InvalidOperation_0@ == refusal_message(old(self).typ, old(self).synchronized, "gate()"@)
                && *final(self) == *old(self),
            may_call_downstream(old(self).typ, old(self).synchronized) && !all_live(
                old(self).downstream.qubits@,
                ref_values(targets@) + ref_values(controls@) + ref_values(measures@),
            ) ==> r is Err && r->Err_0 is InvalidArgument && r->Err_0->InvalidArgument_0@ == msg_not_allocated(
                first_dead(
                    old(self).downstream.qubits@,
                    ref_values(targets@) + ref_values(controls@) + ref_values(measures@),
                ),
            ) && *final(self) == *old(self),
            may_call_downstream(old(self).typ, old(self).synchronized) && all_live(
                old(self).downstream.qubits@,
                ref_values(targets@) + ref_values(controls@) + ref_values(measures@),
            ) ==> r is Ok && {
                let seq = r->Ok_0;
                &&& seq.0 == old(self).downstream.sequence_tx@ + 1
                &&& final(self).downstream.sequence_tx@ == seq.0
                &&& final(self).downstream.qubits@ == mark_mutated(
                    old(self).downstream.qubits@,
                    ref_values(measures@),
                    seq,
                )
                &&& expected_view(final(self).downstream.expected@) == if measures@.len() > 0 {
                    expected_view(old(self).downstream.expected@).push((seq, dedup(ref_values(measures@))))
                } else {
                    expected_view(old(self).downstream.expected@)
                }
                &&& final(self).downstream.qubit_refs@ == old(self).downstream.qubit_refs@
                &&& final(self).typ == old(self).typ
                &&& final(self).synchronized == old(self).synchronized
                &&& same_upstream(&final(self).upstream, &old(self).upstream)
                &&& final(self).downstream.sequence_rx == old(self).downstream.sequence_rx
                &&& final(self).downstream.cycle_tx == old(self).downstream.cycle_tx
                &&& final(self).downstream.cycle_rx == old(self).downstream.cycle_rx
                &&& final(self).downstream.measurement_queue@ == old(self).downstream.measurement_queue@
            },
    {
        if let Err(e) = self.check_call("gate()") {
            return Err(e);
        }
        let mut all = qubit_values(targets);
        let mut c = qubit_values(controls);
        all.append(&mut c);
        let mv = qubit_values(measures);
        let mut m2 = vstd::slice::slice_to_vec(mv.as_slice());
        all.append(&mut m2);
        assert(all@ =~= ref_values(targets@) + ref_values(controls@) + ref_values(measures@));
        if let Err(e) = self.check_qubits_live(&all) {
            return Err(e);
        }
        let measured = dedup_values(&mv);
        let seq = self.downstream.sequence_tx.get_next();
        let ghost before = self.downstream.qubits@;
        assert forall|i: int| 0 <= i < measured@.len() implies before.contains_key(#[trigger] measured@[i]) by {
            assert(measured@.contains(measured@[i]));
            assert(mv@.contains(measured@[i]));
            let t = choose|t: int| 0 <= t < mv@.len() && #[trigger] mv@[t] == measured@[i];
            assert(all@[ref_values(targets@).len() + ref_values(controls@).len() + t] == mv@[t]);
        }
        let mut j: usize = 0;
        while j < measured.len()
            invariant
                j <= measured@.len(),
                forall|i: int| 0 <= i < measured@.len() ==> before.contains_key(#[trigger] measured@[i]),
                self.downstream.qubits@ == mark_mutated(before, measured@.take(j as int), seq),
                old(self).wf(),
                before == old(self).downstream.qubits@,
                self.downstream.qubit_refs@ == old(self).downstream.qubit_refs@,
                self.typ == old(self).typ,
                self.synchronized == old(self).synchronized,
                self.rng == old(self).rng,
                same_upstream(&self.upstream, &old(self).upstream),
                self.downstream.sequence_tx@ == seq.0,
                seq.0 == old(self).downstream.sequence_tx@ + 1,
                self.downstream.sequence_rx == old(self).downstream.sequence_rx,
                self.downstream.cycle_tx == old(self).downstream.cycle_tx,
                self.downstream.cycle_rx == old(self).downstream.cycle_rx,
                self.downstream.measurement_queue@ == old(self).downstream.measurement_queue@,
                self.downstream.expected@ == old(self).downstream.expected@,
            decreases measured@.len() - j,
        {
            let q = measured[j];
            assert(before.contains_key(q));
            let removed = self.downstream.qubits.remove(&q);
            match removed {
                Some(rec) => {
                    let updated = QubitRecord { measurement: rec.measurement, last_mutation: seq };
                    self.downstream.qubits.insert(q, updated);
                },
                None => {},
            }
            assert(self.downstream.qubits@ =~= mark_mutated(before, measured@.take(j + 1), seq)) by {
                assert(measured@.take(j + 1) =~= measured@.take(j as int).push(q));
                assert forall|k: u64| measured@.take(j + 1).contains(k) <==> (measured@.take(j as int).contains(k) || k == q) by {
                    if measured@.take(j + 1).contains(k) {
                        let t = choose|t: int| 0 <= t < j + 1 && #[trigger] measured@.take(j + 1)[t] == k;
                        if t < j {
                            assert(measured@.take(j as int)[t] == k);
                        }
                    }
                    if measured@.take(j as int).contains(k) {
                        let t = choose|t: int| 0 <= t < j && #[trigger] measured@.take(j as int)[t] == k;
                        assert(measured@.take(j + 1)[t] == k);
                    }
                    assert(measured@.take(j + 1)[j as int] == q);
                }
            }
            j = j + 1;
        }
        assert(measured@.take(j as int) =~= measured@);
        assert(mark_mutated(before, measured@, seq) =~= mark_mutated(before, mv@, seq));
        if mv.len() > 0 {
            let ghost ex = self.downstream.expected@;
            self.downstream.expected.push((seq, measured));
            assert(expected_view(self.downstream.expected@) =~= expected_view(ex).push((seq, dedup(mv@))));
        }
        Ok(seq)
    }
}

impl PluginState {
    /// Advances the requested simulation time and returns it, with the
    /// sequence number of the advance request to send. Not for backends,
    /// and only synchronous to a request.
    pub fn advance(&mut self, cycles: u64) -> (r: Result<(Cycle, SequenceNumber)>)
        requires
            old(self).wf(),
            may_call_downstream(old(self).typ, old(self).synchronized) ==> (old(self).downstream.sequence_tx@ < u64::MAX && cycles <= i64::MAX
                && old(self).downstream.cycle_tx.0 + cycles <= i64::MAX),
        ensures
            final(self).wf(),
            !may_call_downstream(old(self).typ, old(self).synchronized) ==> r is Err && r->Err_0 is InvalidOperation
                && r->Err_0->InvalidOperation_0@ == refusal_message(old(self).typ, old(self).synchronized, "advance()"@)
                && *final(self) == *old(self),
            may_call_downstream(old(self).typ, old(self).synchronized) ==> r is Ok && {
                let (now, seq) = r->Ok_0;
                &&& now == old(self).downstream.cycle_tx.advanced(cycles as nat)
                &&& final(self).downstream.cycle_tx == now
                &&& seq.0 == old(self).downstream.sequence_tx@ + 1
                &&& final(self).downstream.sequence_tx@ == seq.0
                &&& final(self).downstream.qubits@ == old(self).downstream.qubits@
                &&& final(self).downstream.qubit_refs@ == old(self).downstream.qubit_refs@
                &&& final(self).typ == old(self).typ
                &&& final(self).synchronized == old(self).synchronized
                &&& same_upstream(&final(self).upstream, &old(self).upstream)
                &&& final(self).downstream.sequence_rx == old(self).downstream.sequence_rx
                &&& final(self).downstream.cycle_rx == old(self).downstream.cycle_rx
                &&& final(self).downstream.measurement_queue@ == old(self).downstream.measurement_queue@
                &&& final(self).downstream.expected@ == old(self).downstream.expected@
            },
    {
        if let Err(e) = self.check_call("advance()") {
            return Err(e);
        }
        self.downstream.cycle_tx = self.downstream.cycle_tx.advance(cycles);
        let seq = self.downstream.sequence_tx.get_next();
        Ok((self.downstream.cycle_tx, seq))
    }

    /// Returns the requested simulation time. Not for backends, and only
    /// synchronous to a request.
    pub fn get_cycle(&self) -> (r: Result<Cycle>)
        ensures
            !may_call_downstream(self.typ, self.synchronized) ==> r is Err && r->Err_0 is InvalidOperation
                && r->Err_0->InvalidOperation_0@ == refusal_message(self.typ, self.synchronized, "get_cycle()"@),
            may_call_downstream(self.typ, self.synchronized) ==> r == Ok::<Cycle, Error>(
                self.downstream.cycle_tx,
            ),
    {
        if let Err(e) = self.check_call("get_cycle()") {
            return Err(e);
        }
        Ok(self.downstream.cycle_tx)
    }

    /// Queues a measurement result received from downstream until the
    /// sequence number it belongs to arrives.
    pub fn received_measurement(&mut self, measurement: QubitMeasurementResult)
        requires
            old(self).wf(),
        ensures
            final(self).wf(),
            final(self).downstream.measurement_queue@ == old(self).downstream.measurement_queue@.push(measurement),
            final(self).typ == old(self).typ,
            final(self).synchronized == old(self).synchronized,
            same_upstream(&final(self).upstream, &old(self).upstream),
            final(self).downstream.sequence_tx@ == old(self).downstream.sequence_tx@,
            final(self).downstream.sequence_rx == old(self).downstream.sequence_rx,
            final(self).downstream.cycle_tx == old(self).downstream.cycle_tx,
            final(self).downstream.cycle_rx == old(self).downstream.cycle_rx,
            final(self).downstream.qubit_refs@ == old(self).downstream.qubit_refs@,
            final(self).downstream.qubits@ == old(self).downstream.qubits@,
            final(self).downstream.expected@ == old(self).downstream.expected@,
    {
        self.downstream.measurement_queue.push(measurement);
    }

    /// Advances the acknowledged simulation time after the downstream plugin
    /// reports that it advanced.
    pub fn received_advanced(&mut self, cycles: u64)
        requires
            old(self).wf(),
            cycles <= i64::MAX,
            old(self).downstream.cycle_rx.0 + cycles <= i64::MAX,
        ensures
            final(self).wf(),
            final(self).downstream.cycle_rx == old(self).downstream.cycle_rx.advanced(cycles as nat),
            final(self).typ == old(self).typ,
            final(self).synchronized == old(self).synchronized,
            same_upstream(&final(self).upstream, &old(self).upstream),
            final(self).downstream.sequence_tx@ == old(self).downstream.sequence_tx@,
            final(self).downstream.sequence_rx == old(self).downstream.sequence_rx,
            final(self).downstream.cycle_tx == old(self).downstream.cycle_tx,
            final(self).downstream.qubit_refs@ == old(self).downstream.qubit_refs@,
            final(self).downstream.qubits@ == old(self).downstream.qubits@,
            final(self).downstream.measurement_queue@ == old(self).downstream.measurement_queue@,
            final(self).downstream.expected@ == old(self).downstream.expected@,
    {
        self.downstream.cycle_rx = self.downstream.cycle_rx.advance(cycles);
    }

    /// Sets whether the callbacks being run are synchronous to a request.
    pub fn set_synchronized(&mut self, synchronized: bool)
        requires
            old(self).wf(),
        ensures
            final(self).wf(),
            final(self).synchronized == synchronized,
            final(self).typ == old(self).typ,
            same_upstream(&final(self).upstream, &old(self).upstream),
            final(self).downstream.sequence_tx@ == old(self).downstream.sequence_tx@,
            final(self).downstream.sequence_rx == old(self).downstream.sequence_rx,
            final(self).downstream.cycle_tx == old(self).downstream.cycle_tx,
            final(self).downstream.cycle_rx == old(self).downstream.cycle_rx,
            final(self).downstream.qubit_refs@ == old(self).downstream.qubit_refs@,
            final(self).downstream.qubits@ == old(self).downstream.qubits@,
            final(self).downstream.measurement_queue@ == old(self).downstream.measurement_queue@,
            final(self).downstream.expected@ == old(self).downstream.expected@,
    {
        self.synchronized = synchronized;
    }
}

/// What is known of a measurement: value, data, time, and time since the
/// measurement before.
pub struct MeasurementView {
    pub value: QubitMeasurementValue,
    pub data: (Seq<u8>, Seq<Seq<u8>>),
    pub timestamp: i64,
    pub timer: Option<u64>,
}

/// What is known of a live qubit.
pub struct RecordView {
    pub measurement: Option<MeasurementView>,
    pub last_mutation: u64,
}

/// A measurement result: qubit, value and data.
pub struct ResultView {
    pub qubit: u64,
    pub value: QubitMeasurementValue,
    pub data: (Seq<u8>, Seq<Seq<u8>>),
}

/// The view of a qubit record.
pub open spec fn record_view(r: QubitRecord) -> RecordView {
    RecordView {
        measurement: match r.measurement {
            Some(m) => Some(
                MeasurementView {
                    value: m.value,
                    data: m.data@,
                    timestamp: m.timestamp.0,
                    timer: m.timer,
                },
            ),
            None => None,
        },
        last_mutation: r.last_mutation.0,
    }
}

/// The views of the qubit records.
pub open spec fn records_view(m: Map<u64, QubitRecord>) -> Map<u64, RecordView> {
    m.map_values(|r: QubitRecord| record_view(r))
}

/// The view of a measurement result.
pub open spec fn result_view(m: QubitMeasurementResult) -> ResultView {
    ResultView { qubit: m.qubit.0, value: m.value, data: m.data@ }
}

/// The views of a list of measurement results.
pub open spec fn results_view(s: Seq<QubitMeasurementResult>) -> Seq<ResultView> {
    s.map_values(|m: QubitMeasurementResult| result_view(m))
}

/// The records after caching a measurement result at simulation time
/// `now`: the qubit's latest measurement becomes the result, timed at `now`
/// and `now` less the time of the measurement before, if any. A qubit that
/// is not live is left alone.
pub open spec fn cache_view(recs: Map<u64, RecordView>, r: ResultView, now: i64) -> Map<u64, RecordView> {
    if recs.contains_key(r.qubit) {
        recs.insert(
            r.qubit,
            RecordView {
                measurement: Some(
                    MeasurementView {
                        value: r.value,
                        data: r.data,
                        timestamp: now,
                        timer: match recs[r.qubit].measurement {
                            Some(p) => Some((now - p.timestamp) as u64),
                            None => None,
                        },
                    },
                ),
                last_mutation: recs[r.qubit].last_mutation,
            },
        )
    } else {
        recs
    }
}

/// A copy of a measurement result.
fn copy_result(m: &QubitMeasurementResult) -> (r: QubitMeasurementResult)
    ensures
        result_view(r) == result_view(*m),
{
    let mut data = ArbData::default();
    data.copy_from(&m.data);
    QubitMeasurementResult::new(m.qubit, m.value, data)
}

impl PluginState {
    /// Caches a measurement result as the latest measurement of its qubit,
    /// timed at the acknowledged simulation time; a qubit that is not live
    /// (any more) is left alone. Returns whether the qubit was live. An
    /// operator forwards the result upstream afterwards, through its
    /// `modify_measurement()` callback.
    fn handle_measurement(&mut self, m: &QubitMeasurementResult) -> (cached: bool)
        requires
            old(self).wf(),
        ensures
            final(self).wf(),
            cached == old(self).downstream.qubits@.contains_key(m.qubit.0),
            records_view(final(self).downstream.qubits@) == cache_view(
                records_view(old(self).downstream.qubits@),
                result_view(*m),
                old(self).downstream.cycle_rx.0,
            ),
            final(self).downstream.qubits@.dom() == old(self).downstream.qubits@.dom(),
            final(self).typ == old(self).typ,
            final(self).synchronized == old(self).synchronized,
            same_upstream(&final(self).upstream, &old(self).upstream),
            final(self).downstream.sequence_tx@ == old(self).downstream.sequence_tx@,
            final(self).downstream.sequence_rx == old(self).downstream.sequence_rx,
            final(self).downstream.cycle_tx == old(self).downstream.cycle_tx,
            final(self).downstream.cycle_rx == old(self).downstream.cycle_rx,
            final(self).downstream.qubit_refs@ == old(self).downstream.qubit_refs@,
            final(self).downstream.measurement_queue@ == old(self).downstream.measurement_queue@,
            final(self).downstream.expected@ == old(self).downstream.expected@,
    {
        let q = m.qubit.0;
        let ghost before = self.downstream.qubits@;
        match self.downstream.qubits.remove(&q) {
            None => {
                assert(self.downstream.qubits@ =~= before);
                false
            },
            Some(rec) => {
                let now = self.downstream.cycle_rx;
                assert(before.contains_key(q));
                let timer = match &rec.measurement {
                    Some(p) => Some((now.0 - p.timestamp.0) as u64),
                    None => None,
                };
                let mut data = ArbData::default();
                data.copy_from(&m.data);
                let updated = QubitRecord {
                    measurement: Some(
                        MeasurementRecord { value: m.value, data, timestamp: now, timer },
                    ),
                    last_mutation: rec.last_mutation,
                };
                self.downstream.qubits.insert(q, updated);
                assert(records_view(self.downstream.qubits@) =~= cache_view(
                    records_view(before),
                    result_view(*m),
                    now.0,
                ));
                assert(self.downstream.qubits@.dom() =~= before.dom());
                true
            },
        }
    }
}

/// What handling the queued measurement results works on: the expected
/// measurements, the qubit records, and the results to forward upstream.
pub struct SyncView {
    pub expected: Seq<(SequenceNumber, Seq<u64>)>,
    pub records: Map<u64, RecordView>,
    pub forwarded: Seq<ResultView>,
}

/// `s` without the first occurrence of `x`.
pub open spec fn remove_first(s: Seq<u64>, x: u64) -> Seq<u64>
    decreases s.len(),
{
    if s.len() == 0 {
        s
    } else if s[0] == x {
        s.drop_first()
    } else {
        seq![s[0]] + remove_first(s.drop_first(), x)
    }
}

/// Handles one queued measurement result: it is taken when the oldest gate
/// still expecting measurements is acknowledged by `rx` and expects this
/// qubit; then the qubit is no longer expected (that gate is done when no
/// qubit is left), the result is cached, and, for an operator, forwarded
/// upstream if the qubit is live. Any other result is ignored.
pub open spec fn take_queued(st: SyncView, m: ResultView, rx: u64, now: i64, operator: bool) -> SyncView {
    if st.expected.len() > 0 && rx >= st.expected[0].0.0 && st.expected[0].1.contains(m.qubit) {
        let rest = remove_first(st.expected[0].1, m.qubit);
        SyncView {
            expected: if rest.len() == 0 {
                st.expected.drop_first()
            } else {
                st.expected.update(0, (st.expected[0].0, rest))
            },
            records: cache_view(st.records, m, now),
            forwarded: if operator && st.records.contains_key(m.qubit) {
                st.forwarded.push(m)
            } else {
                st.forwarded
            },
        }
    } else {
        st
    }
}

/// Handles the queued measurement results in order.
pub open spec fn take_all_queued(st: SyncView, queue: Seq<ResultView>, rx: u64, now: i64, operator: bool) -> SyncView
    decreases queue.len(),
{
    if queue.len() == 0 {
        st
    } else {
        take_all_queued(take_queued(st, queue[0], rx, now, operator), queue.drop_first(), rx, now, operator)
    }
}

/// The result that stands in for a measurement that never came: undefined,
/// with `{}` and no binary strings as its data.
pub open spec fn undefined_result(q: u64) -> ResultView {
    ResultView {
        qubit: q,
        value: QubitMeasurementValue::Undefined,
        data: (crate::types::arb_data::empty_cbor(), Seq::empty()),
    }
}

/// Caches undefined results for the given qubits, in order, forwarding them
/// upstream for an operator when the qubit is live.
pub open spec fn fill_missing(
    records: Map<u64, RecordView>,
    forwarded: Seq<ResultView>,
    qs: Seq<u64>,
    now: i64,
    operator: bool,
) -> (Map<u64, RecordView>, Seq<ResultView>)
    decreases qs.len(),
{
    if qs.len() == 0 {
        (records, forwarded)
    } else {
        let m = undefined_result(qs[0]);
        fill_missing(
            cache_view(records, m, now),
            if operator && records.contains_key(qs[0]) {
                forwarded.push(m)
            } else {
                forwarded
            },
            qs.drop_first(),
            now,
            operator,
        )
    }
}

/// Drops the gates acknowledged by `rx` that still expect measurements,
/// oldest first, filling in undefined results for what they still expect.
pub open spec fn flush_acknowledged(st: SyncView, rx: u64, now: i64, operator: bool) -> SyncView
    decreases st.expected.len(),
{
    if st.expected.len() > 0 && rx >= st.expected[0].0.0 {
        let filled = fill_missing(st.records, st.forwarded, st.expected[0].1, now, operator);
        flush_acknowledged(
            SyncView { expected: st.expected.drop_first(), records: filled.0, forwarded: filled.1 },
            rx,
            now,
            operator,
        )
    } else {
        st
    }
}

/// The postponed acknowledgements left once those whose downstream request
/// `rx` acknowledges are dropped, oldest first.
pub open spec fn drop_acknowledged(p: Seq<(SequenceNumber, SequenceNumber)>, rx: u64) -> Seq<
    (SequenceNumber, SequenceNumber),
>
    decreases p.len(),
{
    if p.len() > 0 && rx >= p[0].0.0 {
        drop_acknowledged(p.drop_first(), rx)
    } else {
        p
    }
}

/// The upstream sequence number up to which requests are completed: the
/// one issued last, but before the oldest request whose measurement results
/// are postponed.
pub open spec fn completion_point(issued: SequenceNumber, postponed: Seq<(SequenceNumber, SequenceNumber)>) -> SequenceNumber {
    if postponed.len() > 0 && issued.comes_after(postponed[0].1.predecessor()) {
        postponed[0].1.predecessor()
    } else {
        issued
    }
}

/// The completion point is the latest upstream request that may be
/// announced: it is not after the last request issued, it comes before the
/// oldest request whose results are postponed, and every request that meets
/// both bounds is at or before it. So with requests issued up to 5 and the
/// results of 4 postponed, requests up to 3 are complete.
pub proof fn lemma_completion_is_greatest(
    issued: SequenceNumber,
    postponed: Seq<(SequenceNumber, SequenceNumber)>,
    t: SequenceNumber,
)
    ensures
        !completion_point(issued, postponed).comes_after(issued),
        postponed.len() > 0 ==> !completion_point(issued, postponed).comes_after(
            postponed[0].1.predecessor(),
        ),
        !t.comes_after(issued) && (postponed.len() > 0 ==> !t.comes_after(postponed[0].1.predecessor()))
            ==> !t.comes_after(completion_point(issued, postponed)),
{
}

/// The position of the first `x` in `s`, if any.
fn find_value(s: &Vec<u64>, x: u64) -> (r: Option<usize>)
    ensures
        r is None <==> !s@.contains(x),
        r matches Some(p) ==> p < s@.len() && s@[p as int] == x && remove_first(s@, x) == s@.remove(p as int),
{
    let mut i: usize = 0;
    while i < s.len()
        invariant
            i <= s@.len(),
            forall|j: int| 0 <= j < i ==> s@[j] != x,
        decreases s@.len() - i,
    {
        if s[i] == x {
            proof {
                lemma_remove_first_at(s@, x, i as int);
            }
            return Some(i);
        }
        i = i + 1;
    }
    None
}

/// Removing the first `x` removes it at its first position.
proof fn lemma_remove_first_at(s: Seq<u64>, x: u64, p: int)
    requires
        0 <= p < s.len(),
        s[p] == x,
        forall|j: int| 0 <= j < p ==> s[j] != x,
    ensures
        remove_first(s, x) == s.remove(p),
    decreases p,
{
    if p == 0 {
        assert(s.drop_first() =~= s.remove(0));
    } else {
        lemma_remove_first_at(s.drop_first(), x, p - 1);
        assert(seq![s[0]] + s.drop_first().remove(p - 1) =~= s.remove(p));
    }
}

impl PluginState {
    /// Announces completion upstream when possible: returns the upstream
    /// sequence number to acknowledge with `CompletedUpTo` when it comes
    /// after the one acknowledged last, and records it.
    pub fn check_completed_up_to(&mut self) -> (r: Option<SequenceNumber>)
        requires
            old(self).wf(),
        ensures
            final(self).wf(),
            ({
                let c = completion_point(old(self).upstream.issued_up_to, old(self).upstream.postponed@);
                &&& c.comes_after(old(self).upstream.completed_up_to) ==> r == Some(c)
                    && final(self).upstream.completed_up_to == c
                &&& !c.comes_after(old(self).upstream.completed_up_to) ==> r is None
                    && final(self).upstream.completed_up_to == old(self).upstream.completed_up_to
            }),
            final(self).upstream.issued_up_to == old(self).upstream.issued_up_to,
            final(self).upstream.postponed@ == old(self).upstream.postponed@,
            final(self).typ == old(self).typ,
            final(self).synchronized == old(self).synchronized,
            final(self).downstream.sequence_tx@ == old(self).downstream.sequence_tx@,
            final(self).downstream.sequence_rx == old(self).downstream.sequence_rx,
            final(self).downstream.cycle_tx == old(self).downstream.cycle_tx,
            final(self).downstream.cycle_rx == old(self).downstream.cycle_rx,
            final(self).downstream.qubit_refs@ == old(self).downstream.qubit_refs@,
            final(self).downstream.qubits@ == old(self).downstream.qubits@,
            final(self).downstream.measurement_queue@ == old(self).downstream.measurement_queue@,
            final(self).downstream.expected@ == old(self).downstream.expected@,
    {
        let mut completed_up_to = self.upstream.issued_up_to;
        if self.upstream.postponed.len() > 0 {
            let upstream = self.upstream.postponed[0].1;
            if completed_up_to.after(upstream.preceding()) {
                completed_up_to = upstream.preceding();
            }
        }
        if completed_up_to.after(self.upstream.completed_up_to) {
            self.upstream.completed_up_to = completed_up_to;
            Some(completed_up_to)
        } else {
            None
        }
    }
}

/// The view of what handling queued results works on.
pub open spec fn sync_view(st: &PluginState, forwarded: Seq<QubitMeasurementResult>) -> SyncView {
    SyncView {
        expected: expected_view(st.downstream.expected@),
        records: records_view(st.downstream.qubits@),
        forwarded: results_view(forwarded),
    }
}

/// Whether two states agree on all but the expected measurements, the
/// qubit records' contents, the queue, the acknowledged sequence number and
/// the postponed acknowledgements.
pub open spec fn same_outside_sync(a: &PluginState, b: &PluginState) -> bool {
    &&& a.typ == b.typ
    &&& a.synchronized == b.synchronized
    &&& a.upstream.issued_up_to == b.upstream.issued_up_to
    &&& a.upstream.completed_up_to == b.upstream.completed_up_to
    &&& a.downstream.sequence_tx@ == b.downstream.sequence_tx@
    &&& a.downstream.cycle_tx == b.downstream.cycle_tx
    &&& a.downstream.cycle_rx == b.downstream.cycle_rx
    &&& a.downstream.qubit_refs@ == b.downstream.qubit_refs@
    &&& a.downstream.qubits@.dom() == b.downstream.qubits@.dom()
}

/// An undefined measurement result for a qubit, with `{}` and no binary
/// strings as its data.
fn undefined_measurement(q: u64) -> (m: QubitMeasurementResult)
    ensures
        result_view(m) == undefined_result(q),
{
    QubitMeasurementResult::new(QubitRef(q), QubitMeasurementValue::Undefined, ArbData::default())
}

impl PluginState {
    /// Caches a measurement result and adds it to `forwarded` when the qubit
    /// is live and the plugin is an operator.
    fn cache_and_forward(&mut self, m: QubitMeasurementResult, forwarded: &mut Vec<QubitMeasurementResult>)
        requires
            old(self).wf(),
        ensures
            final(self).wf(),
            same_outside_sync(final(self), old(self)),
            final(self).upstream.postponed@ == old(self).upstream.postponed@,
            final(self).downstream.sequence_rx == old(self).downstream.sequence_rx,
            final(self).downstream.measurement_queue@ == old(self).downstream.measurement_queue@,
            final(self).downstream.expected@ == old(self).downstream.expected@,
            records_view(final(self).downstream.qubits@) == cache_view(
                records_view(old(self).downstream.qubits@),
                result_view(m),
                old(self).downstream.cycle_rx.0,
            ),
            results_view(final(forwarded)@) == if old(self).typ == PluginType::Operator
                && old(self).downstream.qubits@.contains_key(m.qubit.0) {
                results_view(old(forwarded)@).push(result_view(m))
            } else {
                results_view(old(forwarded)@)
            },
    {
        let cached = self.handle_measurement(&m);
        if cached && self.typ == PluginType::Operator {
            let ghost before = forwarded@;
            forwarded.push(m);
            assert(results_view(forwarded@) =~= results_view(before).push(result_view(m)));
        }
    }

    /// Handles an acknowledgement from downstream of all requests up to
    /// `sequence`: handles the queued measurement results (see
    /// `take_queued`), then fills in undefined results for the gates now
    /// acknowledged that still expect measurements, then drops the
    /// postponed upstream acknowledgements now possible. Returns the results
    /// an operator forwards upstream, in order, and the upstream sequence
    /// number to acknowledge with `CompletedUpTo`, if any.
    pub fn received_downstream_sequence(&mut self, sequence: SequenceNumber) -> (r: (
        Vec<QubitMeasurementResult>,
        Option<SequenceNumber>,
    ))
        requires
            old(self).wf(),
        ensures
            final(self).wf(),
            ({
                let operator = old(self).typ == PluginType::Operator;
                let now = old(self).downstream.cycle_rx.0;
                let st0 = sync_view(old(self), Seq::empty());
                let st1 = take_all_queued(
                    st0,
                    results_view(old(self).downstream.measurement_queue@),
                    sequence.0,
                    now,
                    operator,
                );
                let st2 = flush_acknowledged(st1, sequence.0, now, operator);
                &&& expected_view(final(self).downstream.expected@) == st2.expected
                &&& records_view(final(self).downstream.qubits@) == st2.records
                &&& results_view(r.0@) == st2.forwarded
            }),
            final(self).downstream.measurement_queue@.len() == 0,
            final(self).downstream.sequence_rx == sequence,
            final(self).upstream.postponed@ == drop_acknowledged(old(self).upstream.postponed@, sequence.0),
            ({
                let p = drop_acknowledged(old(self).upstream.postponed@, sequence.0);
                let c = completion_point(old(self).upstream.issued_up_to, p);
                if p.len() < old(self).upstream.postponed@.len() && c.comes_after(
                    old(self).upstream.completed_up_to,
                ) {
                    r.1 == Some(c) && final(self).upstream.completed_up_to == c
                } else {
                    r.1 is None && final(self).upstream.completed_up_to == old(self).upstream.completed_up_to
                }
            }),
            final(self).typ == old(self).typ,
            final(self).synchronized == old(self).synchronized,
            final(self).upstream.issued_up_to == old(self).upstream.issued_up_to,
            final(self).downstream.sequence_tx@ == old(self).downstream.sequence_tx@,
            final(self).downstream.cycle_tx == old(self).downstream.cycle_tx,
            final(self).downstream.cycle_rx == old(self).downstream.cycle_rx,
            final(self).downstream.qubit_refs@ == old(self).downstream.qubit_refs@,
            final(self).downstream.qubits@.dom() == old(self).downstream.qubits@.dom(),
    {
        self.downstream.sequence_rx = sequence;
        let operator = self.typ == PluginType::Operator;
        let ghost now = self.downstream.cycle_rx.0;
        let mut queue: Vec<QubitMeasurementResult> = Vec::new();
        std::mem::swap(&mut queue, &mut self.downstream.measurement_queue);
        let ghost qv = results_view(queue@);
        let mut forwarded: Vec<QubitMeasurementResult> = Vec::new();
        let ghost st0 = sync_view(self, forwarded@);
        assert(st0 == sync_view(old(self), Seq::empty()));
        let ghost mid = self.downstream.qubits@;
        let mut i: usize = 0;
        assert(qv.skip(0) =~= qv);
        while i < queue.len()
            invariant
                i <= queue@.len(),
                qv == results_view(queue@),
                self.wf(),
                same_outside_sync(self, old(self)),
                operator == (self.typ == PluginType::Operator),
                now == self.downstream.cycle_rx.0,
                self.downstream.sequence_rx == sequence,
                self.downstream.measurement_queue@.len() == 0,
                self.upstream.postponed@ == old(self).upstream.postponed@,
                take_all_queued(st0, qv, sequence.0, now, operator) == take_all_queued(
                    sync_view(self, forwarded@),
                    qv.skip(i as int),
                    sequence.0,
                    now,
                    operator,
                ),
            decreases queue@.len() - i,
        {
            let ghost st = sync_view(self, forwarded@);
            assert(qv.skip(i as int)[0] == result_view(queue@[i as int]));
            assert(qv.skip(i as int).drop_first() =~= qv.skip(i + 1));
            let qubit = queue[i].qubit.0;
            let mut ok = false;
            if self.downstream.expected.len() > 0 && sequence.acknowledges(self.downstream.expected[0].0) {
                let pos = find_value(&self.downstream.expected[0].1, qubit);
                if let Some(p) = pos {
                    let ghost ex = self.downstream.expected@;
                    let (s0, mut set0) = self.downstream.expected.remove(0);
                    set0.remove(p);
                    if set0.len() > 0 {
                        self.downstream.expected.insert(0, (s0, set0));
                    }
                    assert(expected_view(self.downstream.expected@) =~= take_queued(
                        st,
                        result_view(queue@[i as int]),
                        sequence.0,
                        now,
                        operator,
                    ).expected);
                    ok = true;
                }
            }
            if ok {
                let m = copy_result(&queue[i]);
                self.cache_and_forward(m, &mut forwarded);
                assert(sync_view(self, forwarded@) == take_queued(
                    st,
                    result_view(queue@[i as int]),
                    sequence.0,
                    now,
                    operator,
                ));
            } else {
                assert(sync_view(self, forwarded@) == take_queued(
                    st,
                    result_view(queue@[i as int]),
                    sequence.0,
                    now,
                    operator,
                ));
            }
            i = i + 1;
        }
        assert(qv.skip(i as int) =~= Seq::<ResultView>::empty());
        let ghost st1 = sync_view(self, forwarded@);
        loop
            invariant
                self.wf(),
                same_outside_sync(self, old(self)),
                operator == (self.typ == PluginType::Operator),
                now == self.downstream.cycle_rx.0,
                self.downstream.sequence_rx == sequence,
                self.downstream.measurement_queue@.len() == 0,
                self.upstream.postponed@ == old(self).upstream.postponed@,
                flush_acknowledged(st1, sequence.0, now, operator) == flush_acknowledged(
                    sync_view(self, forwarded@),
                    sequence.0,
                    now,
                    operator,
                ),
            ensures
                flush_acknowledged(st1, sequence.0, now, operator) == sync_view(self, forwarded@),
                self.wf(),
                same_outside_sync(self, old(self)),
                self.downstream.sequence_rx == sequence,
                self.downstream.measurement_queue@.len() == 0,
                self.upstream.postponed@ == old(self).upstream.postponed@,
            decreases self.downstream.expected@.len(),
        {
            if self.downstream.expected.len() == 0 || !sequence.acknowledges(self.downstream.expected[0].0) {
                break;
            }
            let ghost st = sync_view(self, forwarded@);
            let (_s0, set0) = self.downstream.expected.remove(0);
            assert(expected_view(self.downstream.expected@) =~= st.expected.drop_first());
            let ghost qs = set0@;
            let mut j: usize = 0;
            assert(qs.skip(0) =~= qs);
            while j < set0.len()
                invariant
                    j <= set0@.len(),
                    qs == set0@,
                    self.wf(),
                    same_outside_sync(self, old(self)),
                    operator == (self.typ == PluginType::Operator),
                    now == self.downstream.cycle_rx.0,
                    self.downstream.sequence_rx == sequence,
                    self.downstream.measurement_queue@.len() == 0,
                    self.upstream.postponed@ == old(self).upstream.postponed@,
                    expected_view(self.downstream.expected@) == st.expected.drop_first(),
                    fill_missing(st.records, st.forwarded, qs, now, operator) == fill_missing(
                        records_view(self.downstream.qubits@),
                        results_view(forwarded@),
                        qs.skip(j as int),
                        now,
                        operator,
                    ),
                decreases set0@.len() - j,
            {
                assert(qs.skip(j as int)[0] == qs[j as int]);
                assert(qs.skip(j as int).drop_first() =~= qs.skip(j + 1));
                let um = undefined_measurement(set0[j]);
                self.cache_and_forward(um, &mut forwarded);
                j = j + 1;
            }
            assert(qs.skip(j as int) =~= Seq::<u64>::empty());
        }
        let ghost p0 = self.upstream.postponed@;
        let mut updates = false;
        while self.upstream.postponed.len() > 0 && sequence.acknowledges(self.upstream.postponed[0].0)
            invariant
                self.wf(),
                same_outside_sync(self, old(self)),
                self.downstream.sequence_rx == sequence,
                self.downstream.measurement_queue@.len() == 0,
                p0 == old(self).upstream.postponed@,
                drop_acknowledged(p0, sequence.0) == drop_acknowledged(self.upstream.postponed@, sequence.0),
                updates == (self.upstream.postponed@.len() < p0.len()),
                self.upstream.postponed@.len() <= p0.len(),
                expected_view(self.downstream.expected@) == flush_acknowledged(st1, sequence.0, now, operator).expected,
                records_view(self.downstream.qubits@) == flush_acknowledged(st1, sequence.0, now, operator).records,
            decreases self.upstream.postponed@.len(),
        {
            let ghost pp = self.upstream.postponed@;
            self.upstream.postponed.remove(0);
            assert(self.upstream.postponed@ =~= pp.drop_first());
            updates = true;
        }
        let completed = if updates {
            self.check_completed_up_to()
        } else {
            None
        };
        (forwarded, completed)
    }
}

/// The message for a qubit without a measurement.
pub open spec fn msg_not_measured(q: u64) -> Seq<char> {
    "qubit "@ + crate::text::decimal(q as nat) + " has not been measured yet"@
}

/// The message for a qubit measured only once.
pub open spec fn msg_measured_once(q: u64) -> Seq<char> {
    "qubit "@ + crate::text::decimal(q as nat) + " has only been measured once"@
}

/// Builds an `InvalidArgument` error `qubit <q><rest>`.
fn qubit_error(q: u64, rest: &str) -> (e: Error)
    ensures
        e is InvalidArgument,
        e->InvalidArgument_0@ == "qubit "@ + crate::text::decimal(q as nat) + rest@,
{
    let mut msg: Vec<char> = Vec::new();
    push_str(&mut msg, "qubit ");
    let mut d = u64_to_decimal(q);
    msg.append(&mut d);
    push_str(&mut msg, rest);
    assert(msg@ =~= "qubit "@ + crate::text::decimal(q as nat) + rest@);
    Error::InvalidArgument(string_from_chars(&msg))
}

/// Postponed acknowledgements hold back completion: what may be announced
/// comes before the oldest upstream request whose results are postponed.
pub proof fn lemma_completion_respects_postponed(
    issued: SequenceNumber,
    postponed: Seq<(SequenceNumber, SequenceNumber)>,
)
    requires
        postponed.len() > 0,
        postponed[0].1.0 > 0,
    ensures
        !completion_point(issued, postponed).comes_after(postponed[0].1.predecessor()),
        postponed[0].1.comes_after(completion_point(issued, postponed)),
{
}

impl PluginState {
    /// The downstream sequence number up to which the simulation must be
    /// synchronized before the measurement of a live qubit is read; fails
    /// when the call is not allowed now or the qubit is not live.
    pub fn sync_point(&self, call: &str, qubit: QubitRef) -> (r: Result<SequenceNumber>)
        ensures
            !may_call_downstream(self.typ, self.synchronized) ==> r is Err && r->Err_0 is InvalidOperation
                && r->Err_0->InvalidOperation_0@ == refusal_message(self.typ, self.synchronized, call@),
            may_call_downstream(self.typ, self.synchronized) && !self.downstream.qubits@.contains_key(qubit.0)
                ==> r is Err && r->Err_0 is InvalidArgument && r->Err_0->InvalidArgument_0@ == msg_not_allocated(qubit.0),
            may_call_downstream(self.typ, self.synchronized) && self.downstream.qubits@.contains_key(qubit.0)
                ==> r == Ok::<SequenceNumber, Error>(self.downstream.qubits@[qubit.0].last_mutation),
    {
        if let Err(e) = self.check_call(call) {
            return Err(e);
        }
        match self.downstream.qubits.get(&qubit.0) {
            Some(rec) => Ok(rec.last_mutation),
            None => Err(not_allocated(qubit.0)),
        }
    }

    /// Whether the downstream plugin has yet to acknowledge request `num`.
    pub fn needs_sync(&self, num: SequenceNumber) -> (b: bool)
        ensures
            b == num.comes_after(self.downstream.sequence_rx),
    {
        num.after(self.downstream.sequence_rx)
    }

    /// The latest measurement of a qubit; fails when the qubit is not live
    /// or has not been measured.
    pub fn get_measurement(&self, qubit: QubitRef) -> (r: Result<QubitMeasurementResult>)
        ensures
            !may_call_downstream(self.typ, self.synchronized) ==> r is Err && r->Err_0 is InvalidOperation
                && r->Err_0->InvalidOperation_0@ == refusal_message(self.typ, self.synchronized, "get_measurement()"@),
            may_call_downstream(self.typ, self.synchronized) && !self.downstream.qubits@.contains_key(qubit.0) ==> r is Err && r->Err_0 is InvalidArgument
                && r->Err_0->InvalidArgument_0@ == msg_not_allocated(qubit.0),
            may_call_downstream(self.typ, self.synchronized) && self.downstream.qubits@.contains_key(qubit.0) ==> match self.downstream.qubits@[qubit.0].measurement {
                None => r is Err && r->Err_0 is InvalidArgument && r->Err_0->InvalidArgument_0@
                    == msg_not_measured(qubit.0),
                Some(m) => r is Ok && result_view(r->Ok_0) == ResultView {
                    qubit: qubit.0,
                    value: m.value,
                    data: m.data@,
                },
            },
    {
        if let Err(e) = self.check_call("get_measurement()") {
            return Err(e);
        }
        match self.downstream.qubits.get(&qubit.0) {
            None => Err(not_allocated(qubit.0)),
            Some(rec) => match &rec.measurement {
                None => Err(qubit_error(qubit.0, " has not been measured yet")),
                Some(m) => {
                    let mut data = ArbData::default();
                    data.copy_from(&m.data);
                    Ok(QubitMeasurementResult::new(qubit, m.value, data))
                },
            },
        }
    }

    /// The requested simulation time since the latest measurement of a
    /// qubit; fails when the qubit is not live or has not been measured.
    pub fn get_cycles_since_measure(&self, qubit: QubitRef) -> (r: Result<u64>)
        requires
            self.wf(),
            self.downstream.qubits@.contains_key(qubit.0) ==> (
            self.downstream.qubits@[qubit.0].measurement matches Some(m) ==> m.timestamp.0
                <= self.downstream.cycle_tx.0),
        ensures
            !may_call_downstream(self.typ, self.synchronized) ==> r is Err && r->Err_0 is InvalidOperation
                && r->Err_0->InvalidOperation_0@ == refusal_message(self.typ, self.synchronized, "get_cycles_since_measure()"@),
            may_call_downstream(self.typ, self.synchronized) && !self.downstream.qubits@.contains_key(qubit.0) ==> r is Err && r->Err_0 is InvalidArgument
                && r->Err_0->InvalidArgument_0@ == msg_not_allocated(qubit.0),
            may_call_downstream(self.typ, self.synchronized) && self.downstream.qubits@.contains_key(qubit.0) ==> match self.downstream.qubits@[qubit.0].measurement {
                None => r is Err && r->Err_0 is InvalidArgument && r->Err_0->InvalidArgument_0@
                    == msg_not_measured(qubit.0),
                Some(m) => r == Ok::<u64, Error>((self.downstream.cycle_tx.0 - m.timestamp.0) as u64),
            },
    {
        if let Err(e) = self.check_call("get_cycles_since_measure()") {
            return Err(e);
        }
        match self.downstream.qubits.get(&qubit.0) {
            None => Err(not_allocated(qubit.0)),
            Some(rec) => match &rec.measurement {
                None => Err(qubit_error(qubit.0, " has not been measured yet")),
                Some(m) => Ok((self.downstream.cycle_tx.0 - m.timestamp.0) as u64),
            },
        }
    }

    /// The acknowledged simulation time between the last two measurements
    /// of a qubit; fails when the qubit is not live or has been measured
    /// fewer than two times.
    pub fn get_cycles_between_measures(&self, qubit: QubitRef) -> (r: Result<u64>)
        ensures
            !may_call_downstream(self.typ, self.synchronized) ==> r is Err && r->Err_0 is InvalidOperation
                && r->Err_0->InvalidOperation_0@ == refusal_message(self.typ, self.synchronized, "get_cycles_between_measures()"@),
            may_call_downstream(self.typ, self.synchronized) && !self.downstream.qubits@.contains_key(qubit.0) ==> r is Err && r->Err_0 is InvalidArgument
                && r->Err_0->InvalidArgument_0@ == msg_not_allocated(qubit.0),
            may_call_downstream(self.typ, self.synchronized) && self.downstream.qubits@.contains_key(qubit.0) ==> match self.downstream.qubits@[qubit.0].measurement {
                None => r is Err && r->Err_0 is InvalidArgument && r->Err_0->InvalidArgument_0@
                    == msg_not_measured(qubit.0),
                Some(m) => match m.timer {
                    Some(t) => r == Ok::<u64, Error>(t),
                    None => r is Err && r->Err_0 is InvalidArgument && r->Err_0->InvalidArgument_0@
                        == msg_measured_once(qubit.0),
                },
            },
    {
        if let Err(e) = self.check_call("get_cycles_between_measures()") {
            return Err(e);
        }
        match self.downstream.qubits.get(&qubit.0) {
            None => Err(not_allocated(qubit.0)),
            Some(rec) => match &rec.measurement {
                None => Err(qubit_error(qubit.0, " has not been measured yet")),
                Some(m) => match m.timer {
                    Some(t) => Ok(t),
                    None => Err(qubit_error(qubit.0, " has only been measured once")),
                },
            },
        }
    }

    /// Records that the user's callbacks have been called for upstream
    /// requests up to `sequence`, and returns the upstream sequence number
    /// to acknowledge with `CompletedUpTo`, if any.
    pub fn issued_upstream(&mut self, sequence: SequenceNumber) -> (r: Option<SequenceNumber>)
        requires
            old(self).wf(),
        ensures
            final(self).wf(),
            final(self).upstream.issued_up_to == sequence,
            ({
                let c = completion_point(sequence, old(self).upstream.postponed@);
                &&& c.comes_after(old(self).upstream.completed_up_to) ==> r == Some(c)
                    && final(self).upstream.completed_up_to == c
                &&& !c.comes_after(old(self).upstream.completed_up_to) ==> r is None
                    && final(self).upstream.completed_up_to == old(self).upstream.completed_up_to
            }),
            final(self).upstream.postponed@ == old(self).upstream.postponed@,
            final(self).typ == old(self).typ,
            final(self).synchronized == old(self).synchronized,
            final(self).downstream.sequence_tx@ == old(self).downstream.sequence_tx@,
            final(self).downstream.sequence_rx == old(self).downstream.sequence_rx,
            final(self).downstream.cycle_tx == old(self).downstream.cycle_tx,
            final(self).downstream.cycle_rx == old(self).downstream.cycle_rx,
            final(self).downstream.qubit_refs@ == old(self).downstream.qubit_refs@,
            final(self).downstream.qubits@ == old(self).downstream.qubits@,
            final(self).downstream.measurement_queue@ == old(self).downstream.measurement_queue@,
            final(self).downstream.expected@ == old(self).downstream.expected@,
    {
        self.upstream.issued_up_to = sequence;
        self.check_completed_up_to()
    }
}

/// Checks the measurement results a `gate()` callback returned against the
/// qubits that gate measures, in order: each must be of a qubit still
/// expected, which then is no longer expected. Gives the qubits still
/// expected at the end, or the index and qubit of the first result that was
/// not expected.
pub open spec fn check_returned(expected: Seq<u64>, returned: Seq<u64>, i: nat) -> std::result::Result<
    Seq<u64>,
    (nat, u64),
>
    decreases returned.len() - i,
{
    if i >= returned.len() {
        Ok(expected)
    } else if expected.contains(returned[i as int]) {
        check_returned(remove_first(expected, returned[i as int]), returned, i + 1)
    } else {
        Err((i, returned[i as int]))
    }
}

/// The qubits of a list of measurement results.
pub open spec fn result_qubits(s: Seq<QubitMeasurementResult>) -> Seq<u64> {
    s.map_values(|m: QubitMeasurementResult| m.qubit.0)
}

/// The message for a qubit whose measurement a `gate()` callback returned
/// twice, or that it does not measure.
pub open spec fn msg_measured_twice(q: u64) -> Seq<char> {
    "user-defined gate() function returned multiple measurements for qubit "@ + decimal(q as nat)
}

/// The message for qubits whose measurements a backend's `gate()` callback
/// did not return.
pub open spec fn msg_missing(qs: Seq<u64>) -> Seq<char> {
    "user-defined gate() function failed to return measurement for qubits "@ + enumerate_text(
        qs.map_values(|q: u64| decimal(q as nat)),
        Some("or"@),
    )
}

impl PluginState {
    /// Handles the measurement results that the `gate()` callback returned
    /// for an upstream gate request with the given sequence number and
    /// measured qubits. Each result must be of a measured qubit not returned
    /// before; the results up to the first that is not are to be sent
    /// upstream. When results are missing, an operator postpones the
    /// acknowledgement of the request until the downstream request sent
    /// last is acknowledged; for any other plugin that is an error.
    pub fn finish_gate(
        &mut self,
        sequence: SequenceNumber,
        measures: &Vec<QubitRef>,
        returned: Vec<QubitMeasurementResult>,
    ) -> (r: (Vec<QubitMeasurementResult>, Result<()>))
        requires
            old(self).wf(),
        ensures
            final(self).wf(),
            ({
                let expected = dedup(ref_values(measures@));
                let rq = result_qubits(returned@);
                match check_returned(expected, rq, 0) {
                    Err((i, q)) => {
                        &&& results_view(r.0@) == results_view(returned@).take(i as int)
                        &&& r.1 is Err && r.1->Err_0 is Other && r.1->Err_0->Other_0@ == msg_measured_twice(q)
                        &&& final(self).upstream.postponed@ == old(self).upstream.postponed@
                    },
                    Ok(left) => {
                        &&& results_view(r.0@) == results_view(returned@)
                        &&& left.len() == 0 ==> r.1 is Ok && final(self).upstream.postponed@
                            == old(self).upstream.postponed@
                        &&& left.len() > 0 && old(self).typ == PluginType::Operator ==> r.1 is Ok
                            && final(self).upstream.postponed@ == old(self).upstream.postponed@.push(
                            (SequenceNumber(old(self).downstream.sequence_tx@ as u64), sequence),
                        )
                        &&& left.len() > 0 && old(self).typ != PluginType::Operator ==> r.1 is Err
                            && r.1->Err_0 is Other && r.1->Err_0->Other_0@ == msg_missing(left)
                            && final(self).upstream.postponed@ == old(self).upstream.postponed@
                    },
                }
            }),
            final(self).typ == old(self).typ,
            final(self).synchronized == old(self).synchronized,
            final(self).upstream.issued_up_to == old(self).upstream.issued_up_to,
            final(self).upstream.completed_up_to == old(self).upstream.completed_up_to,
            final(self).downstream.sequence_tx@ == old(self).downstream.sequence_tx@,
            final(self).downstream.sequence_rx == old(self).downstream.sequence_rx,
            final(self).downstream.cycle_tx == old(self).downstream.cycle_tx,
            final(self).downstream.cycle_rx == old(self).downstream.cycle_rx,
            final(self).downstream.qubit_refs@ == old(self).downstream.qubit_refs@,
            final(self).downstream.qubits@ == old(self).downstream.qubits@,
            final(self).downstream.measurement_queue@ == old(self).downstream.measurement_queue@,
            final(self).downstream.expected@ == old(self).downstream.expected@,
    {
        let values = qubit_values(measures);
        let mut left = dedup_values(&values);
        let ghost rq = result_qubits(returned@);
        let ghost start = left@;
        let mut send: Vec<QubitMeasurementResult> = Vec::new();
        let mut i: usize = 0;
        let n = returned.len();
        let mut rest = returned;
        let ghost all = rest@;
        while i < n
            invariant
                i <= n == all.len(),
                rest@ == all.skip(i as int),
                all == returned@,
                rq == result_qubits(all),
                start == dedup(ref_values(measures@)),
                check_returned(start, rq, 0) == check_returned(left@, rq, i as nat),
                results_view(send@) == results_view(all).take(i as int),
                *self == *old(self),
                old(self).wf(),
            decreases n - i,
        {
            let m = rest.remove(0);
            assert(m == all[i as int]);
            assert(rest@ =~= all.skip(i + 1));
            assert(rq[i as int] == m.qubit.0);
            match find_value(&left, m.qubit.0) {
                Some(p) => {
                    left.remove(p);
                    let ghost before = send@;
                    send.push(m);
                    assert(results_view(send@) =~= results_view(all).take(i + 1)) by {
                        assert(results_view(all).take(i + 1) =~= results_view(all).take(i as int).push(result_view(m)));
                    }
                },
                None => {
                    assert(rq.len() == all.len());
                    assert(check_returned(left@, rq, i as nat) == Err::<Seq<u64>, (nat, u64)>((i as nat, m.qubit.0)));
                    let mut msg = str_chars("user-defined gate() function returned multiple measurements for qubit ");
                    let mut d = u64_to_decimal(m.qubit.0);
                    msg.append(&mut d);
                    assert(msg@ =~= msg_measured_twice(m.qubit.0));
                    return (send, Err(Error::Other(string_from_chars(&msg))));
                },
            }
            i = i + 1;
        }
        assert(results_view(all).take(i as int) =~= results_view(all));
        if left.len() == 0 {
            return (send, Ok(()));
        }
        if self.typ == PluginType::Operator {
            let previous = self.downstream.sequence_tx.get_previous();
            self.upstream.postponed.push((previous, sequence));
            return (send, Ok(()));
        }
        let mut names: Vec<Vec<char>> = Vec::new();
        let mut j: usize = 0;
        while j < left.len()
            invariant
                j <= left@.len(),
                seq_views(names@) =~= left@.take(j as int).map_values(|q: u64| decimal(q as nat)),
            decreases left@.len() - j,
        {
            let ghost before = seq_views(names@);
            names.push(u64_to_decimal(left[j]));
            assert(seq_views(names@) =~= before.push(decimal(left@[j as int] as nat)));
            j = j + 1;
        }
        assert(left@.take(j as int) =~= left@);
        let conj = str_chars("or ");
        proof {
            reveal_strlit("or ");
            reveal_strlit("or");
            assert(conj@ =~= conj_text(Some("or"@)));
        }
        let mut list = enumerate_chars(&names, &conj, Ghost(Some("or"@)));
        let mut msg = str_chars("user-defined gate() function failed to return measurement for qubits ");
        msg.append(&mut list);
        assert(msg@ =~= msg_missing(left@));
        (send, Err(Error::Other(string_from_chars(&msg))))
    }
}

/// A message from the downstream plugin in the gatestream.
#[derive(Debug)]
pub enum GatestreamUp {
    /// All requests up to this sequence number are completed.
    CompletedUpTo(SequenceNumber),
    /// The request with this sequence number failed, with this message.
    Failure(SequenceNumber, String),
    /// A measurement result.
    Measured(QubitMeasurementResult),
    /// The downstream plugin advanced its simulation time by this much.
    Advanced(u64),
    /// The reply to an `ArbCmd` request.
    ArbSuccess(ArbData),
    /// The `ArbCmd` request failed, with this message.
    ArbFailure(String),
}

/// What handling the completion `sequence` from downstream does, from state
/// `pre` to state `post` with result `r`, as `received_downstream_sequence`
/// states it: the queued results are taken and the acknowledged gates
/// flushed, giving the records, the expected results and the results to
/// forward upstream; the queue empties; acknowledged postponements go, and
/// the upstream completion point, when it moves on, is returned.
pub open spec fn completion_handled(
    pre: &PluginState,
    post: &PluginState,
    sequence: SequenceNumber,
    r: (Vec<QubitMeasurementResult>, Option<SequenceNumber>),
) -> bool {
    let operator = pre.typ == PluginType::Operator;
    let now = pre.downstream.cycle_rx.0;
    let st1 = take_all_queued(
        sync_view(pre, Seq::empty()),
        results_view(pre.downstream.measurement_queue@),
        sequence.0,
        now,
        operator,
    );
    let st2 = flush_acknowledged(st1, sequence.0, now, operator);
    let p = drop_acknowledged(pre.upstream.postponed@, sequence.0);
    let c = completion_point(pre.upstream.issued_up_to, p);
    &&& expected_view(post.downstream.expected@) == st2.expected
    &&& records_view(post.downstream.qubits@) == st2.records
    &&& results_view(r.0@) == st2.forwarded
    &&& post.downstream.measurement_queue@.len() == 0
    &&& post.downstream.sequence_rx == sequence
    &&& post.upstream.postponed@ == p
    &&& if p.len() < pre.upstream.postponed@.len() && c.comes_after(pre.upstream.completed_up_to) {
        r.1 == Some(c) && post.upstream.completed_up_to == c
    } else {
        r.1 is None && post.upstream.completed_up_to == pre.upstream.completed_up_to
    }
    &&& post.upstream.issued_up_to == pre.upstream.issued_up_to
}

/// The message for a message from downstream that does not belong outside
/// an `ArbCmd` exchange.
pub open spec fn msg_unexpected_downstream() -> Seq<char> {
    "unexpected message received from downstream"@
}

/// The message for a failure reported by the downstream plugin.
pub open spec fn msg_downstream_failure(m: Seq<char>) -> Seq<char> {
    "simulation failed due to downstream error: "@ + m
}

impl PluginState {
    /// Handles a message from the downstream plugin outside an `ArbCmd`
    /// exchange: from now on callbacks are not synchronous to a request,
    /// and draw from the downstream random stream. A
    /// completion is handled by `received_downstream_sequence`, whose
    /// results are returned; a measurement result is queued; an advance
    /// advances the acknowledged simulation time. A failure, or an `ArbCmd`
    /// reply, is an error.
    pub fn handle_downstream_message(&mut self, message: GatestreamUp) -> (r: Result<
        (Vec<QubitMeasurementResult>, Option<SequenceNumber>),
    >)
        requires
            old(self).wf(),
            message matches GatestreamUp::Advanced(c) ==> c <= i64::MAX && old(self).downstream.cycle_rx.0
                + c <= i64::MAX,
        ensures
            final(self).wf(),
            !final(self).synchronized,
            final(self).typ == old(self).typ,
            old(self).rng is None ==> final(self).rng is None,
            old(self).rng is Some ==> (final(self).rng matches Some(g) && g.selected_stream() == 2),
            match message {
                GatestreamUp::CompletedUpTo(seq) => r is Ok && completion_handled(old(self), final(self), seq, r->Ok_0),
                GatestreamUp::Failure(_, m) => r is Err && r->Err_0 is Other && r->Err_0->Other_0@
                    == msg_downstream_failure(m@),
                GatestreamUp::Measured(m) => r is Ok && r->Ok_0.0@.len() == 0 && r->Ok_0.1 is None
                    && final(self).downstream.measurement_queue@ == old(self).downstream.measurement_queue@.push(m),
                GatestreamUp::Advanced(c) => r is Ok && r->Ok_0.0@.len() == 0 && r->Ok_0.1 is None
                    && final(self).downstream.cycle_rx == old(self).downstream.cycle_rx.advanced(c as nat),
                _ => r is Err && r->Err_0 is Other && r->Err_0->Other_0@ == msg_unexpected_downstream(),
            },
    {
        let rng = self.rng.take();
        self.set_synchronized(false);
        let r = match message {
            GatestreamUp::CompletedUpTo(sequence) => Ok(self.received_downstream_sequence(sequence)),
            GatestreamUp::Failure(_sequence, m) => {
                let mut msg = str_chars("simulation failed due to downstream error: ");
                push_str(&mut msg, m.as_str());
                proof {
                    assert(msg@ =~= msg_downstream_failure(m@));
                }
                Err(Error::Other(string_from_chars(&msg)))
            },
            GatestreamUp::Measured(measurement) => {
                self.received_measurement(measurement);
                Ok((Vec::new(), None))
            },
            GatestreamUp::Advanced(cycles) => {
                self.received_advanced(cycles);
                Ok((Vec::new(), None))
            },
            _ => Err(crate::error::other_err("unexpected message received from downstream")),
        };
        self.rng = rng;
        self.select_stream(2);
        r
    }
}

impl PluginState {
    /// Hands out references for qubits that the upstream plugin allocates,
    /// in step with the references the upstream plugin handed out.
    pub fn upstream_allocate(&mut self, num_qubits: usize) -> (refs: Vec<QubitRef>)
        requires
            old(self).wf(),
            old(self).upstream.qubit_refs@ + num_qubits <= u64::MAX,
        ensures
            final(self).wf(),
            refs@.len() == num_qubits,
            forall|i: int| 0 <= i < num_qubits ==> #[trigger] refs@[i].0 == old(self).upstream.qubit_refs@ + i,
            final(self).upstream.qubit_refs@ == old(self).upstream.qubit_refs@ + num_qubits,
            final(self).upstream.issued_up_to == old(self).upstream.issued_up_to,
            final(self).upstream.postponed@ == old(self).upstream.postponed@,
            final(self).upstream.completed_up_to == old(self).upstream.completed_up_to,
            final(self).typ == old(self).typ,
            final(self).synchronized == old(self).synchronized,
            final(self).downstream.sequence_tx@ == old(self).downstream.sequence_tx@,
            final(self).downstream.sequence_rx == old(self).downstream.sequence_rx,
            final(self).downstream.cycle_tx == old(self).downstream.cycle_tx,
            final(self).downstream.cycle_rx == old(self).downstream.cycle_rx,
            final(self).downstream.qubit_refs@ == old(self).downstream.qubit_refs@,
            final(self).downstream.qubits@ == old(self).downstream.qubits@,
            final(self).downstream.measurement_queue@ == old(self).downstream.measurement_queue@,
            final(self).downstream.expected@ == old(self).downstream.expected@,
    {
        self.upstream.qubit_refs.allocate(num_qubits)
    }

    /// Takes note that the upstream plugin freed qubits; references are not
    /// reused, so nothing changes.
    pub fn upstream_free(&mut self, qubits: Vec<QubitRef>)
        requires
            old(self).wf(),
        ensures
            final(self).wf(),
            *final(self) == *old(self),
            final(self).upstream.qubit_refs@ == old(self).upstream.qubit_refs@,
            final(self).upstream.issued_up_to == old(self).upstream.issued_up_to,
            final(self).upstream.postponed@ == old(self).upstream.postponed@,
            final(self).upstream.completed_up_to == old(self).upstream.completed_up_to,
            final(self).typ == old(self).typ,
            final(self).synchronized == old(self).synchronized,
            final(self).downstream.sequence_tx@ == old(self).downstream.sequence_tx@,
            final(self).downstream.qubits@ == old(self).downstream.qubits@,
    {
        self.upstream.qubit_refs.free(qubits);
    }
}

/// The name of a plugin type.
pub open spec fn plugin_type_name(t: PluginType) -> Seq<char> {
    match t {
        PluginType::Frontend => "Frontend"@,
        PluginType::Operator => "Operator"@,
        PluginType::Backend => "Backend"@,
    }
}

/// The message for a host that expects a plugin of another type.
pub open spec fn msg_type_mismatch(expected: PluginType, actual: PluginType) -> Seq<char> {
    "host is expecting a plugin of type "@ + plugin_type_name(expected) + ", but we're a plugin of type "@
        + plugin_type_name(actual)
}

/// Appends the name of a plugin type.
fn push_type_name(msg: &mut Vec<char>, t: PluginType)
    ensures
        final(msg)@ == old(msg)@ + plugin_type_name(t),
{
    match t {
        PluginType::Frontend => push_str(msg, "Frontend"),
        PluginType::Operator => push_str(msg, "Operator"),
        PluginType::Backend => push_str(msg, "Backend"),
    }
}

impl PluginState {
    /// Handles the host's initialization request as far as the gatestream
    /// is concerned: seeds the three random number streams from `seed`,
    /// selecting the host's, and checks that the host expects a plugin of
    /// this type. Logging and connections are set up by the caller.
    pub fn handle_init(&mut self, plugin_type: PluginType, seed: u64) -> (r: Result<()>)
        requires
            old(self).wf(),
        ensures
            final(self).wf(),
            final(self).rng matches Some(g) && g.selected_stream() == 0 && g.streams()
                == crate::random::initial_streams(3, seed),
            plugin_type == old(self).typ ==> r is Ok,
            plugin_type != old(self).typ ==> r is Err && r->Err_0 is InvalidOperation
                && r->Err_0->InvalidOperation_0@ == msg_type_mismatch(plugin_type, old(self).typ),
            final(self).typ == old(self).typ,
            final(self).synchronized == old(self).synchronized,
            final(self).upstream == old(self).upstream,
            final(self).downstream == old(self).downstream,
            final(self).inside_run == old(self).inside_run,
            final(self).frontend_to_host_data == old(self).frontend_to_host_data,
            final(self).host_to_frontend_data == old(self).host_to_frontend_data,
    {
        self.rng = Some(RandomNumberGenerator::new(3, seed));
        if plugin_type != self.typ {
            let mut msg = str_chars("host is expecting a plugin of type ");
            push_type_name(&mut msg, plugin_type);
            push_str(&mut msg, ", but we're a plugin of type ");
            push_type_name(&mut msg, self.typ);
            proof {
                assert(msg@ =~= msg_type_mismatch(plugin_type, old(self).typ));
            }
            return Err(Error::InvalidOperation(string_from_chars(&msg)));
        }
        Ok(())
    }

    /// Selects the random stream of the message source being handled: 0
    /// for the host, 1 for upstream, 2 for downstream. Nothing changes
    /// before the streams are seeded.
    pub fn select_stream(&mut self, stream: usize)
        requires
            old(self).wf(),
            stream < 3,
        ensures
            final(self).wf(),
            old(self).rng is None ==> final(self).rng is None,
            old(self).rng is Some ==> (final(self).rng matches Some(g) && g.selected_stream() == stream
                && g.streams() == old(self).rng.unwrap().streams()),
            final(self).typ == old(self).typ,
            final(self).synchronized == old(self).synchronized,
            final(self).upstream == old(self).upstream,
            final(self).downstream == old(self).downstream,
            final(self).inside_run == old(self).inside_run,
            final(self).frontend_to_host_data == old(self).frontend_to_host_data,
            final(self).host_to_frontend_data == old(self).host_to_frontend_data,
            final(self).aborted == old(self).aborted,
    {
        match &mut self.rng {
            Some(g) => g.select(stream),
            None => {},
        }
    }

    /// The selected random stream; 0 before the streams are seeded.
    pub fn selected_stream(&self) -> (r: usize)
        requires
            self.wf(),
        ensures
            r < 3,
            match self.rng {
                Some(g) => r == g.selected_stream(),
                None => r == 0,
            },
    {
        match &self.rng {
            Some(g) => g.get_selected(),
            None => 0,
        }
    }

    /// Draws a number from the selected random stream: the number at the
    /// stream's current position, after which the stream has made one more
    /// draw. The streams must have been seeded.
    pub fn random_u64(&mut self) -> (r: u64)
        requires
            old(self).wf(),
            old(self).rng is Some,
        ensures
            final(self).wf(),
            ({
                let g = old(self).rng.unwrap();
                let k = g.selected_stream() as int;
                &&& r == crate::random::chacha_u64(g.streams()[k].0, g.streams()[k].1)
                &&& final(self).rng matches Some(h) && h.selected_stream() == g.selected_stream()
                    && h.streams() == g.streams().update(k, (g.streams()[k].0, g.streams()[k].1 + 1))
            }),
            final(self).typ == old(self).typ,
            final(self).synchronized == old(self).synchronized,
            final(self).upstream == old(self).upstream,
            final(self).downstream == old(self).downstream,
            final(self).inside_run == old(self).inside_run,
            final(self).frontend_to_host_data == old(self).frontend_to_host_data,
            final(self).host_to_frontend_data == old(self).host_to_frontend_data,
    {
        match &mut self.rng {
            Some(g) => g.random_u64(),
            None => 0,
        }
    }
}

/// The message for a reply to an `ArbCmd` that is neither a result nor a
/// failure.
pub open spec fn msg_protocol_error() -> Seq<char> {
    "Protocol error: unexpected message from downstream"@
}

/// The message for an `ArbCmd` left without reply because the simulation
/// was aborted.
pub open spec fn msg_aborted() -> Seq<char> {
    "Simulation aborted"@
}

impl PluginState {
    /// Checks that an `ArbCmd` may be sent downstream now: not by a
    /// backend, and only synchronous to a request. The caller then waits
    /// for all requests to complete, sends the command and hands the reply
    /// to `arb_reply`.
    pub fn check_arb(&self) -> (r: Result<()>)
        ensures
            may_call_downstream(self.typ, self.synchronized) ==> r is Ok,
            self.typ == PluginType::Backend ==> r is Err && r->Err_0 is InvalidOperation
                && r->Err_0->InvalidOperation_0@ == msg_not_for_backends("arb()"@),
            self.typ != PluginType::Backend && !self.synchronized ==> r is Err
                && r->Err_0 is InvalidOperation && r->Err_0->InvalidOperation_0@
                == msg_not_synchronized("arb()"@),
    {
        self.check_call("arb()")
    }

    /// The outcome of an `ArbCmd` sent downstream, from the reply (`None`
    /// when the simulation was aborted before one came).
    pub fn arb_reply(reply: Option<GatestreamUp>) -> (r: Result<ArbData>)
        ensures
            match reply {
                Some(GatestreamUp::ArbSuccess(d)) => r is Ok && r->Ok_0@ == d@,
                Some(GatestreamUp::ArbFailure(m)) => r is Err && r->Err_0 is Other
                    && r->Err_0->Other_0@ == m@,
                Some(_) => r is Err && r->Err_0 is Other && r->Err_0->Other_0@ == msg_protocol_error(),
                None => r is Err && r->Err_0 is Other && r->Err_0->Other_0@ == msg_aborted(),
            },
    {
        match reply {
            Some(GatestreamUp::ArbSuccess(d)) => Ok(d),
            Some(GatestreamUp::ArbFailure(m)) => Err(Error::Other(m)),
            Some(_) => Err(crate::error::other_err("Protocol error: unexpected message from downstream")),
            None => Err(crate::error::other_err("Simulation aborted")),
        }
    }
}

/// The message for a run request to a plugin that is not a frontend.
pub open spec fn msg_not_frontend() -> Seq<char> {
    "received run request from simulator, but we're not a frontend!"@
}

/// The message for a message sent to the host outside `run()`.
pub open spec fn msg_send_outside_run() -> Seq<char> {
    "send() can only be called from inside the run() callback"@
}

/// The message for a message awaited from the host outside `run()`.
pub open spec fn msg_recv_outside_run() -> Seq<char> {
    "recv() can only be called from inside the run() callback"@
}

/// The message for a request to start the accelerator while it runs.
pub open spec fn msg_already_running() -> Seq<char> {
    "Protocol error: cannot start accelerator while accelerator is already running"@
}

/// The views of a sequence of `ArbData` objects.
pub open spec fn arb_views(s: Seq<ArbData>) -> Seq<(Seq<u8>, Seq<Seq<u8>>)> {
    s.map_values(|d: ArbData| d@)
}

/// Appends the messages to a queue, in order.
fn enqueue_all(queue: &mut VecDeque<ArbData>, messages: Vec<ArbData>)
    ensures
        final(queue)@ == old(queue)@ + messages@,
{
    let ghost all = messages@;
    let mut rest = messages;
    let total: usize = rest.len();
    let mut k: usize = 0;
    while rest.len() > 0
        invariant
            k + rest@.len() == all.len(),
            all.len() == total,
            rest@ == all.skip(k as int),
            queue@ == old(queue)@ + all.take(k as int),
        decreases rest@.len(),
    {
        let m = rest.remove(0);
        queue.push_back(m);
        k = k + 1;
        assert(rest@ =~= all.skip(k as int));
        assert(queue@ =~= old(queue)@ + all.take(k as int));
    }
    assert(all.take(k as int) =~= all);
}

impl PluginState {
    /// Handles a run request from the host to a frontend: queues the
    /// host's messages and tells whether the `run()` callback is to be
    /// called (when the request starts the accelerator), in which case the
    /// plugin is inside `run()` until `leave_run`. The caller then sends
    /// the run response with the messages of `drain_to_host`.
    pub fn handle_run(&mut self, messages: Vec<ArbData>, start: bool) -> (r: Result<bool>)
        requires
            old(self).wf(),
            !old(self).inside_run,
        ensures
            final(self).wf(),
            old(self).typ != PluginType::Frontend ==> r is Err && r->Err_0 is InvalidOperation
                && r->Err_0->InvalidOperation_0@ == msg_not_frontend()
                && final(self).host_to_frontend_data@ == old(self).host_to_frontend_data@
                && !final(self).inside_run,
            old(self).typ == PluginType::Frontend ==> r == Ok::<bool, Error>(start)
                && final(self).host_to_frontend_data@ == old(self).host_to_frontend_data@ + messages@
                && final(self).inside_run == start,
            final(self).frontend_to_host_data@ == old(self).frontend_to_host_data@,
            final(self).typ == old(self).typ,
            final(self).synchronized == old(self).synchronized,
            final(self).upstream == old(self).upstream,
            final(self).downstream == old(self).downstream,
            final(self).rng == old(self).rng,
    {
        if self.typ != PluginType::Frontend {
            return Err(crate::error::inv_op("received run request from simulator, but we're not a frontend!"));
        }
        enqueue_all(&mut self.host_to_frontend_data, messages);
        if start {
            self.inside_run = true;
        }
        Ok(start)
    }

    /// Marks that the `run()` callback has returned.
    pub fn leave_run(&mut self)
        requires
            old(self).wf(),
        ensures
            final(self).wf(),
            !final(self).inside_run,
            final(self).frontend_to_host_data@ == old(self).frontend_to_host_data@,
            final(self).host_to_frontend_data@ == old(self).host_to_frontend_data@,
            final(self).typ == old(self).typ,
            final(self).synchronized == old(self).synchronized,
            final(self).upstream == old(self).upstream,
            final(self).downstream == old(self).downstream,
            final(self).rng == old(self).rng,
    {
        self.inside_run = false;
    }

    /// Takes all messages queued for the host, oldest first.
    pub fn drain_to_host(&mut self) -> (r: Vec<ArbData>)
        requires
            old(self).wf(),
        ensures
            final(self).wf(),
            r@ == old(self).frontend_to_host_data@,
            final(self).frontend_to_host_data@.len() == 0,
            final(self).host_to_frontend_data@ == old(self).host_to_frontend_data@,
            final(self).inside_run == old(self).inside_run,
            final(self).typ == old(self).typ,
            final(self).synchronized == old(self).synchronized,
            final(self).upstream == old(self).upstream,
            final(self).downstream == old(self).downstream,
            final(self).rng == old(self).rng,
    {
        let mut out: Vec<ArbData> = Vec::new();
        while self.frontend_to_host_data.len() > 0
            invariant
                out@ + self.frontend_to_host_data@ == old(self).frontend_to_host_data@,
                self.wf(),
                self.host_to_frontend_data@ == old(self).host_to_frontend_data@,
                self.inside_run == old(self).inside_run,
                self.typ == old(self).typ,
                self.synchronized == old(self).synchronized,
                self.upstream == old(self).upstream,
                self.downstream == old(self).downstream,
                self.rng == old(self).rng,
            decreases self.frontend_to_host_data@.len(),
        {
            let ghost before = self.frontend_to_host_data@;
            match self.frontend_to_host_data.pop_front() {
                Some(m) => {
                    out.push(m);
                    assert(out@ + self.frontend_to_host_data@ =~= old(self).frontend_to_host_data@);
                },
                None => {},
            }
        }
        assert(out@ =~= old(self).frontend_to_host_data@);
        out
    }

    /// Queues a message for the host; only from inside `run()`.
    pub fn send(&mut self, msg: ArbData) -> (r: Result<()>)
        requires
            old(self).wf(),
        ensures
            final(self).wf(),
            old(self).inside_run ==> r is Ok && final(self).frontend_to_host_data@
                == old(self).frontend_to_host_data@.push(msg),
            !old(self).inside_run ==> r is Err && r->Err_0 is InvalidOperation
                && r->Err_0->InvalidOperation_0@ == msg_send_outside_run()
                && final(self).frontend_to_host_data@ == old(self).frontend_to_host_data@,
            final(self).host_to_frontend_data@ == old(self).host_to_frontend_data@,
            final(self).inside_run == old(self).inside_run,
            final(self).typ == old(self).typ,
            final(self).synchronized == old(self).synchronized,
            final(self).upstream == old(self).upstream,
            final(self).downstream == old(self).downstream,
            final(self).rng == old(self).rng,
    {
        if !self.inside_run {
            return Err(crate::error::inv_op("send() can only be called from inside the run() callback"));
        }
        self.frontend_to_host_data.push_back(msg);
        Ok(())
    }

    /// Takes the oldest message from the host; only from inside `run()`.
    /// `None` when none is queued: the caller then yields to the host (waits
    /// for all requests to complete and sends the run response with the
    /// messages of `drain_to_host`) and hands the next run request to
    /// `run_request_received`.
    pub fn recv(&mut self) -> (r: Result<Option<ArbData>>)
        requires
            old(self).wf(),
        ensures
            final(self).wf(),
            !old(self).inside_run ==> r is Err && r->Err_0 is InvalidOperation
                && r->Err_0->InvalidOperation_0@ == msg_recv_outside_run()
                && final(self).host_to_frontend_data@ == old(self).host_to_frontend_data@,
            old(self).inside_run && old(self).host_to_frontend_data@.len() == 0 ==> r == Ok::<
                Option<ArbData>,
                Error,
            >(None) && final(self).host_to_frontend_data@ == old(self).host_to_frontend_data@,
            old(self).inside_run && old(self).host_to_frontend_data@.len() > 0 ==> r == Ok::<
                Option<ArbData>,
                Error,
            >(Some(old(self).host_to_frontend_data@[0]))
                && final(self).host_to_frontend_data@ == old(self).host_to_frontend_data@.drop_first(),
            final(self).frontend_to_host_data@ == old(self).frontend_to_host_data@,
            final(self).inside_run == old(self).inside_run,
            final(self).typ == old(self).typ,
            final(self).synchronized == old(self).synchronized,
            final(self).upstream == old(self).upstream,
            final(self).downstream == old(self).downstream,
            final(self).rng == old(self).rng,
    {
        if !self.inside_run {
            return Err(crate::error::inv_op("recv() can only be called from inside the run() callback"));
        }
        Ok(self.host_to_frontend_data.pop_front())
    }

    /// Handles a run request that comes while the frontend waits in
    /// `recv()`: the host's random stream is selected, callbacks are
    /// synchronous to a request again, and the messages are queued. A
    /// request that starts the accelerator again is a protocol error.
    pub fn run_request_received(&mut self, messages: Vec<ArbData>, start: bool) -> (r: Result<()>)
        requires
            old(self).wf(),
        ensures
            final(self).wf(),
            final(self).synchronized,
            final(self).host_to_frontend_data@ == old(self).host_to_frontend_data@ + messages@,
            old(self).rng is None ==> final(self).rng is None,
            old(self).rng is Some ==> (final(self).rng matches Some(g) && g.selected_stream() == 0),
            !start ==> r is Ok,
            start ==> r is Err && r->Err_0 is Other && r->Err_0->Other_0@ == msg_already_running(),
            final(self).frontend_to_host_data@ == old(self).frontend_to_host_data@,
            final(self).inside_run == old(self).inside_run,
            final(self).typ == old(self).typ,
            final(self).upstream == old(self).upstream,
            final(self).downstream == old(self).downstream,
    {
        self.select_stream(0);
        self.synchronized = true;
        enqueue_all(&mut self.host_to_frontend_data, messages);
        if start {
            return Err(crate::error::other_err(
                "Protocol error: cannot start accelerator while accelerator is already running",
            ));
        }
        Ok(())
    }
}

/// Where an incoming message comes from.
#[derive(Debug, Clone, Copy, PartialEq, Eq, Structural)]
pub enum MessageSource {
    /// The host (simulator).
    Simulator,
    /// The upstream plugin.
    Upstream,
    /// The downstream plugin.
    Downstream,
}

impl PluginState {
    /// Starts handling an incoming message: `false` once the host asked to
    /// abort, when no message is handled any more and nothing changes.
    /// Otherwise, requests from the host draw from the host's random stream
    /// and requests from upstream from the upstream stream, and the
    /// callbacks for either are synchronous to a request; messages from
    /// downstream are left to `handle_downstream_message`.
    pub fn begin_message(&mut self, source: MessageSource) -> (proceed: bool)
        requires
            old(self).wf(),
        ensures
            final(self).wf(),
            proceed == !old(self).aborted,
            old(self).aborted || source == MessageSource::Downstream ==> final(self).synchronized
                == old(self).synchronized && final(self).rng == old(self).rng,
            !old(self).aborted && source != MessageSource::Downstream ==> final(self).synchronized
                && (old(self).rng is None ==> final(self).rng is None) && (old(self).rng is Some ==> (
            final(self).rng matches Some(g) && g.streams() == old(self).rng.unwrap().streams()
                && g.selected_stream() == (if source == MessageSource::Simulator {
                0nat
            } else {
                1nat
            }))),
            final(self).aborted == old(self).aborted,
            final(self).typ == old(self).typ,
            final(self).upstream == old(self).upstream,
            final(self).downstream == old(self).downstream,
            final(self).inside_run == old(self).inside_run,
            final(self).frontend_to_host_data == old(self).frontend_to_host_data,
            final(self).host_to_frontend_data == old(self).host_to_frontend_data,
    {
        if self.aborted {
            return false;
        }
        match source {
            MessageSource::Simulator => {
                self.select_stream(0);
                self.synchronized = true;
            },
            MessageSource::Upstream => {
                self.select_stream(1);
                self.synchronized = true;
            },
            MessageSource::Downstream => {},
        }
        true
    }

    /// Takes note of the host's request to abort: no message is handled
    /// after it. The caller then waits for all requests sent downstream to
    /// complete and calls the user's finalization.
    pub fn handle_abort(&mut self)
        requires
            old(self).wf(),
        ensures
            final(self).wf(),
            final(self).aborted,
            final(self).typ == old(self).typ,
            final(self).synchronized == old(self).synchronized,
            final(self).rng == old(self).rng,
            final(self).upstream == old(self).upstream,
            final(self).downstream == old(self).downstream,
            final(self).inside_run == old(self).inside_run,
            final(self).frontend_to_host_data == old(self).frontend_to_host_data,
            final(self).host_to_frontend_data == old(self).host_to_frontend_data,
    {
        self.aborted = true;
    }

    /// Finishes the upstream request `sequence` once its callback ran: a
    /// failed callback becomes a `Failure` reply upstream carrying the
    /// error's text; then the request counts as issued, which gives the
    /// upstream sequence number to acknowledge with `CompletedUpTo`, if any.
    pub fn finish_upstream_request(&mut self, sequence: SequenceNumber, outcome: Result<()>) -> (r: (
        Option<GatestreamUp>,
        Option<SequenceNumber>,
    ))
        requires
            old(self).wf(),
        ensures
            final(self).wf(),
            outcome is Ok ==> r.0 is None,
            outcome matches Err(e) ==> (r.0 matches Some(GatestreamUp::Failure(q, m)) && q == sequence
                && m@ == crate::error::error_prefix(e) + crate::error::error_message(e)),
            final(self).upstream.issued_up_to == sequence,
            ({
                let c = completion_point(sequence, old(self).upstream.postponed@);
                &&& c.comes_after(old(self).upstream.completed_up_to) ==> r.1 == Some(c)
                    && final(self).upstream.completed_up_to == c
                &&& !c.comes_after(old(self).upstream.completed_up_to) ==> r.1 is None
                    && final(self).upstream.completed_up_to == old(self).upstream.completed_up_to
            }),
            final(self).upstream.postponed@ == old(self).upstream.postponed@,
            final(self).typ == old(self).typ,
            final(self).synchronized == old(self).synchronized,
            final(self).downstream.sequence_tx@ == old(self).downstream.sequence_tx@,
            final(self).downstream.sequence_rx == old(self).downstream.sequence_rx,
            final(self).downstream.cycle_tx == old(self).downstream.cycle_tx,
            final(self).downstream.cycle_rx == old(self).downstream.cycle_rx,
            final(self).downstream.qubits@ == old(self).downstream.qubits@,
    {
        let reply = match &outcome {
            Ok(_) => None,
            Err(e) => Some(GatestreamUp::Failure(sequence, e.to_string())),
        };
        let done = self.issued_upstream(sequence);
        (reply, done)
    }
}

} // verus!
