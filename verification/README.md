# dqcsim

The core types and rules of the DQCsim quantum simulation framework, written
in Verus with their contracts proved.

- `src/types/`: simulation cycles, qubit references and their generator,
  sequence numbers, measurement results, `ArbData` (JSON/CBOR plus binary
  arguments, always holding canonical CBOR), `ArbCmd`, and the rules on
  the qubits and matrix sizes of gates.
- `src/cbor.rs`, `src/cbor_canonical.rs`, `src/cbor_prefix.rs`:
  canonicalization of CBOR data, the proofs that it is idempotent and keeps
  the value, and that bytes after one data item are rejected.
- `src/text.rs`, `src/util.rs`: decimal conversion, padding, friendly names
  and enumerations.
- `src/configuration.rs`: environment modifications and random seeds.
- `src/plugin.rs`, `src/random.rs`: the gatestream bookkeeping of a plugin
  (sequence numbers, simulation time, live qubits, measurement results,
  postponed acknowledgements, message dispatch, the frontend's exchange with
  the host) and its random number streams, each fixed by its seed and the
  number of draws before.
- `src/log.rs`: log levels, filters and records.
- `app/`: serde copies of the library types and the generic enum parser
  that needs `strum`.
