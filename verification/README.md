# noirc_evaluator

The part of the Noir compiler that turns the parameters of a program's `main` function into
witnesses of an ACIR constraint system, and the encoding of the build artifacts that `nargo`
writes, verified with Verus.

- `src/witness.rs`: witness indices and ordered witness sets.
- `src/names.rs`, `src/name_map.rs`: string order and maps keyed by names, iterated in name
  order as a `BTreeMap<String, _>` is.
- `src/abi.rs`, `src/layout.rs`: ABI types, the spec functions that describe witness allocation
  and range constraints (a boolean gate for 1 bit, a split for other odd widths, a refusal for
  a range as wide as the field), and the count of witnesses that a type takes.
- `src/evaluator.rs`: the evaluator that allocates witnesses and collects opcodes.
- `src/abi_witnesses.rs`: properties of the witnesses of the ABI parameters.
- `src/runs.rs`: the evaluator's operations as one step function, and what holds along any
  run of them (witness indices are never handed out twice).
- `src/acir.rs`: the acvm types and calls that the library relies on.
- `src/circuit.rs`, `src/hex.rs`: the circuit and ABI built from one parameter list, compile
  results and hex artifacts.
- `app/`: file I/O, acvm's compiler and witness solver.
