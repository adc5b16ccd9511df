# ziren

Components of a MIPS zkVM toolchain, with their contracts proved in Verus.

- `garble`: the boolean-circuit garbling check. The syscall recomputes each
  gate's ciphertext; the guest frames the circuit into chunks of at most 62500
  gates and drives the syscalls (`GarbleSession`). Proved: the chunks are
  accepted exactly when the whole circuit is consistent.
- `or_operation`, `fuzzing`, `lookup`: the columns of the bitwise-or
  operation, its byte lookups, and the differential fuzzing target; proved:
  population always agrees with the reference.
- `fuzz_target`: reading raw fuzzer input as instruction words, skipping an
  empty program, and classifying a run's outcome.
- `pcl`: Picus expressions, constraints and modules, their meaning over the
  KoalaBear field, and partial evaluation (proved to keep that meaning).
- `picus_builder`, `picus_bytes`, `picus_ports`, `picus_calls`,
  `picus_checks`, `picus_extract`, `picus_program`: extraction of a chip's
  constraints and lookups into a Picus program, with selector-specialized
  modules and a `top` module stating the selectors' one-hot shape.
  `picus_laws` holds the properties that span the extraction steps;
  `picus_fresh` proves that every variable handed out is new, and
  `picus_aux` that modules are never lost and stay one per name.
- `module_map`: modules keyed by name, kept in string order.
- `dvsnark`: the DV-SNARK prover handle.

`app/` holds the loop that hands chunks to the garbling syscall and the
command-line choice of the shift-with-carry summary.
