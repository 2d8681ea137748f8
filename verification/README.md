# aca

Simulators for a small RISC-V-like instruction set, verified with Verus:

- `emulated`: an instruction-at-a-time emulator, the reference semantics
  (`step`, `steps`).
- `pipelined`: a five-stage in-order pipeline with forwarding and stalls;
  a finished run ends where the emulator stops.
- `out_of_order`: a superscalar core with register renaming, a reorder
  buffer, a reservation station, a load/store queue with memory
  speculation, branch prediction and a cache hierarchy. Each stage has its
  own contract; a run carries a reference emulator that executes every
  retired instruction and checks the final state (see `OutOfOrder::run`).
- `program`, `inst`, `text`: the assembler and the instruction type.

Layout: `src/` is the verified library, `tests/` its tests, `app/` the
command-line front end (file input, timing and the report).
