# competitive_net_sim

A discrete-event network simulator for switch programs, written in Verus. Apps
send packets over links; switches run TinyVM programs on them; a controller per
switch, usually a sandboxed WebAssembly module, reacts to punts and timers. Runs
are logged, replayed and scored.

## Layout

- `src/` is the library: verified code, and the few functions that call outside
  crates (see below).
  - `types`, `packet`, `event`, `link`, `network`, `switch`, `app`, `tinyvm`,
    `controller`: the parts of a simulation.
  - `sim/`: the simulator; `sim/state.rs` is its model and `sim/laws.rs` what
    holds of every run.
  - `codec`, `wire`, `wire_bgp`, `sim_log/`: the binary formats.
  - `text`, `viewer/`, `dump`: the assembler, the log player and its listings.
  - `bgp`, `trace`: routing promises between owners, and probes.
  - `sandbox`, `wasm`, `sdk/`, `programs/`: programs for switches, and the
    sandbox that they run in.
  - `world/`, `failures`, `graph`, `order`, `run`, `score/`: worlds, failure
    schedules, and the grading of a run.
- `tests/` holds the tests.
- `app/` is the command line and the parts that touch files, floating point and
  the browser.

## What is trusted

`codec` calls `postcard` for integers and its error texts, `sandbox` calls
`wasmtime`, and `chars` states what `String::push` does. Each outside call stands
in a function of its own, whose doc comment says what is believed of it.
Controllers written outside the library are held to nothing: they may answer
anything.
