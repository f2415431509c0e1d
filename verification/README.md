# revlab

Deterministic multi-rate simulation of a turbo-diesel engine, its sensors and its ECU.

`src/` is the library, each function with its contract:

- `time` — integer-nanosecond simulation time and durations; exact arithmetic, no drift.
- `rng` — the per-component xoshiro256** streams derived with splitmix64 from the run seed and
  the component's registration index.
- `kernel` — the event queue (earliest time, then component id, then trigger index; never
  insertion order), the scheduler, the signal bus (`Blackboard`) and the context a component
  runs in.
- `ecu` — task rates and their staggering, speed-source selection, diagnostic severity, the fault
  memory's debouncing and the three-way plausibility vote.
- `plant`, `sensors`, `load` — port bundles, gear selection, the 60-2 crank wheel's tooth
  sequence and capture-timer quantisation, and stably sorted step schedules.
- `wear`, `cli` — the wear-file format and the command line, read from characters.

`app/` is the program around it: the floating-point physics of the plant, sensor and ECU
models, the run loop that performs each execution the scheduler hands out, terminal input,
telemetry output, and the wall-clock pacer.

`tests/` exercise the library on concrete values.
