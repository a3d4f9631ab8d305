# Crucible

Crucible shows a machine's hardware specs and runs `stress-ng` stress tests
while it watches the CPU's temperature, usage and memory, and stops a test
that gets too hot.

## Layout

- `src/` is the library, verified with Verus. It holds what the program
  decides and computes, stated as contracts over spec functions:
  - `text.rs`: string helpers (trimming, lines, words, numbers, decimal
    formatting) with exact specifications;
  - `pattern.rs`: the regular expressions of the `regex` crate, behind a few
    trusted wrappers whose results are named;
  - `monitor.rs`: `/proc/stat` and `/proc/meminfo`, CPU usage, the choice of
    a temperature sensor, and bounded histories of readings;
  - `hardware.rs`: os-release, cpuinfo, memory size, graphics cards and the
    plain-text specs report;
  - `stress.rs`: the bookkeeping of a stress run and how its process is
    ended;
  - `stability.rs`: the choices, clock, notices, button and temperature
    cut-off of the stress-test view.
- `app/` is the GTK program around the library: it reads files, runs
  processes, sends signals, draws, and does the floating-point arithmetic,
  handing the library plain values and acting on what it returns.
- `tests/` runs the library on concrete inputs.

## Collections keyed by strings

The os-release settings, the processor cores counted in `/proc/cpuinfo` and
the graphics cards already seen are kept in vectors (`OsRelease`, the core
tally behind `cpu_counts`, `GpuScan`) rather than in `HashMap` or `HashSet`
with `String` keys. vstd specifies those hash collections usefully only for
keys whose hashing and equality it knows, such as integers; with `String`
keys their contracts would say almost nothing. Over vectors every contract
states the contents exactly: which key maps to which value, that later
settings replace earlier ones, and that no key is taken twice.
