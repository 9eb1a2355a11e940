# Argus-Lasso

A process manager for Linux desktops: it holds back processes that hog the CPU,
applies affinity and priority rules, parks CPU cores while a game runs, and shows
what the machine is doing.

The logic is a library that Verus verifies; the program around it reads `/proc` and
`/sys`, talks to the desktop and paints the window.

## Layout

- `src/` — the verified library.
  - Foundations: `text`, `number`, `binary`, `lower`, `idset`, `idmap`, `namemap`, `sort`, `ring`, `cpulist`.
  - Balancing and rules: `probalance`, `rules`, `cgroup`, `daemon`, `monitor`, `app_state`, `actions`.
  - Cores and power: `topology`, `cpu_park`, `helper`.
  - Sensors and benchmarks: `hw_parse`, `hw_monitor`, `hw_collect`, `alerts`, `mem_bench`.
  - Files and the command line: `config`, `logfile`, `file_dialog`, `icon`, `cli`.
  - `gui/` — what the tabs and dialogs decide and show, without painting.
- `tests/` — tests of the library from outside.
- `app/` — the program: I/O, threads, the configuration file, the window.

## Units

The library has no floating-point types. Loads, sensor values, latencies and rates are
binary numbers with a mantissa of fixed length (`binary`), rounded after each step as
single or double precision is. Thresholds are in thousandths of a percent (`*_mpct`),
times in milliseconds (`*_ms`), opacity and widths in thousandths.

## Where the proofs end

Functions of other crates and of the standard library that have no specification are
called through small wrappers whose contracts are taken on trust: building and
matching regular expressions, random UUIDs, Unicode case conversion and character
classes, and `String::push`. Each wrapper says what is claimed of the function that
it calls.

Laws that span several functions are public proof functions whose names begin with
`law_`.
