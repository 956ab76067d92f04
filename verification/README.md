# my_app

The workload application of a cold-start benchmark (`my-app`) and its two
benchmark drivers (`bench_local`, `bench_size`), with their logic written in
Verus and proved against contracts.

## Layout

- `src/` — the verified library.
  - `workload.rs`: the workloads, their names, parameters and command-line
    form; `parse_app_args`; Fibonacci (with the largest index whose value
    fits in `u32`) and the page-touching digest of `alloc_touch`.
  - `json.rs`: the one-line JSON report: escaping, rendering and reading back.
  - `json_law.rs`: the proof that reading a rendered report gives it back.
  - `bench.rs`: the runtimes under test, their preflight checks and the
    message for a failed command.
  - `bench_local.rs`: the cold-start driver's command line, sample commands,
    reading of a sample's output, nearest-rank percentile index and summary
    grouping.
  - `bench_size.rs`: the size driver's command line, Docker scripts and
    arguments, parsing of tool output (numbers, human sizes, `docker stats`,
    `ps`), CSV escaping and the poller's decisions.
  - `text.rs`, `decimal.rs`: text and decimal-number helpers with their
    specifications.
- `tests/` — tests of the library on concrete values.
- `app/` — the program: argument vector, processes, files, timing, sleeping
  and the floating-point statistics, around the library's functions.
