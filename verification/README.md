# rasitop

A low-overhead performance recorder for Apple Silicon Macs. The decoding,
bookkeeping and validation at its core is a library verified with Verus; a
thin command line around it reads the machine's counters and files.

## Layout

- `src/` — the verified library.
  - `engine`, `cpu`: CPU tick counters, wrap-around deltas, utilization
    shares, emission timing and the bounded utilization histories.
  - `measure`, `record`: option checks, deadline bookkeeping, nearest-rank
    latency summaries and the GPU sampling cadence.
  - `smc` (with `catalog`, `protocol`, `value`, `discovery`, `error`): the
    AppleSMC user-client protocol, key catalogs and value decoding.
  - `gpu`, `ioreport`: the GPU residency catalog and decoder, and the
    IOReport channel inventory.
  - `xml`, `activity`: an XML document builder over `quick-xml` and the
    Activity Monitor export summary.
  - `metrics`, `menubar`, `output`, `pm`, `ui`, `install`, `ffi`, `error`,
    `text`: core labels and ordering, popover text, output headers, the
    installer's decisions, C-interface status codes and text helpers.
- `tests/` — tests of the library on concrete values.
- `app/` — the `rasitop` command line: Mach, IOKit and sysctl calls, files,
  clocks, Ctrl-C, and the floating-point presentation of the results.
