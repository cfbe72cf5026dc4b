# lod

Decoders, search routines and bookkeeping for multi-resolution market data:
fixed-size trade (`.ntrd`), quote (`.nbbo`) and bar (`.nohlcv`) records and
their file headers, `.divbin` dividend containers, data-file discovery, and
the integer logic behind streaming aggregation, level-of-detail selection
and live bar building.

## Layout

- `src/` is the library, verified with Verus. Each public function states
  its result in its contract; the laws that relate several functions are
  public proof functions (`lemma_*`).
- `tests/` runs the library on concrete values.
- `app/` is the runtime around the library: file and memory-mapped readers,
  the floating-point views and statistics of records, the aggregation, level
  and live pipelines that work on floats, directory scans, and the
  command-line decoders.

The outside crates are chrono and chrono-tz (calendar days and New York
time, called from the library), serde and serde_json (splits files and JSON
export), memmap2 and zerocopy (memory-mapped, zero-copy access).
