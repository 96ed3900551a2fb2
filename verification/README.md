# rstock

Market-data plumbing for A-share quotes: symbol normalisation, date and
partition keys for daily and minute bars, sync planning, pattern-scan job
bookkeeping, report rendering and the import tools' row keys and manifests.

Layout:

- `src/` is the library, written in Verus. Every function there carries a
  contract, and the properties that span several functions are stated as
  public proof functions whose names begin with `law_`. Calls into chrono go
  through a few trusted wrappers in `src/dates.rs` and `src/times.rs`, and
  `String::push` through one in `src/text.rs`; each has a doc comment saying
  what it claims.
- `tests/` runs the library on concrete values.
- `app/` is the program around it: the HTTP server, the QMT and TDX clients,
  object storage, Parquet and CSV handling, the command-line tools, and the
  floating-point indicators and pattern detectors.
