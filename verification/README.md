# snowflake_gen

A configurable Snowflake ID generator whose logic is proved with Verus.

An ID is an `i64`; its 63 usable bits hold, from the top, a millisecond
timestamp, a machine identifier, a node identifier and a per-millisecond
sequence number, with widths chosen by a `BitLayout`.

- `src/layout.rs`: bit layouts and their capacities.
- `src/encoding.rs`: packing fields into an ID and reading them back, with
  the round-trip, injectivity and ordering laws.
- `src/generator/`: the generator (construction, the three generation modes,
  decomposition), the law that successive IDs increase, and laws over runs
  of calls (`runs.rs`).
- `src/bucket.rs`: the buffered generator and the law that it never repeats
  an ID.
- `src/utils.rs`: the clock readings, counted from the epoch, and the
  busy-wait for a later millisecond.
- `src/global.rs`: the decisions of the global API (one initialization,
  one generator per thread).
- `app/`: the process-wide global API (statics and thread-locals) and a
  printable copy of the error type.
