# rvt_native

A verified library for the native object model of Revit documents: stream
framing and the physical record index, the native value grammar and
object-graph decoder, parameter definitions and saved metadata projection,
category selection, the metadata/saved-scene join, sharding and the
world-model completeness rules. Every function in `src/` carries a
contract checked by Verus; the laws the library promises stand there as
public proof functions.

- `src/` — the verified library (`lib.rs` lists the modules).
- `tests/` — tests of the library on concrete values.
- `app/` — the plumbing Verus does not see: argument handling, files,
  worker processes, JSON output and the floating-point tile bounds.
