# nexus_store

The persistence edge of an event-sourcing kernel, written in Verus: event
envelopes and their validated value types, the CBOR chunk box used to export
and import streams, the import planner, the save planner, upcaster guards,
persistence triggers, the projection runner's bookkeeping, and the
subscriber registry's counts. Every function in `src/` carries a contract
that Verus proves.

## Layout

- `src/` — the verified library.
  - `version`, `value`, `stream_id`, `envelope`, `portable` — positions,
    value newtypes with their invariants, and the read/write envelopes.
  - `cbor` — the chunk box: encoders with exact byte-level specs and a
    decoder whose result is pinned to a spec (`chunk_dec`).
  - `roundtrip` — what the box reads back of what it writes: block, header
    and chunk round trips, block-boundary prefixes, torn tails (a chunk
    cut anywhere after its header decodes to exactly the items written in
    full before the cut; a cut inside the header is refused), and damage
    (a block whose body has one byte changed reads as corrupt, and the rest
    of the chunk reads back as written).
  - `import` — picky, halt-not-skip import plans and their settlement, and
    the laws that per-stream import keeps a stream a gapless prefix and that
    whole-chunk import is all or nothing (on success, every non-empty
    section landed whole on its routed stream, in one transaction).
  - `upcast` — the upcaster chain walk and the current schema version,
    exact for chains that state their answers as spec functions.
  - `conformance` — the adapter suite's row checks and its multi-resume
    read, with the law that the cycles rebuild the stream exactly.
  - `repository`, `trigger`, `projection`, `facade`, `saga`, `batch`,
    `notify`, `services`, `snapshot`, `state`, `text`, `error`.
- `tests/` — executable tests against the compiled library.
- `app/` — the async edge: adapter traits, drivers that run the library's
  plans against a store, the wake registry's notifiers, serde and
  plain-old-data codecs, error types that carry `Display`, and the
  service rejection types (an enum with no variants, which Verus refuses).

## Trusted items

- `cbor::crc32c` calls `crc32c::crc32c`; it is stated to return
  `crc32c_of(data)`, the CRC-32C (Castagnoli) spelled out bit by bit.
- `value::str_from_utf8` calls `std::str::from_utf8`; it is stated to accept
  exactly the byte sequences vstd's `valid_utf8` describes.
