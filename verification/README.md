# automotive-wire-codec

Zero-copy, big-endian codec building blocks for automotive diagnostic
protocols (DoIP, UDS, SOME/IP), written in Verus and proved against their
contracts.

Layout of `src/`:

- `be.rs` — what a big-endian byte string denotes (`be_value`), the bytes of
  a number (`be_bytes`), and the facts linking them.
- `read.rs` — `take`, `read_u8` … `read_u128_be`, `read_array`,
  `read_be_uint`: each returns `(value, remainder)` or `Incomplete`
  (`ReadUintError` for the variable-width reads, whose width is checked:
  `read_be_uint` up to 16 bytes, `read_be_uint_into::<T>` up to `T`'s width),
  and `ensure_len`.
- `sink.rs` — the `Sink` trait (a byte sink that knows its room), `SliceSink`
  over a caller's buffer, `Limited` bounding a sink to a byte budget, and the
  infallible `CountingSink`.

In verified code, the bytes written through a `SliceSink` are read back from
the slice that `SliceSink::into_written` returns: its contract says what the
slice holds, and that the caller's buffer ends up holding the same.
- `write.rs` — `write_u8` … `write_u128_be`, `write_be_uint`, `write_all`,
  `minimal_be_len`, and `WriteError`.
- `decode.rs`, `encode.rs` — the `Decode`, `DecodeIter` and `Encode` traits,
  their default methods and the `DecodeIterator` adapter.
- `error.rs`, `text.rs` — the error fragments and their messages.
- `laws.rs` — read/write round-trip laws.
- `sort.rs`, `oracle.rs` — the bounded insertion sort core and the checks a
  correct sort must pass.

`app/` holds what cannot be verified: a `Sink` over any `embedded_io` writer,
and copies of the error fragments that implement `Display` and
`core::error::Error`.
