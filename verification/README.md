# gossip-membership: verified message codec and payload compression

- `src/compression.rs`: capability negotiation, the compression algorithm
  codes, the `Compressor` (LZ4 block format with the size prepended, through
  `lz4_flex`) and the `CompressionStats` counters, with the laws that tie
  them together (negotiation needs both peers, codes read back, compressed
  payloads decompress to what was compressed, the counters track what was
  recorded).
- `src/message.rs` (with `message/flags.rs`, `message/capabilities.rs`):
  the wire format of gossip messages; `encode` proves that `decode` gives
  the message back, compressed or not.
- `src/wire.rs`: little-endian integers.
- `app/lib.rs`: the compression ratio as a floating-point number.
