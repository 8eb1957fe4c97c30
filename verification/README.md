# alec

A compact wire codec for sensor data whose emitter and receiver share an
evolving context (a pattern dictionary and per-source statistics), written
in Verus: the library's behaviour is stated in `requires`/`ensures`
contracts and proved.

## Layout

- `src/` — the verified library.
  - `protocol.rs`: priorities, message and encoding types, the 10-byte
    header, compact fixed-channel header, frames with and without CRC.
  - `encoder.rs`, `decoder.rs`: framing of data messages, varints, reading
    of value bytes (raw, delta, pattern references, multi-value payloads),
    and fixed-channel frames (keyframe marker, gap and context-version
    mismatch detection, per-channel bitmap).
  - `context/`: the shared context (dictionary with digest index, source
    statistics, pruning and renumbering, export/import, the `ALCS`
    persisted form) and the `ALEC` preload file.
  - `sync.rs`: version announcements, requests, diffs and their wire form.
  - `channel.rs`: in-memory channels, channel pairs and a lossy channel.
  - `fleet.rs`: many emitters with a context each, the promotion of the
    patterns most of them share into a fleet context, fleet statistics.
  - `testdata.rs`: configuration of generated datasets (industries and
    their scenarios, sample timing, anomaly placement).
  - `security.rs`, `tls.rs`, `health.rs`, `recovery.rs`, `metrics.rs`:
    audit log, rate limiting, certificate checks, TLS settings, health
    checks, circuit breaker and degradation levels, compression counters.
  - `hashing.rs`, `clock.rs`: the calls into xxHash, CRC-32 and the
    clocks, with the contracts the library relies on.
  - `sorted_map.rs`, `bytes.rs`, `text.rs`: sorted key/value vectors,
    byte-order helpers and decimal/hex text.
- `tests/` — tests on concrete values.
- `app/` — the code around the library that works on floating-point
  values (prediction, classification, choosing encodings and rebuilding
  values, ratios and reports, retry backoff, fleet analytics, generation of
  sensor datasets), file I/O, and error types implementing
  `std::error::Error`.

Floating-point values that the library stores or transmits are held as
their IEEE-754 bit patterns (`*_bits` fields).
