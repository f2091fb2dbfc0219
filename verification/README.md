# chronon_spectra_telemetry

Spectra-backed self-telemetry for Chronon, as a verified Verus library.

- `src/` — the verified library: label bounding and error classification (`labels`), the
  remapping of Chronon counters / gauges / events onto typed Spectra schemas (`metrics`), event
  field sets and message sanitising (`events`), the sink choice from `CHRONON_TELEMETRY`
  (`install`), the field coercions used when a sink consumer re-dispatches raw emits
  (`sink_forward`), and the character-level helpers they share (`text`).
- `app/` — host wiring that Verus does not see: environment reads, the `TelemetrySink`
  implementation, the process-wide `OnceLock` install, serde_json conversions, the Spectra
  schema macros and the emits themselves.
- `tests/` — scenario tests of the library.
