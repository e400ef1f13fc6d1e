# speech_batch

Verified logic for batch jobs on recorded speech.

- `src/binary.rs`: floating-point values as bit patterns, and their order.
- `src/arithmetic.rs`: formulas over such values; the caller supplies the single operations.
- `src/segment.rs`: speech segments.
- `src/split.rs`, `src/split_laws.rs`: cutting long segments at quiet points.
- `src/pack.rs`, `src/pack_laws.rs`: packing short segments into full requests.
- `src/transcript.rs`: transcript records and the document they are saved as.
- `src/layout.rs`: which value of the document stands under which key.
- `src/save.rs`: the order of steps that makes saving all or nothing.
- `src/unload.rs`: when an engine is unloaded after a job.
- `src/outside.rs`: what is relied on of the standard library, `uuid` and `chrono`.

`app/` holds what stands around the library: native arithmetic, files, JSON text, the
engines and the lock on their life cycle.
