# presidio

Offline PII detection and anonymization, written in Verus: the analysis,
resolution and anonymization logic is verified against contracts stated over
mathematical models of its types.

## Layout

- `src/` — the verified library.
  - `types.rs`, `entity.rs`, `ids.rs`, `text.rs`: validated identifiers, spans,
    confidences (held as `f32` bit patterns) and entity tags.
  - `document.rs`: text documents and their exact bindings (ID, byte length,
    SHA-256 fingerprint).
  - `finding.rs`, `result.rs`: evidence-bearing findings and legacy results.
  - `recognizer.rs`, `registry.rs`, `validators.rs`, `context.rs`: pattern
    recognizers, the built-in registry, checksum validators and context words.
  - `metadata.rs`, `request.rs`, `recognition.rs`, `adapter.rs`: recognizer
    metadata, analysis requests, the candidate emitter and the pattern adapter.
  - `analyzer.rs`, `report.rs`: legacy analysis and candidate-preserving reports.
  - `canonical.rs`, `order.rs`, `preorder.rs`, `resolution.rs`,
    `report_resolution.rs`: canonical ordering and the versioned resolution
    policies; `reorder.rs`: what resolution reads of a candidate, so that the
    order in which candidates arrive cannot change whether it fails.
  - `anonymizer.rs`: replace, redact, mask and salted-hash operators.
  - `messages.rs`: the text of the library's error messages.
  - `laws.rs`: properties that relate several functions, proved as lemmas.
- `tests/` — executable tests of the library.
- `app/` — ordinary Rust around the library: `f32` entry points (score boosts,
  thresholds, confidence values and their messages) and serializable copies of
  library types.

Calls into `regex`, `sha2` and a few `std` functions stand behind small trusted
wrappers whose contracts name what those functions return.
