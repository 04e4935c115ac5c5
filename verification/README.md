# oracleguard

Policy-governed treasury disbursement decisions for Cardano, with their
canonical evidence encoding and an offline evidence verifier, written in
Verus: every decision function carries a contract over a mathematical
model and is proved against it.

## Layout

- `src/math.rs` — release bands and the release cap (integer only).
- `src/reason.rs` — denial reasons and the reason-to-gate partition.
- `src/intent.rs` — intent, oracle fact/provenance, address, asset, effect.
- `src/evaluate.rs` — the release-cap evaluator and its laws.
- `src/wire.rs`, `src/codec.rs` — postcard varints and the canonical byte
  form of the intent-domain types, with decoders and round-trip lemmas.
- `src/evidence.rs` — evidence records, `encode_evidence` /
  `decode_evidence`, and the encoding laws (round trip, strictness,
  injectivity).
- `src/framing.rs` — records are self-delimiting; a truncated record is
  refused.
- `src/encoding.rs` — the BLAKE3 `intent_id` over the provenance-free
  identity bytes.
- `src/report.rs`, `src/integrity.rs`, `src/replay.rs`, `src/bundle.rs` —
  the offline verifier: typed findings, integrity checks, evaluator
  replay, bundle loading, and the exactness of the verdict.
- `src/json.rs` — the strict JSON grammar over bytes, keeping the text of
  strings, keys and integers as written, with its scanners.
- `src/keysort.rs`, `src/policy.rs` — canonical policy JSON (sorted keys,
  no whitespace, no floats, text as written) and the SHA-256 `policy_ref`.
- `src/reread.rs` — canonical bytes read back as the sorted document, so
  canonicalization is idempotent.
- `src/adapter.rs` — the `charli3 aggregate` argument vector and the
  classification of a finished run.
- `app/` — the I/O edge: reading bundle files and spawning the `charli3`
  process.
- `tests/` — scenario tests against concrete values.
