# crashlab-core

Verified core of a crash-reproduction lab, written in Verus:

- `fixture_linter` — lints fixture ids, types and metadata, and detects
  duplicate ids; every report lists its issues and passes exactly when none
  is at level `Error` or above.
- `fixture_manifest` — fixture metadata and manifests: validation, adding and
  looking up fixtures, filtering by type, tag and failure category.
- `signature_comparison` — snapshots of failure signatures and their
  comparison into new, fixed and recurring signatures.
- `str_map` — the insertion-ordered string-keyed map the above store their
  entries in; each key occurs once, and two maps are equal when they hold
  the same keys with equal values, in any order.
- `text` — string equality and decimal rendering used by the messages.

`app/` holds the JSON encoding and decoding of manifests and snapshots
(serde), which the verified library leaves out.
