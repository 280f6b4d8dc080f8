# Cluster statistics

Statistics on retries of failed payments, kept per cluster of error code, card network and issuer.

- `src/` is the library. Every function states its contract and Verus proves it, but for two that
  are taken on trust: that `String::push` appends a character (`text.rs`), and that the `time` crate
  knows which dates exist and on which day of the week they fall (`calendar.rs`).
  - `keys.rs`, `key_laws.rs`: the chain of clusters and the text under which a cluster is stored.
  - `document.rs`, `slot_map.rs`, `merge_laws.rs`: the counters of a cluster and how they grow.
  - `calendar.rs`: dates and hours. The day of the week comes from the `time` crate.
  - `events.rs`, `record.rs`: from a finished attempt to its event and its record.
  - `mathmodel.rs`: the time at which a cluster's statistics suggest to retry.
  - `storage.rs`: the pattern of a prefix scan.
  - `text.rs`: character-level operations on strings.
- `tests/` runs the library on concrete values.
- `app/` is ordinary Rust around it: JSON, the database table and logging.

## Conventions

A slot is named by its number in decimal: `dow` 0 is Monday, `dom` 0 is the first of the month, and
`hod` is the hour from 0 to 23. A slot that is absent was never attempted.

A stored key is `v1|error_code/card_type/issuer`. The segment `*` stands for a dimension that is
aggregated over, and only in ancestors; `UNK` stands for a value that is not known. The characters
`%`, `|`, `/` and `*` of a value are percent-encoded.
