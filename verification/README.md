# secretspec_provider_sops

A SOPS provider for SecretSpec, written in Verus: the provider URIs and
credential field specifications, the rules that pick a file format and
extract a key from decrypted YAML, JSON or dotenv text, and the decisions
of the line-delimited JSON Secret Provider Protocol, each with a contract
proved by Verus.

Layout:

- `src/` — the verified library.
  - `lib.rs` — errors, format names and format inference from a path.
  - `uri.rs` — `sops://` URIs (parse, render, round trip) and field specs.
  - `credentials.rs` — resolved credential values and credential chains.
  - `provider.rs` — format choice, what a `sops --decrypt` run yields, the
    dotenv parser, the lookup steps of text and byte lookups, `PATH` and
    tool-output decisions, the doctor report.
  - `yaml.rs` — the YAML/JSON parse of decrypted text (through
    `serde_yaml`) and dot-path lookup in the parsed tree.
  - `protocol.rs` — protocol requests, responses and the per-request
    decision; `protocol/error_kind.rs` — the error kinds.
  - `search.rs` — the depth-first search for a key in YAML files, as a
    state machine driven by directory listings and lookups.
  - `text.rs`, `paths.rs` — character-level string and path helpers.
- `app/` — the programs around it: running `sops` and other tools, JSON
  (de)serialization of protocol lines and the doctor report, the command
  line, and the stdio loop of the protocol plugin.
- `tests/` — tests of the library.
