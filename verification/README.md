# Akashi

Document version control with tamper-evident, blockchain-anchored evidence. Each work is
an append-only chain of signed envelopes; the id of the newest one commits to the whole
history, and is anchored in Bitcoin (OpenTimestamps) and, optionally, in a Solana memo.
Anyone can check a ledger file offline.

- `src/` is the library, verified with Verus: what an envelope and a row hold, how a
  chain is judged, which files and transactions an anchor needs, and what every request
  is answered. `src/outside.rs` and `src/text.rs` hold all that is taken on trust from
  other crates and from std; `src/base58.rs` says what a base58 text stands for.
- `src/chain_laws.rs`, `src/laws.rs`, `src/anchor_laws.rs` and `src/work_laws.rs` state
  what holds over several calls.
- `tests/` runs the library on known values.
- `app/` is the program: the server, its SQLite tables and files, the `ots` client, the
  Solana node, and the offline verifier `akashi-verify`.

| Method | Path | |
|---|---|---|
| POST | `/api/works` | create a work |
| POST | `/api/works/:lid/versions` | upload a version (multipart, `token` required) |
| GET | `/api/works/:lid` | versions, chain status and anchors |
| GET | `/api/works/:lid/ledger.jsonl` | ledger for offline verification |
| GET | `/api/works/:lid/proof.ots` | OpenTimestamps proof |
| GET | `/api/cas/:hash` (and `/verify`) | document by its hash |
| POST | `/api/verify` | certificate on an uploaded file, or on `?hash=` / `?id=` |
