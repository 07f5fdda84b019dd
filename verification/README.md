# kappa_store

Content-addressed storage with encryption at rest, written in Verus.

- `src/` is the verified library.
  - `crypto/`: framed blob encryption over AES-256-GCM, verifier dispatch, errors.
  - `encrypted`: encrypted table keys and values.
  - `verified`: content under an address that was checked or computed.
  - `store`: the store trait, ingest under mandatory axes, verified reads.
  - `upload`, `parts`, `complete`: upload sessions, part digests, and the plan by
    which a staged file becomes a blob.
  - `index`: keys of the assertion index, prefix scans, query results.
  - `identity`: identity bindings and chains of successions.
  - `persistent`: configuration and state of the persistent store.
- `tests/` runs the library.
- `app/` is ordinary Rust around it: the redb database, files, the clock and
  serialized records.
