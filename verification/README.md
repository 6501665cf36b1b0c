# region_recovery

A verified library that lets a conversation go on after its endpoint moved to another region.
Encrypted reasoning and encrypted compaction checkpoints are bound to the region that made them.
The library decides what is left out of a request, which checkpoints have to be made again and in
which order, and when to refuse, so that no part of the conversation is lost silently.

- `src/` holds the library. Every function has a contract that Verus proves. The one thing taken
  on trust is the SHA-256 digest of the `sha2` crate (`src/fingerprint.rs`).
- `tests/` runs the library on concrete values.
- `app/` connects it to a session: locks, JSON, files, requests. It takes no decisions of its own.
