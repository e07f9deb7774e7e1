# Pactrail

The verified core of a local coding agent: the rules by which a run talks to models,
edits an isolated copy of a workspace, asks for authority and records what it did.

- `src/models/`: provider-neutral requests and responses, the wire formats of four
  providers, server-sent events, images, retries, capability probes and phase routing.
- `src/workspace/`: safe relative paths, snapshots, change sets and the journaled apply,
  with its laws in `apply_laws.rs` and `apply_faults.rs`.
- `src/store/`: content-addressed artifacts, the event log and run leases.
- `src/tools/`: policies, approvals, and each built-in tool from its request to its
  report.
- `src/text.rs`, `src/json.rs`, `src/digest.rs`: texts, JSON values and digests, with the
  calls into outside crates.
- `app/`: HTTP, files, SQLite and processes around the library.

Contracts speak of views: texts are sequences of characters, JSON values are trees, and
errors are what they say. Proof functions whose names begin with `law_` state what holds
of several functions together.
