# mailward

A "Pi-hole for your inbox": it signs into mailboxes over IMAP, looks at unread
mail and marks it read or moves it to Trash according to declarative rules,
dry-run by default. Confidential and ignored folders are never scanned (not even
when named in the scan list), offered for inspection or cleaned; cleanup only
ever touches already-read mail, and a delete is always a move to Trash.

## Layout

- `src/` - the verified engine (Verus): the message model, the rule language
  (conditions, refs, first-match classification, the rules document with
  per-account overrides), the configuration model (`config.yaml`,
  `accounts.yaml`, vendor defaults, reading and deep-merging YAML documents), the folder
  policy, the pure decisions of a run, the IMAP and OAuth helpers that only
  compute, and the laws that tie them together.
- `tests/` - tests of the library on concrete values.
- `app/` - the server around it: GraphQL over axum, the IMAP session, the
  OAuth exchange and token cache, reading the files from disk, decoding merged
  documents through serde, and the run loop.

Ages and thresholds are kept exactly, in nanoseconds (a value between two
nanoseconds is rounded down), rather than as floating-point hours.
