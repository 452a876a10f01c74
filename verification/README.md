# ledger_api

A small double-entry ledger service, verified with Verus.

- `src/proto.rs` — the request and response messages, and how enumeration
  codes read back.
- `src/actors.rs`, `src/actors/` — the state of each part of the service:
  the book catalog (`book_manager`), the operation counter and ending
  balances (`acceptor`), the acknowledgement (`writer`) and the apply
  counter (`applier`).
- `src/service.rs` — `LedgerApi`: creating accounts, splitting an operation
  per book, signing entries for their book, and answering with ending
  balances; the laws of the split.
- `src/error.rs` — errors and the RPC status each maps to.
- `src/decimal.rs` — decimal rendering used in error messages.
- `app/` — the process around the library: the clock, serialising requests,
  and the RPC status type.
