# paras-nft-contract

The Paras collectibles NFT contract for NEAR, written in Verus.

- `src/` is the verified library. The contract's state (series, tokens, owner
  lists, approvals, admins, fees) is held as plain values in `state::Contract`;
  each operation takes what it reads from the runtime (caller, attached deposit,
  time, prepaid gas, callback results) as arguments, and returns what the
  runtime must do (payments, events, cross-contract calls) as values. Every
  operation keeps the invariant `Contract::wf` and states its effect on the
  view `ContractView`; a refused operation leaves the state unchanged.
  `laws.rs` holds the properties that span operations.
- The state is not kept in near-sdk's storage collections (`UnorderedMap`,
  `LookupMap`, `TreeMap`, `LazyOption`, ...) nor run through
  near-contract-standards' `NonFungibleToken`: their every read and write is a
  host call into contract storage (`env::storage_read`/`storage_write`), which
  only works inside the NEAR runtime, so no wrapper from plain values to plain
  values can call them. The library keeps the same data in `Vec`s, with the
  invariants those collections gave (unique keys, an owner's token set without
  repeats, tokens ordered by id), and does the standard's transfer, resolve,
  approval and metadata checks itself, so that they are verified.
- `app/` is the NEAR binding: it keeps the library's state in contract storage,
  reads the runtime context, turns refusals into panics, and carries out the
  payments, logs and calls.
- `tests/` exercises the library on concrete values.
