# cashu_store

The wallet logic of a Cashu ecash wallet that keeps its tokens as Nostr
events, written in Verus: every function in `src/` carries a contract over
mathematical models (sequences, maps, integers) and is proved against it.

What the library covers:

- proof selection, denominations, fees and dust;
- the token store, its history, its sorting, pagination and caches;
- mint URLs, Lightning addresses, payment requests and tokens as text;
- the decisions of the long flows (receiving, paying, melting, minting,
  consolidating, recovering pending melts and quotes, cleaning up spent
  proofs, synchronising with the mint, publishing with retries) as
  functions from state and outcome to the next state and action;
- the wallet seed's derivation from the user's key;
- laws that span several functions, in `src/laws.rs`.

Calls into the Cashu library (`cdk`), `url`, `urlencoding`, `sha2` and
std's `to_lowercase` and string formatting stand behind small trusted items, each with a doc comment
that says what its contract claims of the outside function.

Layout:

- `src/` the verified library;
- `tests/` tests on concrete values, one file per module;
- `app/` the unverified parts around it: clocks, JSON, global state and
  copies of library types with serde derives.

Verus verifies the crate from `src/lib.rs`; the tests are ordinary Rust tests.
