# reth_components

Verified components of an Ethereum execution node, written in Verus.

- `changeset_cache`: a cache of trie changesets by block hash, with pending computations, explicit
  eviction and metrics.
- `range_walk`: accumulating the changesets of a range of blocks, newest to oldest, while carrying
  the cumulative state revert along.
- `block_changesets`, `block_updates`: the trie changesets and the trie updates of one block.
- `chain_laws`, `repeat_laws`: what holds of changesets when the database describes one chain, and
  when it answers the same again.
- `trie_updates`, `hashed_state`: sorted trie changes and state reverts, and how they overlay.
- `changeset_rows`, `compact`: rows of the changeset segments and their encoding.
- `static_file_cursor`: finding the row of a block or transaction number in a static file.
- `overrides`: replacing parts of accounts before a call is simulated.
- `gas_price_oracle`, `tree_sender_escrow`: arguments of the gas price oracle, and the escrow for the
  sender to the engine tree.
- `primitives`, `b256_map`: plain values, and maps keyed by hashes.

What asks a database, waits for a thread or computes a trie is passed in as a closure. The contracts
say what is asked, in which order, and what is made of every possible answer. Where something must
not be asked, as changesets that are cached must not be computed, nothing is required of the closure.

`app/` holds what stands around the library: locks, blocking waits, the process-global escrow, the
command line, and impls of traits of other crates.
