//! Verified components of an Ethereum execution node.

pub mod b256_map;
pub mod block_changesets;
pub mod block_laws;
pub mod block_updates;
pub mod cache_laws;
pub mod chain_laws;
pub mod changeset_cache;
pub mod changeset_rows;
pub mod compact;
pub mod config_laws;
pub mod cursor_laws;
pub mod gas_price_oracle;
pub mod hashed_state;
pub mod number_laws;
pub mod overlay_laws;
pub mod override_laws;
pub mod overrides;
pub mod primitives;
pub mod range_laws;
pub mod range_walk;
pub mod repeat_laws;
pub mod row_laws;
pub mod static_file_cursor;
pub mod tree_sender_escrow;
pub mod trie_updates;
