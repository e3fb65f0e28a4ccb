//! Verified core of a post-quantum proof-of-stake ledger.
//!
//! `crypto` holds keys, signatures, addresses, hashes and key files; `identity`
//! holds names, personhood and social recovery; `executor` holds the state and
//! what transactions and blocks do to it; `mempool` holds the transactions that
//! wait for a block.
pub mod admission;
pub mod codec;
pub mod crypto;
pub mod encoding;
pub mod executor;
pub mod identity;
pub mod mempool;
pub mod order;
pub mod sums;
pub mod table;
pub mod text;
pub mod transaction;
