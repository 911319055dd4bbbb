//! A minimal ledger core: blocks of transactions are validated against
//! chain-linkage, proof-of-work and transaction-balance rules, and the set of
//! unspent transaction outputs is maintained alongside the accepted chain.

pub mod block;
pub mod blockchain;
pub mod bytes;
pub mod hash_list;
pub mod hashing;
pub mod transaction;

pub use block::Block;
pub use blockchain::{BlockValidationErr, Blockchain};
pub use hashing::Hashable;
pub use transaction::{Output, Transaction};
