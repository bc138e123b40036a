//! A minimal ledger engine: blocks of transactions chained by their hashes,
//! an account ledger with conservation checks, and two interchangeable
//! consensus strategies (proof-of-work nonce search and vote-weighted
//! delegate selection).

pub mod blockchain;
pub mod clock;
pub mod consensus;
pub mod digest;
pub mod errors;
pub mod text;
pub mod wallet;
