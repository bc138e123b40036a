//! The chain of blocks: transactions, blocks, the append-only chain, and the
//! block producer.

pub mod block;
pub mod chain;
pub mod data_block;
pub mod miner;
pub mod transaction;
