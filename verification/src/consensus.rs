//! Consensus strategies for electing a block producer.
//!
//! Two interchangeable delegated-proof-of-stake variants: [`dpos`] ranks
//! delegates by votes and rotates deterministically through the top of the
//! ranking, while [`dpos_simple`] always picks the first delegate with the
//! maximum vote count. They produce different leader sequences and are
//! kept separate on purpose; the rotating variant is the richer default.

pub mod dpos;
pub mod dpos_simple;
