//! A minimal proof-of-work ledger: hash-linked blocks over a FIFO transaction
//! pool, a miner bound by a difficulty predicate, a fork-aware chain store
//! with longest-chain consensus, and a binary snapshot codec.

pub mod chain;
pub mod codec;
pub mod config;
pub mod digits;
pub mod emulation;
pub mod entropy;
pub mod forks;
pub mod gossip;
pub mod hashing;
pub mod ledger;
pub mod miner;
pub mod pool;

use vstd::prelude::*;

verus! {

/// The recoverable failure modes of the ledger.
#[derive(Clone, Copy, PartialEq, Eq, Structural, Debug)]
pub enum LedgerError {
    /// Mining or peeking was attempted while no transaction was queued.
    EmptyPool,
    /// A received block's parent hash matches no block in any known chain.
    NoMatchingParent,
    /// A mining call exhausted its attempt budget before finding an
    /// acceptable nonce. The budget is the miner's cancellation point;
    /// the caller may simply retry on its next tick.
    MiningCancelled,
    /// A persisted snapshot failed to decode.
    CorruptSnapshot,
}

} // verus!
