//! Decision logic of the gossip service. The periodic loops themselves
//! live with the node's network plumbing; what is decided on each tick
//! — which transaction to gossip, which chain to extend, what to evict
//! — is computed here, from plain values, so the decisions carry
//! contracts.

use vstd::prelude::*;
use std::collections::VecDeque;
use crate::chain::Blockchain;
use crate::digits::{spec_dec_u64, u64_to_dec};
use crate::entropy::{random_below, random_u64};
use crate::ledger::{Transaction, TransactionV};

verus! {

/// Builds a transaction whose identifiers are the decimal texts of the
/// given numbers.
pub fn synthesize_transaction(from_id: u64, to_id: u64, amount: u64) -> (t: Transaction)
    ensures
        t@ == (TransactionV {
            from: spec_dec_u64(from_id as nat),
            to: spec_dec_u64(to_id as nat),
            amount,
        }),
{
    Transaction { from: u64_to_dec(from_id), to: u64_to_dec(to_id), amount }
}

/// Synthesizes one gossip transaction with random fields. Whatever the
/// draws were, both identifiers are decimal texts.
pub fn generate_transaction() -> (t: Transaction)
    ensures
        exists|a: u64, b: u64|
            t@.from == spec_dec_u64(a as nat) && t@.to == spec_dec_u64(b as nat),
{
    let a = random_u64();
    let b = random_u64();
    let amount = random_u64();
    let t = synthesize_transaction(a, b, amount);
    proof {
        assert(t@.from == spec_dec_u64(a as nat) && t@.to == spec_dec_u64(b as nat));
    }
    t
}

/// One block-publisher tick's decision: which parent hash to mine on
/// and which pending transaction will be consumed and later evicted.
pub struct SharePlan {
    pub parent_hash: String,
    pub transaction: Transaction,
}

/// Decides a publisher tick from a peer's pool snapshot and chain set,
/// extending the tip of the already-chosen candidate chain `pick`. An
/// empty pool is a no-op, not an error.
pub fn plan_share_block(
    transaction_deque: &VecDeque<Transaction>,
    chains: &Vec<Blockchain>,
    pick: usize,
) -> (r: Option<SharePlan>)
    requires
        pick < chains.deep_view().len(),
        chains.deep_view()[pick as int].blockchain.len() > 0,
    ensures
        match r {
            Some(p) => {
                &&& transaction_deque.deep_view().len() > 0
                &&& p.transaction@ == transaction_deque.deep_view()[0]
                &&& p.parent_hash@ == chains.deep_view()[pick as int].blockchain.last().hash
            },
            None => transaction_deque.deep_view().len() == 0,
        },
{
    if transaction_deque.len() == 0 {
        return None;
    }
    let c = &chains[pick];
    let parent_hash = c.blockchain[c.blockchain.len() - 1].hash.clone();
    let transaction = transaction_deque[0].clone();
    proof {
        assert(chains@[pick as int].deep_view() == chains.deep_view()[pick as int]);
    }
    Some(SharePlan { parent_hash, transaction })
}

/// Decides a publisher tick, drawing the candidate chain uniformly at
/// random itself.
pub fn choose_share_block(
    transaction_deque: &VecDeque<Transaction>,
    chains: &Vec<Blockchain>,
) -> (r: Option<SharePlan>)
    requires
        chains.deep_view().len() > 0,
        forall|i: int|
            0 <= i < chains.deep_view().len() ==> #[trigger] chains.deep_view()[i].blockchain.len()
                > 0,
    ensures
        match r {
            Some(p) => {
                &&& transaction_deque.deep_view().len() > 0
                &&& p.transaction@ == transaction_deque.deep_view()[0]
                &&& exists|ci: int|
                    0 <= ci < chains.deep_view().len() && p.parent_hash@ == chains.deep_view()[
                        ci
                    ].blockchain.last().hash
            },
            None => transaction_deque.deep_view().len() == 0,
        },
{
    let n = chains.len();
    let pick = random_below(n as u64) as usize;
    let r = plan_share_block(transaction_deque, chains, pick);
    proof {
        if r is Some {
            assert((pick as int) < chains.deep_view().len());
            assert(r->0.parent_hash@ == chains.deep_view()[pick as int].blockchain.last().hash);
        }
    }
    r
}

} // verus!
