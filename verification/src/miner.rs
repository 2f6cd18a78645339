//! The miner: searches nonce space until a candidate block's hash text
//! meets the difficulty predicate, then packages the block. Each call
//! draws at most a fixed budget of nonces — the search's cancellation
//! point — and reports `MiningCancelled` when the budget runs out, so a
//! caller can re-check its situation and retry on the next tick.

use vstd::prelude::*;
use vstd::string::StringExecFns;
use std::collections::VecDeque;
use crate::LedgerError;
use crate::chain::{Blockchain, block_data_of, mined_block_ok, chain_linked};
use crate::digits::u64_to_dec;
use crate::entropy::{now_timestamp, random_u64};
use crate::hashing::{hash_string, satisfies_difficulty};
use crate::ledger::{Block, Header, Transaction};

verus! {

/// How many nonces one mining call draws before giving up. With the
/// difficulty predicate of this ledger a draw succeeds roughly once in
/// five tries, so exhausting this budget without success does not happen
/// in practice; the bound exists so that mining is cancellable rather
/// than a loop that can spin forever.
pub const MAX_MINE_ATTEMPTS: u64 = 1000000;

/// Builds the preimage string of a candidate block.
fn build_block_data(transaction: &Transaction, nonce: u64, prev_hash: &str) -> (s: String)
    ensures
        s@ == block_data_of(transaction@, nonce, prev_hash@),
{
    let mut data = String::new();
    data.append(transaction.from.as_str());
    data.append(transaction.to.as_str());
    let amount_text = u64_to_dec(transaction.amount);
    data.append(amount_text.as_str());
    data.append(prev_hash);
    let nonce_text = u64_to_dec(nonce);
    data.append(nonce_text.as_str());
    proof {
        assert(data@ =~= block_data_of(transaction@, nonce, prev_hash@));
    }
    data
}

/// Draws one random nonce and tests the candidate it yields.
fn attempt_mine(prev_hash: &str, transaction: &Transaction) -> (r: Option<Block>)
    ensures
        r matches Some(b) ==> {
            &&& b@.prev_hash == prev_hash@
            &&& b@.transaction == transaction@
            &&& mined_block_ok(b@)
        },
{
    let nonce = random_u64();
    let data = build_block_data(transaction, nonce, prev_hash);
    let hash = hash_string(data.as_str());
    if satisfies_difficulty(hash.as_str()) {
        let timestamp = now_timestamp();
        Some(
            Block {
                header: Header { timestamp, nonce },
                prev_hash: String::from_str(prev_hash),
                transaction: transaction.clone(),
                hash,
            },
        )
    } else {
        None
    }
}

/// Mines a block carrying `transaction` that extends the block whose
/// hash is `prev_hash`, drawing at most `attempts` nonces. `None` means
/// the budget ran out first.
pub fn mine_bounded(prev_hash: &str, transaction: &Transaction, attempts: u64) -> (r: Option<
    Block,
>)
    ensures
        r matches Some(b) ==> {
            &&& b@.prev_hash == prev_hash@
            &&& b@.transaction == transaction@
            &&& mined_block_ok(b@)
        },
        attempts == 0 ==> r is None,
{
    let mut i: u64 = 0;
    while i < attempts
        invariant
            i <= attempts,
        decreases attempts - i,
    {
        match attempt_mine(prev_hash, transaction) {
            Some(b) => {
                return Some(b);
            },
            None => {},
        }
        i = i + 1;
    }
    None
}

/// Mines a block carrying `transaction` on top of `prev_hash` with the
/// default attempt budget.
pub fn mine(prev_hash: &str, transaction: &Transaction) -> (r: Option<Block>)
    ensures
        r matches Some(b) ==> {
            &&& b@.prev_hash == prev_hash@
            &&& b@.transaction == transaction@
            &&& mined_block_ok(b@)
        },
{
    mine_bounded(prev_hash, transaction, MAX_MINE_ATTEMPTS)
}

/// Mines a block over the head of a pending-transaction pool without
/// consuming it. Fails fast with `EmptyPool` when nothing is queued.
pub fn generate_block(prev_hash: &str, transaction_deque: &VecDeque<Transaction>) -> (r: Result<
    Block,
    LedgerError,
>)
    ensures
        match r {
            Ok(b) => {
                &&& transaction_deque.deep_view().len() > 0
                &&& b@.transaction == transaction_deque.deep_view()[0]
                &&& b@.prev_hash == prev_hash@
                &&& mined_block_ok(b@)
            },
            Err(e) => {
                &&& e == LedgerError::EmptyPool || e == LedgerError::MiningCancelled
                &&& (e == LedgerError::EmptyPool <==> transaction_deque.deep_view().len() == 0)
            },
        },
{
    if transaction_deque.len() == 0 {
        return Err(LedgerError::EmptyPool);
    }
    let first = &transaction_deque[0];
    match mine(prev_hash, first) {
        Some(b) => Ok(b),
        None => Err(LedgerError::MiningCancelled),
    }
}

impl Blockchain {
    /// Mines the pool's head transaction into a block extending the
    /// chain's tip, appends it, and consumes the transaction. Fails
    /// fast with `EmptyPool` when nothing is queued; on
    /// `MiningCancelled` nothing changes.
    pub fn mint(&mut self) -> (r: Result<(), LedgerError>)
        requires
            old(self)@.blockchain.len() > 0,
        ensures
            match r {
                Ok(()) => {
                    &&& old(self)@.transactions.len() > 0
                    &&& final(self)@.transactions == old(self)@.transactions.drop_first()
                    &&& final(self)@.blockchain.len() == old(self)@.blockchain.len() + 1
                    &&& final(self)@.blockchain.drop_last() == old(self)@.blockchain
                    &&& final(self)@.blockchain.last().transaction == old(self)@.transactions[0]
                    &&& final(self)@.blockchain.last().prev_hash == old(
                        self,
                    )@.blockchain.last().hash
                    &&& mined_block_ok(final(self)@.blockchain.last())
                    &&& chain_linked(old(self)@.blockchain) ==> chain_linked(
                        final(self)@.blockchain,
                    )
                },
                Err(e) => {
                    &&& e == LedgerError::EmptyPool || e == LedgerError::MiningCancelled
                    &&& (e == LedgerError::EmptyPool <==> old(self)@.transactions.len() == 0)
                    &&& final(self)@ == old(self)@
                },
            },
    {
        if self.transactions.len() == 0 {
            return Err(LedgerError::EmptyPool);
        }
        let prev_hash = self.blockchain[self.blockchain.len() - 1].hash.clone();
        let mined = {
            let first = &self.transactions[0];
            mine(prev_hash.as_str(), first)
        };
        match mined {
            Some(b) => {
                self.blockchain.push(b);
                self.transactions.pop_front();
                proof {
                    assert(final(self)@.transactions =~= old(self)@.transactions.drop_first());
                    assert(final(self)@.blockchain =~= old(self)@.blockchain.push(b@));
                    assert(final(self)@.blockchain.drop_last() =~= old(self)@.blockchain);
                    assert(final(self)@.blockchain.last() == b@);
                    if chain_linked(old(self)@.blockchain) {
                        let fin = final(self)@.blockchain;
                        let prior = old(self)@.blockchain;
                        assert forall|i: int|
                            0 < i < fin.len() implies fin[i].prev_hash == fin[i - 1].hash by {
                            if i < prior.len() {
                                assert(prior[i].prev_hash == prior[i - 1].hash);
                            }
                        }
                    }
                }
                Ok(())
            },
            None => Err(LedgerError::MiningCancelled),
        }
    }

    /// Mines the pool's head transaction into a block extending `prev_hash`
    /// and consumes it from the pool on success. Fails fast with
    /// `EmptyPool` when nothing is queued; on `MiningCancelled` the pool is
    /// left untouched.
    pub fn newBlock(prev_hash: String, queue: &mut VecDeque<Transaction>) -> (r: Result<
        Block,
        LedgerError,
    >)
        ensures
            match r {
                Ok(b) => {
                    &&& old(queue).deep_view().len() > 0
                    &&& final(queue).deep_view() == old(queue).deep_view().drop_first()
                    &&& b@.transaction == old(queue).deep_view()[0]
                    &&& b@.prev_hash == prev_hash@
                    &&& mined_block_ok(b@)
                },
                Err(e) => {
                    &&& e == LedgerError::EmptyPool || e == LedgerError::MiningCancelled
                    &&& (e == LedgerError::EmptyPool <==> old(queue).deep_view().len() == 0)
                    &&& final(queue)@ == old(queue)@
                },
            },
    {
        if queue.len() == 0 {
            return Err(LedgerError::EmptyPool);
        }
        let mined = {
            let first = &queue[0];
            mine(prev_hash.as_str(), first)
        };
        match mined {
            Some(b) => {
                queue.pop_front();
                proof {
                    assert(final(queue).deep_view() =~= old(queue).deep_view().drop_first());
                }
                Ok(b)
            },
            None => Err(LedgerError::MiningCancelled),
        }
    }

    /// Mines one block for every queued transaction, in FIFO order, each
    /// extending the then-current tip, until the queue is empty or one
    /// mining call exhausts its budget. On `MiningCancelled` the blocks
    /// mined so far stay appended and the unconsumed tail stays queued.
    pub fn fillBlockchain(blch: &mut Blockchain, queue: &mut VecDeque<Transaction>) -> (r: Result<
        (),
        LedgerError,
    >)
        requires
            old(blch)@.blockchain.len() > 0,
        ensures
            r is Ok ==> final(queue).deep_view().len() == 0,
            r is Err ==> r == Err::<(), LedgerError>(LedgerError::MiningCancelled),
            final(queue).deep_view().len() <= old(queue).deep_view().len(),
            final(queue).deep_view() == old(queue).deep_view().skip(
                old(queue).deep_view().len() - final(queue).deep_view().len(),
            ),
            final(blch)@.transactions == old(blch)@.transactions,
            final(blch)@.blockchain.len() == old(blch)@.blockchain.len() + old(
                queue,
            ).deep_view().len() - final(queue).deep_view().len(),
            forall|i: int|
                0 <= i < old(blch)@.blockchain.len() ==> final(blch)@.blockchain[i] == old(
                    blch,
                )@.blockchain[i],
            forall|i: int|
                old(blch)@.blockchain.len() <= i < final(blch)@.blockchain.len() ==> {
                    &&& final(blch)@.blockchain[i].transaction == old(queue).deep_view()[i - old(
                        blch,
                    )@.blockchain.len()]
                    &&& final(blch)@.blockchain[i].prev_hash == final(blch)@.blockchain[i - 1].hash
                    &&& mined_block_ok(final(blch)@.blockchain[i])
                },
            chain_linked(old(blch)@.blockchain) ==> chain_linked(final(blch)@.blockchain),
    {
        while queue.len() > 0
            invariant
                old(blch)@.blockchain.len() > 0,
                queue.deep_view().len() <= old(queue).deep_view().len(),
                queue.deep_view() == old(queue).deep_view().skip(
                    old(queue).deep_view().len() - queue.deep_view().len(),
                ),
                blch@.transactions == old(blch)@.transactions,
                blch@.blockchain.len() == old(blch)@.blockchain.len() + old(queue).deep_view().len()
                    - queue.deep_view().len(),
                forall|i: int|
                    0 <= i < old(blch)@.blockchain.len() ==> blch@.blockchain[i] == old(
                        blch,
                    )@.blockchain[i],
                forall|i: int|
                    old(blch)@.blockchain.len() <= i < blch@.blockchain.len() ==> {
                        &&& blch@.blockchain[i].transaction == old(queue).deep_view()[i - old(
                            blch,
                        )@.blockchain.len()]
                        &&& blch@.blockchain[i].prev_hash == blch@.blockchain[i - 1].hash
                        &&& mined_block_ok(blch@.blockchain[i])
                    },
            decreases queue@.len(),
        {
            let ghost pre_chain = blch@.blockchain;
            let ghost pre_queue = queue.deep_view();
            let prev_hash = blch.blockchain[blch.blockchain.len() - 1].hash.clone();
            match Blockchain::newBlock(prev_hash, queue) {
                Ok(b) => {
                    blch.blockchain.push(b);
                    proof {
                        let oq = old(queue).deep_view();
                        let consumed = oq.len() - pre_queue.len();
                        let ol = old(blch)@.blockchain.len() as int;
                        assert(queue.deep_view() == pre_queue.drop_first());
                        assert(queue.deep_view() =~= oq.skip(consumed + 1));
                        assert(blch@.blockchain =~= pre_chain.push(b@));
                        assert(b@.transaction == pre_queue[0]);
                        assert(pre_queue[0] == oq[consumed]);
                        assert forall|i: int|
                            ol <= i < blch@.blockchain.len() implies {
                                &&& blch@.blockchain[i].transaction == oq[i - ol]
                                &&& blch@.blockchain[i].prev_hash == blch@.blockchain[i - 1].hash
                                &&& mined_block_ok(blch@.blockchain[i])
                            } by {
                            if i < pre_chain.len() {
                                assert(blch@.blockchain[i] == pre_chain[i]);
                                assert(i - 1 < pre_chain.len());
                            } else {
                                assert(i == pre_chain.len());
                                assert(blch@.blockchain[i] == b@);
                                assert(i - ol == consumed);
                            }
                        }
                    }
                },
                Err(e) => {
                    proof {
                        assert(e == LedgerError::MiningCancelled);
                    }
                    return Err(e);
                },
            }
        }
        proof {
            if chain_linked(old(blch)@.blockchain) {
                assert(chain_linked(final(blch)@.blockchain));
            }
        }
        Ok(())
    }

}

} // verus!
