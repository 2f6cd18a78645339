//! A node's chain state: the `Blockchain` type — a FIFO pool of pending
//! transactions plus a hash-linked list of blocks — with the structural
//! predicates that mining and fork resolution preserve.

use vstd::prelude::*;
use std::collections::VecDeque;
use crate::digits::{spec_dec_u64, spec_dec_i64, i64_to_dec, is_dec_digits, lemma_spec_dec_u64_digits};
use crate::hashing::{hash_text_of, meets_difficulty};
use crate::ledger::{Transaction, TransactionV, Header, Block, BlockV};

verus! {

/// Mathematical value of a [`Blockchain`].
pub struct BlockchainV {
    pub transactions: Seq<TransactionV>,
    pub blockchain: Seq<BlockV>,
}

/// One candidate chain together with its pending-transaction pool.
#[derive(Debug)]
pub struct Blockchain {
    pub transactions: VecDeque<Transaction>,
    pub blockchain: Vec<Block>,
}

impl View for Blockchain {
    type V = BlockchainV;

    open spec fn view(&self) -> BlockchainV {
        BlockchainV {
            transactions: self.transactions.deep_view(),
            blockchain: self.blockchain.deep_view(),
        }
    }
}

impl DeepView for Blockchain {
    type V = BlockchainV;

    open spec fn deep_view(&self) -> BlockchainV {
        self.view()
    }
}

/// Chain integrity: every block after the first extends its predecessor.
pub open spec fn chain_linked(c: Seq<BlockV>) -> bool {
    forall|i: int| 0 < i < c.len() ==> c[i].prev_hash == c[i - 1].hash
}

/// The preimage hashed into a block: the transaction fields (amount as
/// decimal text), the parent hash, and the nonce as decimal text.
pub open spec fn block_data_of(t: TransactionV, nonce: u64, prev_hash: Seq<char>) -> Seq<char> {
    t.from + t.to + spec_dec_u64(t.amount as nat) + prev_hash + spec_dec_u64(nonce as nat)
}

/// A properly mined block: its hash is the hash text of its own
/// preimage, and that hash meets the difficulty predicate.
pub open spec fn mined_block_ok(b: BlockV) -> bool {
    &&& b.hash == hash_text_of(block_data_of(b.transaction, b.nonce, b.prev_hash))
    &&& meets_difficulty(b.hash)
}

/// The synthetic first block of a chain: empty transaction, empty parent
/// hash. Its own hash is an arbitrary bootstrap string, not subject to
/// the difficulty predicate.
pub open spec fn genesis_ok(b: BlockV) -> bool {
    &&& b.prev_hash == Seq::<char>::empty()
    &&& b.transaction.from == Seq::<char>::empty()
    &&& b.transaction.to == Seq::<char>::empty()
    &&& b.transaction.amount == 0
}

/// A usable candidate chain: nonempty and hash-linked.
pub open spec fn chain_ok(c: Seq<BlockV>) -> bool {
    c.len() > 0 && chain_linked(c)
}

/// Every block after the genesis was properly mined: its hash is the
/// hash text of its own preimage and meets the difficulty predicate.
/// Only the block at index 0 is exempt.
pub open spec fn mined_after_genesis(c: Seq<BlockV>) -> bool {
    forall|i: int| 0 < i < c.len() ==> mined_block_ok(#[trigger] c[i])
}

impl Clone for Blockchain {
    fn clone(&self) -> (r: Self)
        ensures
            r@ == self@,
    {
        let transactions = self.transactions.clone();
        let blockchain = self.blockchain.clone();
        proof {
            assert forall|i: int| 0 <= i < self.transactions@.len() implies transactions@[i]
                == self.transactions@[i] by {
                assert(vstd::pervasive::cloned::<Transaction>(
                    self.transactions@[i],
                    transactions@[i],
                ));
            }
            assert(transactions@ =~= self.transactions@);
            assert forall|i: int| 0 <= i < self.blockchain@.len() implies blockchain@[i]
                == self.blockchain@[i] by {
                assert(vstd::pervasive::cloned::<Block>(self.blockchain@[i], blockchain@[i]));
            }
            assert(blockchain@ =~= self.blockchain@);
        }
        Blockchain { transactions, blockchain }
    }
}

impl Default for Blockchain {
    /// An entirely empty node state: no pending transactions, no blocks.
    fn default() -> (r: Self)
        ensures
            r@.transactions == Seq::<TransactionV>::empty(),
            r@.blockchain == Seq::<BlockV>::empty(),
    {
        let r = Blockchain { transactions: VecDeque::new(), blockchain: Vec::new() };
        proof {
            assert(r@.transactions =~= Seq::<TransactionV>::empty());
            assert(r@.blockchain =~= Seq::<BlockV>::empty());
        }
        r
    }
}

impl Blockchain {
    /// A fresh node state holding only a genesis block whose hash is the
    /// decimal text of its (clock-supplied) timestamp.
    pub fn new() -> (r: Self)
        ensures
            r@.transactions == Seq::<TransactionV>::empty(),
            r@.blockchain.len() == 1,
            genesis_ok(r@.blockchain[0]),
            r@.blockchain[0].nonce == 0,
            r@.blockchain[0].timestamp >= 0,
            r@.blockchain[0].hash == spec_dec_i64(r@.blockchain[0].timestamp as int),
            is_dec_digits(r@.blockchain[0].hash),
    {
        let mut blchn = Blockchain { transactions: VecDeque::new(), blockchain: Vec::new() };
        Blockchain::initialize(&mut blchn);
        proof {
            assert(blchn@.transactions =~= Seq::<TransactionV>::empty());
        }
        blchn
    }

    /// Appends a genesis block to `blch`'s chain, leaving the pool and
    /// the existing blocks untouched.
    pub fn initialize(blch: &mut Blockchain)
        ensures
            final(blch)@.transactions == old(blch)@.transactions,
            final(blch)@.blockchain.len() == old(blch)@.blockchain.len() + 1,
            forall|i: int|
                0 <= i < old(blch)@.blockchain.len() ==> final(blch)@.blockchain[i] == old(
                    blch,
                )@.blockchain[i],
            genesis_ok(final(blch)@.blockchain.last()),
            final(blch)@.blockchain.last().nonce == 0,
            final(blch)@.blockchain.last().timestamp >= 0,
            final(blch)@.blockchain.last().hash == spec_dec_i64(
                final(blch)@.blockchain.last().timestamp as int,
            ),
            is_dec_digits(final(blch)@.blockchain.last().hash),
    {
        let timestamp = crate::entropy::now_timestamp();
        let genesis = Block {
            header: Header { timestamp, nonce: 0 },
            prev_hash: String::new(),
            transaction: Transaction { from: String::new(), to: String::new(), amount: 0 },
            hash: i64_to_dec(timestamp),
        };
        blch.blockchain.push(genesis);
        proof {
            assert(final(blch)@.blockchain.last() == final(blch)@.blockchain[old(
                blch,
            )@.blockchain.len() as int]);
            lemma_spec_dec_u64_digits(timestamp as nat);
            assert(spec_dec_i64(timestamp as int) == spec_dec_u64(timestamp as nat));
        }
    }

    /// Queues a new pending transaction at the tail of the pool.
    pub fn newTransaction(&mut self, from: String, to: String, amount: u64)
        ensures
            final(self)@.transactions == old(self)@.transactions.push(
                TransactionV { from: from@, to: to@, amount },
            ),
            final(self)@.blockchain == old(self)@.blockchain,
    {
        let t = Transaction { from, to, amount };
        self.transactions.push_back(t);
        proof {
            assert(final(self)@.transactions =~= old(self)@.transactions.push(t@));
        }
    }

    /// Queues a new pending transaction; an alias of
    /// [`Blockchain::newTransaction`] for callers that use snake case.
    pub fn new_transaction(&mut self, from: String, to: String, amount: u64)
        ensures
            final(self)@.transactions == old(self)@.transactions.push(
                TransactionV { from: from@, to: to@, amount },
            ),
            final(self)@.blockchain == old(self)@.blockchain,
    {
        self.newTransaction(from, to, amount)
    }

    /// The pending transaction at `index`, if the pool is that deep.
    pub fn get_transaction_by_index(&self, index: usize) -> (r: Option<&Transaction>)
        ensures
            match r {
                Some(t) => index < self@.transactions.len() && t@ == self@.transactions[
                    index as int
                ],
                None => index >= self@.transactions.len(),
            },
    {
        if index < self.transactions.len() {
            Some(&self.transactions[index])
        } else {
            None
        }
    }

    /// The block at `index`, if the chain is that long.
    pub fn get_block_by_index(&self, index: usize) -> (r: Option<&Block>)
        ensures
            match r {
                Some(b) => index < self@.blockchain.len() && b@ == self@.blockchain[index as int],
                None => index >= self@.blockchain.len(),
            },
    {
        if index < self.blockchain.len() {
            Some(&self.blockchain[index])
        } else {
            None
        }
    }

    /// The chain's tip, if any block exists.
    pub fn get_top_block(&self) -> (r: Option<&Block>)
        ensures
            match r {
                Some(b) => self@.blockchain.len() > 0 && b@ == self@.blockchain.last(),
                None => self@.blockchain.len() == 0,
            },
    {
        if self.blockchain.len() > 0 {
            Some(&self.blockchain[self.blockchain.len() - 1])
        } else {
            None
        }
    }
}

/// Decides chain integrity: whether every block after the first names
/// its predecessor's hash as its parent.
pub fn validate(chain: &Vec<Block>) -> (ok: bool)
    ensures
        ok == chain_linked(chain.deep_view()),
{
    let mut i: usize = 1;
    while i < chain.len()
        invariant
            1 <= i,
            forall|j: int|
                0 < j < i && j < chain.deep_view().len() ==> chain.deep_view()[j].prev_hash
                    == chain.deep_view()[j - 1].hash,
        decreases chain@.len() - i,
    {
        if !(chain[i].prev_hash == chain[i - 1].hash) {
            proof {
                assert(chain.deep_view()[i as int].prev_hash != chain.deep_view()[i as int
                    - 1].hash);
                assert(!chain_linked(chain.deep_view()));
            }
            return false;
        }
        i = i + 1;
    }
    true
}

} // verus!
