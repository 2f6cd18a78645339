//! The ledger entities: `Transaction`, `Header`, `Block` — immutable value
//! types with structural equality, together with their mathematical views.

use vstd::prelude::*;

verus! {

/// Mathematical value of a [`Transaction`].
pub struct TransactionV {
    pub from: Seq<char>,
    pub to: Seq<char>,
    pub amount: u64,
}

/// A transfer of some amount between two identifiers. Immutable once
/// created; equality is structural.
#[derive(Debug)]
pub struct Transaction {
    pub from: String,
    pub to: String,
    pub amount: u64,
}

impl View for Transaction {
    type V = TransactionV;

    open spec fn view(&self) -> TransactionV {
        TransactionV { from: self.from@, to: self.to@, amount: self.amount }
    }
}

impl DeepView for Transaction {
    type V = TransactionV;

    open spec fn deep_view(&self) -> TransactionV {
        self.view()
    }
}

impl Clone for Transaction {
    fn clone(&self) -> (r: Self)
        ensures
            r == *self,
    {
        Transaction { from: self.from.clone(), to: self.to.clone(), amount: self.amount }
    }
}

impl PartialEq for Transaction {
    fn eq(&self, other: &Transaction) -> (r: bool) {
        self.from == other.from && self.to == other.to && self.amount == other.amount
    }
}

impl vstd::std_specs::cmp::PartialEqSpecImpl for Transaction {
    open spec fn obeys_eq_spec() -> bool {
        true
    }

    open spec fn eq_spec(&self, other: &Transaction) -> bool {
        self@ == other@
    }
}

impl Transaction {
    /// The sender identifier.
    pub fn getFrom(&self) -> (r: &String)
        ensures
            r@ == self@.from,
    {
        &self.from
    }

    /// The receiver identifier.
    pub fn getTo(&self) -> (r: &String)
        ensures
            r@ == self@.to,
    {
        &self.to
    }

    /// The transferred amount.
    pub fn getAmount(&self) -> (r: &u64)
        ensures
            *r == self@.amount,
    {
        &self.amount
    }
}

/// The non-transaction part of a block: when it was mined, and with
/// which nonce.
#[derive(Clone, Copy, PartialEq, Eq, Structural, Debug)]
pub struct Header {
    pub timestamp: i64,
    pub nonce: u64,
}

/// Mathematical value of a [`Block`], header flattened in.
pub struct BlockV {
    pub timestamp: i64,
    pub nonce: u64,
    pub prev_hash: Seq<char>,
    pub transaction: TransactionV,
    pub hash: Seq<char>,
}

/// One block of a chain: a header, the hash of the block it extends, a
/// single transaction, and its own hash text.
#[derive(Debug)]
pub struct Block {
    pub header: Header,
    pub prev_hash: String,
    pub transaction: Transaction,
    pub hash: String,
}

impl View for Block {
    type V = BlockV;

    open spec fn view(&self) -> BlockV {
        BlockV {
            timestamp: self.header.timestamp,
            nonce: self.header.nonce,
            prev_hash: self.prev_hash@,
            transaction: self.transaction@,
            hash: self.hash@,
        }
    }
}

impl DeepView for Block {
    type V = BlockV;

    open spec fn deep_view(&self) -> BlockV {
        self.view()
    }
}

impl Clone for Block {
    fn clone(&self) -> (r: Self)
        ensures
            r == *self,
    {
        Block {
            header: self.header,
            prev_hash: self.prev_hash.clone(),
            transaction: self.transaction.clone(),
            hash: self.hash.clone(),
        }
    }
}

impl PartialEq for Block {
    fn eq(&self, other: &Block) -> (r: bool) {
        self.header == other.header && self.prev_hash == other.prev_hash && self.transaction
            == other.transaction && self.hash == other.hash
    }
}

impl vstd::std_specs::cmp::PartialEqSpecImpl for Block {
    open spec fn obeys_eq_spec() -> bool {
        true
    }

    open spec fn eq_spec(&self, other: &Block) -> bool {
        self@ == other@
    }
}

impl Block {
    /// The block's header.
    pub fn getHeader(&self) -> (r: &Header)
        ensures
            *r == self.header,
    {
        &self.header
    }

    /// The hash of the block this one extends.
    pub fn getPrevHash(&self) -> (r: &String)
        ensures
            r@ == self@.prev_hash,
    {
        &self.prev_hash
    }

    /// The transaction the block carries.
    pub fn getTransaction(&self) -> (r: &Transaction)
        ensures
            r@ == self@.transaction,
    {
        &self.transaction
    }

    /// The block's own hash text.
    pub fn getHash(&self) -> (r: &String)
        ensures
            r@ == self@.hash,
    {
        &self.hash
    }
}

} // verus!
