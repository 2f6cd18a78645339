#![allow(non_snake_case)]

use std::collections::VecDeque;

use pow_ledger::chain::{validate, Blockchain};
use pow_ledger::codec::{decode_chain, encode_chain};
use pow_ledger::forks::{receive_block, resolve, ReceiveOutcome};
use pow_ledger::ledger::{Block, Header, Transaction};
use pow_ledger::miner::mine;
use pow_ledger::LedgerError;

fn named_transaction(from: &str, to: &str, amount: u64) -> Transaction {
    Transaction { from: String::from(from), to: String::from(to), amount }
}

/// A node whose chain is a genesis block plus two mined blocks.
fn three_block_node() -> Blockchain {
    let mut node = Blockchain::new();
    node.newTransaction(String::from("alice"), String::from("bob"), 10);
    node.newTransaction(String::from("bob"), String::from("carol"), 20);
    node.mint().unwrap();
    node.mint().unwrap();
    assert_eq!(node.blockchain.len(), 3);
    node
}

#[test]
fn mined_block_meets_difficulty() {
    let t = named_transaction("alice", "bob", 7);
    let b = mine("F00D", &t).unwrap();
    let ones = b.hash.chars().filter(|&c| c == '1').count();
    assert!(ones >= 6);
    assert_eq!(b.hash.len(), 64);
    assert!(b.hash.chars().all(|c| c.is_ascii_digit() || ('A'..='F').contains(&c)));
    assert_eq!(b.prev_hash, "F00D");
    assert_eq!(b.transaction, t);
}

#[test]
fn chain_integrity_after_mining_and_forks() {
    let mut node = three_block_node();
    assert!(validate(&node.blockchain));
    let foreign = mine(&node.blockchain[1].hash, &named_transaction("x", "y", 1)).unwrap();
    let mut chains = vec![node];
    receive_block(&mut chains, foreign).unwrap();
    for c in chains.iter() {
        assert!(validate(&c.blockchain));
    }
    node = chains.remove(0);
    let _ = node.generate_forks(4);
    assert!(validate(&node.blockchain));
}

#[test]
fn fork_creation() {
    let node = three_block_node();
    let g = node.blockchain[0].clone();
    let a = node.blockchain[1].clone();
    let b = node.blockchain[2].clone();
    let c = mine(&a.hash, &named_transaction("carol", "dave", 30)).unwrap();
    let mut chains = vec![node];
    let outcome = receive_block(&mut chains, c.clone()).unwrap();
    assert_eq!(outcome, ReceiveOutcome::Forked { chain_index: 0, block_index: 1 });
    assert_eq!(chains.len(), 2);
    assert_eq!(chains[0].blockchain, vec![g.clone(), a.clone(), b]);
    assert_eq!(chains[1].blockchain, vec![g, a, c]);
}

#[test]
fn linear_extension() {
    let node = three_block_node();
    let tip_hash = node.blockchain[2].hash.clone();
    let d = mine(&tip_hash, &named_transaction("dave", "erin", 40)).unwrap();
    let mut chains = vec![node];
    let outcome = receive_block(&mut chains, d.clone()).unwrap();
    assert_eq!(outcome, ReceiveOutcome::Extended { chain_index: 0 });
    assert_eq!(chains.len(), 1);
    assert_eq!(chains[0].blockchain.len(), 4);
    assert_eq!(chains[0].blockchain[3], d);
}

#[test]
fn duplicate_block_is_dropped() {
    let node = three_block_node();
    let a_hash = node.blockchain[1].hash.clone();
    let c = mine(&a_hash, &named_transaction("carol", "dave", 30)).unwrap();
    let mut chains = vec![node];
    assert_eq!(
        receive_block(&mut chains, c.clone()).unwrap(),
        ReceiveOutcome::Forked { chain_index: 0, block_index: 1 }
    );
    let before: Vec<Vec<pow_ledger::ledger::Block>> =
        chains.iter().map(|n| n.blockchain.clone()).collect();
    // receiving the same block again must not grow a structural duplicate
    assert_eq!(receive_block(&mut chains, c).unwrap(), ReceiveOutcome::Duplicate);
    let after: Vec<Vec<pow_ledger::ledger::Block>> =
        chains.iter().map(|n| n.blockchain.clone()).collect();
    assert_eq!(after, before);
}

#[test]
fn fork_emulation_zero_rounds_is_a_no_op() {
    let mut node = Blockchain::new();
    let before = node.blockchain.clone();
    node.generate_forks(0).unwrap();
    assert_eq!(node.blockchain, before);
    assert!(node.transactions.is_empty());
}

#[test]
fn fork_emulation_grows_the_chain_with_mined_blocks() {
    let mut node = Blockchain::new();
    let before = node.blockchain.len();
    node.generate_forks(4).unwrap();
    assert!(node.blockchain.len() > before);
    for block in node.blockchain.iter().skip(1) {
        assert!(block.hash.chars().filter(|&ch| ch == '1').count() >= 6);
    }
}

#[test]
fn orphan_drop() {
    let node = three_block_node();
    let before = node.blockchain.clone();
    let orphan = mine("no block has this hash", &named_transaction("x", "y", 1)).unwrap();
    let mut chains = vec![node];
    let r = receive_block(&mut chains, orphan);
    assert_eq!(r.unwrap_err(), LedgerError::NoMatchingParent);
    assert_eq!(chains.len(), 1);
    assert_eq!(chains[0].blockchain, before);
}

/// A chain of `n` fabricated blocks whose hashes carry `tag`, for
/// exercising collapse, which looks at lengths alone.
fn fabricated_chain(n: usize, tag: &str) -> Blockchain {
    let mut blocks = Vec::new();
    for i in 0..n {
        let own = format!("{}-{}", tag, i);
        let prev = if i == 0 { String::new() } else { format!("{}-{}", tag, i - 1) };
        blocks.push(Block {
            header: Header { timestamp: 0, nonce: 0 },
            prev_hash: prev,
            transaction: named_transaction("", "", 0),
            hash: own,
        });
    }
    Blockchain { transactions: VecDeque::new(), blockchain: blocks }
}

#[test]
fn consensus_collapse_tie_keeps_all() {
    let mut chains =
        vec![fabricated_chain(3, "a"), fabricated_chain(5, "b"), fabricated_chain(5, "c")];
    resolve(&mut chains);
    assert_eq!(chains.len(), 3);
    assert_eq!(chains[0].blockchain.len(), 3);
    assert_eq!(chains[1].blockchain.len(), 5);
    assert_eq!(chains[2].blockchain.len(), 5);
}

#[test]
fn consensus_collapse_keeps_strictly_longest() {
    let mut chains =
        vec![fabricated_chain(3, "a"), fabricated_chain(5, "b"), fabricated_chain(7, "c")];
    let longest = chains[2].blockchain.clone();
    resolve(&mut chains);
    assert_eq!(chains.len(), 1);
    assert_eq!(chains[0].blockchain, longest);
}

#[test]
fn pool_fifo() {
    let mut node = Blockchain::new();
    let t1 = named_transaction("alice", "bob", 1);
    let t2 = named_transaction("bob", "carol", 2);
    node.newTransaction(t1.from.clone(), t1.to.clone(), t1.amount);
    node.newTransaction(t2.from.clone(), t2.to.clone(), t2.amount);
    assert_eq!(pow_ledger::pool::peek_front(&node.transactions).unwrap(), &t1);
    pow_ledger::pool::evict(&mut node.transactions, &t1);
    assert_eq!(pow_ledger::pool::peek_front(&node.transactions).unwrap(), &t2);
    // evicting something absent is tolerated, not an error
    pow_ledger::pool::evict(&mut node.transactions, &t1);
    assert_eq!(node.transactions.len(), 1);
}

#[test]
fn snapshot_round_trip() {
    let node = three_block_node();
    let bytes = encode_chain(&node.blockchain);
    let loaded = decode_chain(&bytes).unwrap();
    assert_eq!(loaded, node.blockchain);
}

#[test]
fn snapshot_round_trip_unicode() {
    let mut chain = fabricated_chain(2, "plain").blockchain;
    chain[1].transaction = named_transaction("K\u{f6}nig", "\u{20ac}uro \u{1f600}", u64::MAX);
    chain[1].header.timestamp = -17;
    let bytes = encode_chain(&chain);
    let loaded = decode_chain(&bytes).unwrap();
    assert_eq!(loaded, chain);
}

#[test]
fn corrupt_snapshot_is_refused() {
    assert_eq!(decode_chain(&vec![1u8, 2, 3]).unwrap_err(), LedgerError::CorruptSnapshot);
    let node = three_block_node();
    let mut bytes = encode_chain(&node.blockchain);
    bytes.push(0);
    assert_eq!(decode_chain(&bytes).unwrap_err(), LedgerError::CorruptSnapshot);
}
