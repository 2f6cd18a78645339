#![allow(non_snake_case)]

use std::collections::VecDeque;

use pow_ledger::chain::Blockchain;
use pow_ledger::config::Config;
use pow_ledger::digits::{i64_to_dec, u64_to_dec};
use pow_ledger::gossip::{generate_transaction, plan_share_block, synthesize_transaction};
use pow_ledger::hashing::{bytes_to_upper_hex, hash_string, satisfies_difficulty};
use pow_ledger::ledger::Transaction;
use pow_ledger::miner::generate_block;
use pow_ledger::pool::{peek_front, snapshot};
use pow_ledger::LedgerError;

#[test]
fn decimal_rendering_exact() {
    assert_eq!(u64_to_dec(0), "0");
    assert_eq!(u64_to_dec(7), "7");
    assert_eq!(u64_to_dec(1234567890), "1234567890");
    assert_eq!(u64_to_dec(u64::MAX), "18446744073709551615");
    assert_eq!(i64_to_dec(0), "0");
    assert_eq!(i64_to_dec(-42), "-42");
    assert_eq!(i64_to_dec(i64::MIN), "-9223372036854775808");
    assert_eq!(i64_to_dec(i64::MAX), "9223372036854775807");
}

#[test]
fn hex_rendering_exact() {
    assert_eq!(bytes_to_upper_hex(&vec![]), "");
    assert_eq!(bytes_to_upper_hex(&vec![0x0Fu8, 0xA0, 0x00, 0xFF]), "0FA000FF");
}

#[test]
fn sha256_known_digest() {
    // the SHA-256 digest of the empty string, in uppercase hex
    assert_eq!(
        hash_string(""),
        "E3B0C44298FC1C149AFBF4C8996FB92427AE41E4649B934CA495991B7852B855"
    );
    // hashing is not the identity and depends on the input
    assert_ne!(hash_string("a"), hash_string("b"));
}

#[test]
fn difficulty_predicate_exact() {
    assert!(satisfies_difficulty("111111"));
    assert!(!satisfies_difficulty("11111"));
    assert!(!satisfies_difficulty(""));
    assert!(satisfies_difficulty("A1B1C1D1E1F1"));
}

#[test]
fn transaction_getters() {
    let t = Transaction { from: String::from("alice"), to: String::from("bob"), amount: 99 };
    assert_eq!(t.getFrom(), "alice");
    assert_eq!(t.getTo(), "bob");
    assert_eq!(*t.getAmount(), 99);
}

#[test]
fn genesis_hash_is_timestamp_text() {
    let node = Blockchain::new();
    let genesis = node.blockchain.first().unwrap();
    assert_eq!(genesis.getPrevHash(), "");
    assert_eq!(genesis.getTransaction().getFrom(), "");
    assert_eq!(*genesis.getTransaction().getAmount(), 0);
    assert_eq!(genesis.getHeader().nonce, 0);
    assert_eq!(genesis.getHash(), &i64_to_dec(genesis.getHeader().timestamp));
}

#[test]
fn block_and_transaction_accessors() {
    let mut node = Blockchain::new();
    node.newTransaction(String::from("a"), String::from("b"), 5);
    assert_eq!(node.get_transaction_by_index(0).unwrap().getFrom(), "a");
    assert!(node.get_transaction_by_index(1).is_none());
    assert!(node.get_block_by_index(0).is_some());
    assert!(node.get_block_by_index(1).is_none());
    let top = node.get_top_block().unwrap();
    assert_eq!(top.getPrevHash(), "");
}

#[test]
fn empty_pool_is_an_error() {
    let empty: VecDeque<Transaction> = VecDeque::new();
    assert_eq!(peek_front(&empty).unwrap_err(), LedgerError::EmptyPool);
    assert_eq!(generate_block("0", &empty).unwrap_err(), LedgerError::EmptyPool);
    let mut node = Blockchain::new();
    assert_eq!(node.mint().unwrap_err(), LedgerError::EmptyPool);
}

#[test]
fn pool_snapshot_copies_in_order() {
    let mut node = Blockchain::new();
    node.newTransaction(String::from("a"), String::from("b"), 1);
    node.newTransaction(String::from("c"), String::from("d"), 2);
    let copy = snapshot(&node.transactions);
    assert_eq!(copy.len(), 2);
    assert_eq!(copy[0].getFrom(), "a");
    assert_eq!(copy[1].getFrom(), "c");
}

#[test]
fn synthesized_identifiers_are_decimal() {
    let t = synthesize_transaction(12, 34, 5);
    assert_eq!(t.from, "12");
    assert_eq!(t.to, "34");
    assert_eq!(t.amount, 5);
    let r = generate_transaction();
    assert!(r.from.chars().all(|c| c.is_ascii_digit()));
    assert!(r.to.chars().all(|c| c.is_ascii_digit()));
    let s = Blockchain::generateTransaction();
    assert!(s.getFrom().starts_with("Sender "));
    assert!(s.getTo().starts_with("Receiver "));
}

#[test]
fn share_plan_picks_tip_and_head() {
    let mut node = Blockchain::new();
    node.newTransaction(String::from("a"), String::from("b"), 1);
    node.newTransaction(String::from("c"), String::from("d"), 2);
    let tip = node.blockchain.last().unwrap().hash.clone();
    let deque = node.transactions.clone();
    let chains = vec![node];
    let plan = plan_share_block(&deque, &chains, 0).unwrap();
    assert_eq!(plan.parent_hash, tip);
    assert_eq!(plan.transaction.getFrom(), "a");
    let empty: VecDeque<Transaction> = VecDeque::new();
    assert!(plan_share_block(&empty, &chains, 0).is_none());
}

#[test]
fn generated_blockchain_keeps_transactions() {
    let mut blch = Blockchain { transactions: VecDeque::new(), blockchain: Vec::new() };
    Blockchain::generateBlockchain(&mut blch, 4).unwrap();
    assert!(blch.transactions.is_empty());
    assert!(blch.blockchain.len() >= 2);
    assert!(pow_ledger::chain::validate(&blch.blockchain));
}

#[test]
fn config_holds_plain_identity() {
    let c = Config::new(
        String::from("127.0.0.1:8080"),
        String::from("private pem"),
        String::from("public pem"),
        String::from("passphrase"),
    );
    assert_eq!(c.address, "127.0.0.1:8080");
    assert_eq!(c.private_key_pem, "private pem");
    assert_eq!(c.public_key_pem, "public pem");
    assert_eq!(c.passphrase, "passphrase");
    let d = c.clone();
    assert_eq!(d.address, c.address);
}

#[test]
fn mining_budget_is_a_cancellation_point() {
    let t = Transaction { from: String::from("a"), to: String::from("b"), amount: 1 };
    assert!(pow_ledger::miner::mine_bounded("0", &t, 0).is_none());
}

#[test]
fn chosen_share_plan_extends_a_known_tip() {
    let mut node = Blockchain::new();
    node.newTransaction(String::from("a"), String::from("b"), 1);
    let deque = node.transactions.clone();
    let tips: Vec<String> = vec![node.blockchain.last().unwrap().hash.clone()];
    let chains = vec![node];
    let plan = pow_ledger::gossip::choose_share_block(&deque, &chains).unwrap();
    assert!(tips.contains(&plan.parent_hash));
}

#[test]
fn default_node_is_empty() {
    let node = Blockchain::default();
    assert!(node.transactions.is_empty());
    assert!(node.blockchain.is_empty());
}
