//! Local emulation of network activity: drivers that grow a blockchain
//! by mining synthetic transactions, splitting off competing branches,
//! and periodically adopting the longest chain — the same fork dynamics
//! the gossip layer produces, run inside one node.

use vstd::prelude::*;
use vstd::string::StringExecFns;
use crate::LedgerError;
use crate::chain::{Blockchain, chain_linked, genesis_ok, mined_after_genesis, mined_block_ok};
use crate::digits::{push_dec_u64, spec_dec_u64, spec_dec_i64, is_dec_digits};
use crate::entropy::{random_below, random_u64};
use crate::ledger::{Block, Transaction};
use crate::miner::mine;

verus! {

impl Blockchain {
    /// Synthesizes a transaction between random "Sender N" and
    /// "Receiver N" identifiers.
    pub fn generateTransaction() -> (t: Transaction)
        ensures
            exists|a: u64, b: u64|
                t@.from == "Sender "@ + spec_dec_u64(a as nat) && t@.to == "Receiver "@
                    + spec_dec_u64(b as nat),
    {
        let a = random_u64();
        let b = random_u64();
        let amount = random_u64();
        let mut from = String::from_str("Sender ");
        push_dec_u64(&mut from, a);
        let mut to = String::from_str("Receiver ");
        push_dec_u64(&mut to, b);
        let t = Transaction { from, to, amount };
        proof {
            assert(t@.from == "Sender "@ + spec_dec_u64(a as nat) && t@.to == "Receiver "@
                + spec_dec_u64(b as nat));
        }
        t
    }

    /// Splits the chain's tip off into two competing branches rooted at
    /// the block below it, extends one of them at random, and returns
    /// the longer branch (the branch that was extended). The returned
    /// branch attaches to the tip that remains in `blch`.
    pub fn createForkedChain(blch: &mut Blockchain) -> (r: Result<Vec<Block>, LedgerError>)
        requires
            old(blch)@.blockchain.len() >= 2,
            chain_linked(old(blch)@.blockchain),
        ensures
            match r {
                Ok(branch) => {
                    &&& (old(blch)@.blockchain.len() == 2 ==> final(blch)@.blockchain == old(
                        blch,
                    )@.blockchain)
                    &&& (old(blch)@.blockchain.len() > 2 ==> final(blch)@.blockchain == old(
                        blch,
                    )@.blockchain.drop_last())
                    &&& final(blch)@.transactions == old(blch)@.transactions
                    &&& branch.deep_view().len() == 2
                    &&& branch.deep_view()[0].prev_hash == final(blch)@.blockchain.last().hash
                    &&& chain_linked(branch.deep_view())
                    &&& (mined_after_genesis(old(blch)@.blockchain) ==> {
                        &&& mined_after_genesis(final(blch)@.blockchain)
                        &&& forall|i: int|
                            0 <= i < branch.deep_view().len() ==> mined_block_ok(
                                #[trigger] branch.deep_view()[i],
                            )
                    })
                },
                Err(e) => e == LedgerError::MiningCancelled && final(blch)@ == old(blch)@,
            },
    {
        let ghost oc = old(blch)@.blockchain;
        let len = blch.blockchain.len();
        let tip_prime_hash = if len == 2 {
            blch.blockchain[1].hash.clone()
        } else {
            blch.blockchain[len - 2].hash.clone()
        };
        proof {
            if oc.len() == 2 {
                assert(tip_prime_hash@ == oc[1].hash);
            } else {
                assert(tip_prime_hash@ == oc[oc.len() - 2].hash);
            }
        }
        let t1 = Blockchain::generateTransaction();
        let last_block = if len == 2 {
            match mine(tip_prime_hash.as_str(), &t1) {
                Some(b) => b,
                None => {
                    return Err(LedgerError::MiningCancelled);
                },
            }
        } else {
            blch.blockchain[len - 1].clone()
        };
        proof {
            // either way, the split-off block extends the block below
            // the original tip
            if oc.len() == 2 {
                assert(last_block@.prev_hash == oc[1].hash);
            } else {
                assert(last_block@ == oc[oc.len() - 1]);
                assert(oc[oc.len() - 1].prev_hash == oc[oc.len() - 2].hash);
            }
        }
        let t2 = Blockchain::generateTransaction();
        let right0 = match mine(tip_prime_hash.as_str(), &t2) {
            Some(b) => b,
            None => {
                return Err(LedgerError::MiningCancelled);
            },
        };
        let grow_left = random_below(2) == 0;
        let mut left: Vec<Block> = Vec::new();
        let mut right: Vec<Block> = Vec::new();
        if grow_left {
            let t3 = Blockchain::generateTransaction();
            let m2 = match mine(last_block.hash.as_str(), &t3) {
                Some(b) => b,
                None => {
                    return Err(LedgerError::MiningCancelled);
                },
            };
            let ghost lb = last_block@;
            let ghost mb = m2@;
            left.push(last_block);
            left.push(m2);
            right.push(right0);
            proof {
                assert(left.deep_view() =~= seq![lb, mb]);
                assert(right.deep_view().len() == 1);
            }
        } else {
            let t3 = Blockchain::generateTransaction();
            let m2 = match mine(right0.hash.as_str(), &t3) {
                Some(b) => b,
                None => {
                    return Err(LedgerError::MiningCancelled);
                },
            };
            let ghost rb = right0@;
            let ghost mb = m2@;
            left.push(last_block);
            right.push(right0);
            right.push(m2);
            proof {
                assert(right.deep_view() =~= seq![rb, mb]);
                assert(left.deep_view().len() == 1);
            }
        }
        if len > 2 {
            blch.blockchain.pop();
            proof {
                assert(blch@.blockchain =~= oc.drop_last());
            }
        }
        let chosen = if left.len() < right.len() {
            right
        } else {
            left
        };
        proof {
            let ch = chosen.deep_view();
            assert(ch.len() == 2);
            if oc.len() == 2 {
                assert(blch@.blockchain.last() == oc[1]);
            } else {
                assert(blch@.blockchain.last() == oc[oc.len() - 2]);
            }
            assert(ch[0].prev_hash == blch@.blockchain.last().hash);
            assert forall|k: int| 0 < k < ch.len() implies ch[k].prev_hash == ch[k - 1].hash by {
                assert(k == 1);
            }
            if mined_after_genesis(oc) {
                if oc.len() == 2 {
                    assert(mined_after_genesis(blch@.blockchain));
                } else {
                    assert forall|k: int|
                        0 < k < blch@.blockchain.len() implies mined_block_ok(
                        #[trigger] blch@.blockchain[k]) by {
                        assert(blch@.blockchain[k] == oc[k]);
                        assert(mined_block_ok(oc[k]));
                    }
                }
                assert forall|i: int| 0 <= i < ch.len() implies mined_block_ok(
                    #[trigger] ch[i]) by {
                    if i == 0 && grow_left && oc.len() > 2 {
                        assert(ch[0] == oc[oc.len() - 1]);
                        assert(mined_block_ok(oc[oc.len() - 1]));
                    }
                }
            }
        }
        Ok(chosen)
    }

    /// Grows a fresh blockchain for `total_time` ticks: a genesis
    /// block, a mined block every third tick, and a fork split off and
    /// re-joined every fifth.
    #[verifier::loop_isolation(false)]
    pub fn generateBlockchain(blch: &mut Blockchain, total_time: u32) -> (r: Result<
        (),
        LedgerError,
    >)
        requires
            old(blch)@.blockchain.len() == 0,
        ensures
            r is Err ==> r == Err::<(), LedgerError>(LedgerError::MiningCancelled),
            r is Ok && total_time > 0 ==> final(blch)@.blockchain.len() >= 2,
            final(blch)@.transactions == old(blch)@.transactions,
            final(blch)@.blockchain.len() >= 1,
            genesis_ok(final(blch)@.blockchain[0]),
            final(blch)@.blockchain[0].hash == spec_dec_i64(
                final(blch)@.blockchain[0].timestamp as int,
            ),
            is_dec_digits(final(blch)@.blockchain[0].hash),
            chain_linked(final(blch)@.blockchain),
            mined_after_genesis(final(blch)@.blockchain),
    {
        Blockchain::initialize(blch);
        let tt = total_time as u64;
        let mut sec: u64 = 0;
        while sec < tt
            invariant
                blch@.transactions == old(blch)@.transactions,
                blch@.blockchain.len() >= 1,
                sec > 0 ==> blch@.blockchain.len() >= 2,
                genesis_ok(blch@.blockchain[0]),
                blch@.blockchain[0].hash == spec_dec_i64(blch@.blockchain[0].timestamp as int),
                is_dec_digits(blch@.blockchain[0].hash),
                chain_linked(blch@.blockchain),
                mined_after_genesis(blch@.blockchain),
            decreases tt + 2 - sec,
        {
            if sec % 3 == 0 {
                let t = Blockchain::generateTransaction();
                let tip_hash = blch.blockchain[blch.blockchain.len() - 1].hash.clone();
                let ghost pre = blch@.blockchain;
                match mine(tip_hash.as_str(), &t) {
                    Some(b) => {
                        blch.blockchain.push(b);
                        proof {
                            assert(blch@.blockchain =~= pre.push(b@));
                            assert forall|k: int|
                                0 < k < blch@.blockchain.len() implies blch@.blockchain[k].prev_hash
                                == blch@.blockchain[k - 1].hash by {
                                if k < pre.len() {
                                    assert(pre[k].prev_hash == pre[k - 1].hash);
                                }
                            }
                            assert forall|k: int|
                                0 < k < blch@.blockchain.len() implies mined_block_ok(
                                #[trigger] blch@.blockchain[k]) by {
                                if k < pre.len() {
                                    assert(mined_block_ok(pre[k]));
                                }
                            }
                        }
                    },
                    None => {
                        return Err(LedgerError::MiningCancelled);
                    },
                }
            }
            if sec % 5 == 0 && blch.blockchain.len() >= 2 {
                match Blockchain::createForkedChain(blch) {
                    Ok(mut branch) => {
                        let ghost trunk = blch@.blockchain;
                        let ghost limb = branch.deep_view();
                        blch.blockchain.append(&mut branch);
                        proof {
                            assert(blch@.blockchain =~= trunk + limb);
                            assert forall|k: int|
                                0 < k < blch@.blockchain.len() implies blch@.blockchain[k].prev_hash
                                == blch@.blockchain[k - 1].hash by {
                                if k < trunk.len() {
                                    assert(blch@.blockchain[k] == trunk[k]);
                                    assert(blch@.blockchain[k - 1] == trunk[k - 1]);
                                    assert(trunk[k].prev_hash == trunk[k - 1].hash);
                                } else if k == trunk.len() {
                                    assert(blch@.blockchain[k] == limb[0]);
                                    assert(blch@.blockchain[k - 1] == trunk.last());
                                } else {
                                    assert(blch@.blockchain[k] == limb[k - trunk.len()]);
                                    assert(blch@.blockchain[k - 1] == limb[k - trunk.len() - 1]);
                                    assert(limb[k - trunk.len()].prev_hash == limb[k - trunk.len()
                                        - 1].hash);
                                }
                            }
                            assert forall|k: int|
                                0 < k < blch@.blockchain.len() implies mined_block_ok(
                                #[trigger] blch@.blockchain[k]) by {
                                if k < trunk.len() {
                                    assert(blch@.blockchain[k] == trunk[k]);
                                    assert(mined_block_ok(trunk[k]));
                                } else {
                                    assert(blch@.blockchain[k] == limb[k - trunk.len()]);
                                    assert(mined_block_ok(limb[k - trunk.len()]));
                                }
                            }
                        }
                        sec = sec + 2;
                    },
                    Err(e) => {
                        return Err(e);
                    },
                }
            } else {
                sec = sec + 1;
            }
        }
        Ok(())
    }

    /// Runs the local fork emulation for `total_time` rounds: each
    /// round queues a random transaction on a random candidate chain
    /// and mines it; every fifth round splits a fork off a random
    /// candidate; every thirty-seventh adopts the longest candidate as
    /// this node's chain.
    #[verifier::loop_isolation(false)]
    #[verifier::rlimit(100)]
    pub fn generate_forks(&mut self, total_time: usize) -> (r: Result<(), LedgerError>)
        requires
            old(self)@.blockchain.len() >= 1,
        ensures
            r is Err ==> r == Err::<(), LedgerError>(LedgerError::MiningCancelled),
            total_time == 0 ==> final(self)@ == old(self)@,
            final(self)@.transactions == old(self)@.transactions,
            final(self)@.blockchain.len() >= old(self)@.blockchain.len(),
            r is Ok && total_time > 0 ==> final(self)@.blockchain.len() > old(
                self,
            )@.blockchain.len(),
            final(self)@.blockchain[0] == old(self)@.blockchain[0],
            chain_linked(old(self)@.blockchain) ==> chain_linked(final(self)@.blockchain),
            mined_after_genesis(old(self)@.blockchain) ==> mined_after_genesis(
                final(self)@.blockchain,
            ),
    {
        let ghost g0 = old(self)@.blockchain[0];
        let mut chains: Vec<Blockchain> = Vec::new();
        let c0 = self.clone();
        chains.push(c0);
        proof {
            assert(chains.deep_view() =~= seq![old(self)@]);
        }
        let mut timer: usize = 0;
        while timer < total_time
            invariant
                chains.deep_view().len() >= 1,
                timer == 0 ==> chains.deep_view().len() == 1 && chains.deep_view()[0] == old(
                    self,
                )@,
                forall|i: int|
                    0 <= i < chains.deep_view().len() ==> #[trigger] chains.deep_view()[
                        i
                    ].blockchain.len() >= 1,
                timer > 0 ==> forall|i: int|
                    0 <= i < chains.deep_view().len() ==> #[trigger] chains.deep_view()[
                        i
                    ].blockchain.len() >= 2,
                forall|i: int|
                    0 <= i < chains.deep_view().len() ==> #[trigger] chains.deep_view()[
                        i
                    ].blockchain[0] == g0,
                chain_linked(old(self)@.blockchain) ==> forall|i: int|
                    0 <= i < chains.deep_view().len() ==> chain_linked(
                        #[trigger] chains.deep_view()[i].blockchain,
                    ),
                forall|i: int|
                    0 <= i < chains.deep_view().len() ==> #[trigger] chains.deep_view()[
                        i
                    ].blockchain.len() >= old(self)@.blockchain.len(),
                timer > 0 ==> forall|i: int|
                    0 <= i < chains.deep_view().len() ==> #[trigger] chains.deep_view()[
                        i
                    ].blockchain.len() > old(self)@.blockchain.len(),
                mined_after_genesis(old(self)@.blockchain) ==> forall|i: int|
                    0 <= i < chains.deep_view().len() ==> mined_after_genesis(
                        #[trigger] chains.deep_view()[i].blockchain,
                    ),
                timer <= total_time,
                timer == 0 ==> self@ == old(self)@,
                self@.transactions == old(self)@.transactions,
                self@.blockchain.len() >= 1,
                self@.blockchain.len() >= old(self)@.blockchain.len(),
                timer > 0 ==> self@.blockchain.len() > old(self)@.blockchain.len(),
                self@.blockchain[0] == g0,
                chain_linked(old(self)@.blockchain) ==> chain_linked(self@.blockchain),
                mined_after_genesis(old(self)@.blockchain) ==> mined_after_genesis(
                    self@.blockchain,
                ),
            decreases total_time - timer,
        {
            let ghost pre_deep = chains.deep_view();
            let n = chains.len();
            let idx = random_below(n as u64) as usize;
            let mut c = chains[idx].clone();
            proof {
                assert(chains@[idx as int].deep_view() == pre_deep[idx as int]);
                assert(c@ == pre_deep[idx as int]);
            }
            c.new_transaction(String::new(), String::new(), random_u64());
            let ghost c_pre = c@.blockchain;
            match c.mint() {
                Ok(()) => {},
                Err(e) => {
                    proof {
                        assert(e == LedgerError::MiningCancelled);
                    }
                    return Err(e);
                },
            }
            proof {
                assert(c@.blockchain.drop_last() == c_pre);
                assert(c@.blockchain[0] == c_pre[0]);
            }
            chains.set(idx, c);
            proof {
                let d = chains.deep_view();
                assert forall|i: int|
                    0 <= i < d.len() implies d[i] == (if i == idx {
                    c@
                } else {
                    pre_deep[i]
                }) by {}
                assert(c_pre == pre_deep[idx as int].blockchain);
                assert forall|i: int|
                    0 <= i < d.len() implies #[trigger] d[i].blockchain.len() >= 2 by {
                    if i != idx {
                        if timer == 0 {
                            assert(false);
                        } else {
                            assert(pre_deep[i].blockchain.len() >= 2);
                        }
                    }
                }
                assert forall|i: int|
                    0 <= i < d.len() implies #[trigger] d[i].blockchain[0] == g0 by {
                    if i == idx {
                        assert(d[i].blockchain[0] == c_pre[0]);
                    } else {
                        assert(pre_deep[i].blockchain[0] == g0);
                    }
                }
                if chain_linked(old(self)@.blockchain) {
                    assert forall|i: int|
                        0 <= i < d.len() implies chain_linked(#[trigger] d[i].blockchain) by {
                        if i == idx {
                            assert(chain_linked(pre_deep[i].blockchain));
                            assert(chain_linked(c_pre));
                        } else {
                            assert(chain_linked(pre_deep[i].blockchain));
                        }
                    }
                }
                assert forall|i: int|
                    0 <= i < d.len() implies #[trigger] d[i].blockchain.len() > old(
                    self,
                )@.blockchain.len() by {
                    if i == idx {
                        assert(c_pre.len() >= old(self)@.blockchain.len());
                    } else {
                        if timer == 0 {
                            assert(false);
                        } else {
                            assert(pre_deep[i].blockchain.len() > old(self)@.blockchain.len());
                        }
                    }
                }
                if mined_after_genesis(old(self)@.blockchain) {
                    assert forall|i: int|
                        0 <= i < d.len() implies mined_after_genesis(
                        #[trigger] d[i].blockchain) by {
                        if i == idx {
                            assert(mined_after_genesis(pre_deep[i].blockchain));
                            assert forall|k: int|
                                0 < k < d[i].blockchain.len() implies mined_block_ok(
                                #[trigger] d[i].blockchain[k]) by {
                                if k < c_pre.len() {
                                    assert(d[i].blockchain[k] == c_pre[k]);
                                    assert(mined_block_ok(c_pre[k]));
                                } else {
                                    assert(d[i].blockchain[k] == d[i].blockchain.last());
                                }
                            }
                        } else {
                            assert(mined_after_genesis(pre_deep[i].blockchain));
                        }
                    }
                }
            }
            if timer % 5 == 0 {
                let ghost mid_deep = chains.deep_view();
                let idx2 = random_below(chains.len() as u64) as usize;
                let mut forked = chains[idx2].clone();
                proof {
                    assert(chains@[idx2 as int].deep_view() == mid_deep[idx2 as int]);
                    assert(forked@ == mid_deep[idx2 as int]);
                    assert(forked@.blockchain.len() >= 2);
                }
                let ghost f_pre = forked@.blockchain;
                forked.blockchain.pop();
                proof {
                    assert(forked@.blockchain =~= f_pre.drop_last());
                    assert(forked@.blockchain[0] == f_pre[0]);
                    if chain_linked(old(self)@.blockchain) {
                        assert forall|k: int|
                            0 < k < forked@.blockchain.len() implies forked@.blockchain[
                            k
                        ].prev_hash == forked@.blockchain[k - 1].hash by {
                            assert(f_pre[k].prev_hash == f_pre[k - 1].hash);
                        }
                    }
                }
                if forked.transactions.len() == 0 {
                    forked.new_transaction(String::new(), String::new(), random_u64());
                }
                let ghost f_mid = forked@.blockchain;
                match forked.mint() {
                    Ok(()) => {},
                    Err(e) => {
                        proof {
                            assert(e == LedgerError::MiningCancelled);
                        }
                        return Err(e);
                    },
                }
                proof {
                    assert(forked@.blockchain.drop_last() == f_mid);
                    assert(forked@.blockchain[0] == f_mid[0]);
                }
                chains.push(forked);
                proof {
                    assert(chains.deep_view() =~= mid_deep.push(forked@));
                    let d = chains.deep_view();
                    assert forall|i: int|
                        0 <= i < d.len() implies #[trigger] d[i].blockchain.len() >= 2 by {
                        if i < mid_deep.len() {
                            assert(mid_deep[i].blockchain.len() >= 2);
                        }
                    }
                    assert forall|i: int|
                        0 <= i < d.len() implies #[trigger] d[i].blockchain[0] == g0 by {
                        if i < mid_deep.len() {
                            assert(mid_deep[i].blockchain[0] == g0);
                        } else {
                            assert(d[i] == forked@);
                            assert(forked@.blockchain[0] == f_mid[0]);
                            assert(f_mid[0] == f_pre[0]);
                        }
                    }
                    if chain_linked(old(self)@.blockchain) {
                        assert forall|i: int|
                            0 <= i < d.len() implies chain_linked(#[trigger] d[i].blockchain) by {
                            if i < mid_deep.len() {
                                assert(chain_linked(mid_deep[i].blockchain));
                            } else {
                                assert(d[i] == forked@);
                                assert(chain_linked(f_mid));
                            }
                        }
                    }
                    assert forall|i: int|
                        0 <= i < d.len() implies #[trigger] d[i].blockchain.len() > old(
                        self,
                    )@.blockchain.len() by {
                        if i < mid_deep.len() {
                            assert(mid_deep[i].blockchain.len() > old(self)@.blockchain.len());
                        } else {
                            assert(d[i] == forked@);
                            assert(f_pre.len() > old(self)@.blockchain.len());
                            assert(f_mid.len() >= old(self)@.blockchain.len());
                        }
                    }
                    if mined_after_genesis(old(self)@.blockchain) {
                        assert forall|i: int|
                            0 <= i < d.len() implies mined_after_genesis(
                            #[trigger] d[i].blockchain) by {
                            if i < mid_deep.len() {
                                assert(mined_after_genesis(mid_deep[i].blockchain));
                            } else {
                                assert(d[i] == forked@);
                                assert(mined_after_genesis(f_pre));
                                assert forall|k: int|
                                    0 < k < forked@.blockchain.len() implies mined_block_ok(
                                    #[trigger] forked@.blockchain[k]) by {
                                    if k < f_mid.len() {
                                        assert(forked@.blockchain[k] == f_mid[k]);
                                        assert(f_mid[k] == f_pre[k]);
                                        assert(mined_block_ok(f_pre[k]));
                                    } else {
                                        assert(forked@.blockchain[k]
                                            == forked@.blockchain.last());
                                    }
                                }
                            }
                        }
                    }
                }
            }
            if timer % 37 == 0 {
                let mut the_largest_index: usize = 0;
                let mut max_chain_length: usize = 0;
                let mut i: usize = 0;
                while i < chains.len()
                    invariant
                        i <= chains.deep_view().len(),
                        i == 0 ==> the_largest_index == 0 && max_chain_length == 0,
                        i > 0 ==> (the_largest_index as int) < i,
                        i > 0 ==> chains.deep_view()[the_largest_index as int].blockchain.len()
                            == max_chain_length,
                    decreases chains.deep_view().len() - i,
                {
                    let l = chains[i].blockchain.len();
                    proof {
                        assert(chains@[i as int].deep_view() == chains.deep_view()[i as int]);
                        assert(l == chains.deep_view()[i as int].blockchain.len());
                    }
                    if l > max_chain_length {
                        max_chain_length = l;
                        the_largest_index = i;
                    } else {
                        proof {
                            if i == 0 {
                                assert(chains.deep_view()[0].blockchain.len() >= 1);
                                assert(false);
                            }
                        }
                    }
                    i = i + 1;
                }
                let the_largest_chain = chains[the_largest_index].clone();
                proof {
                    assert(chains@[the_largest_index as int].deep_view() == chains.deep_view()[
                        the_largest_index as int
                    ]);
                    assert(the_largest_chain@ == chains.deep_view()[the_largest_index as int]);
                }
                self.blockchain = the_largest_chain.blockchain;
                proof {
                    let kept = chains.deep_view()[the_largest_index as int];
                    assert(self@.blockchain == kept.blockchain);
                    assert(kept.blockchain.len() >= 1);
                    assert(kept.blockchain.len() > old(self)@.blockchain.len());
                    assert(kept.blockchain[0] == g0);
                    if chain_linked(old(self)@.blockchain) {
                        assert(chain_linked(kept.blockchain));
                    }
                    if mined_after_genesis(old(self)@.blockchain) {
                        assert(mined_after_genesis(kept.blockchain));
                    }
                }
            }
            timer = timer + 1;
        }
        Ok(())
    }
}

} // verus!
