//! The fork resolver and the chain set. A node holds several candidate
//! chains; a foreign block either extends the chain whose tip it names,
//! creates a fork when it names a mid-chain block, or is dropped as an
//! orphan. A periodic consensus collapse keeps only the strictly
//! longest chain, leaving ties for a later round.

use vstd::prelude::*;
use vstd::pervasive::VecAdditionalExecFns;
use crate::LedgerError;
use crate::chain::{Blockchain, BlockchainV, chain_ok};
use crate::ledger::{Block, BlockV, TransactionV};

verus! {

/// The least index in `c` of a block whose hash is `h`.
pub open spec fn first_block_match(c: Seq<BlockV>, h: Seq<char>) -> Option<int>
    decreases c.len(),
{
    if c.len() == 0 {
        None
    } else if c[0].hash == h {
        Some(0)
    } else {
        match first_block_match(c.drop_first(), h) {
            Some(i) => Some(i + 1),
            None => None,
        }
    }
}

/// The first chain containing a block whose hash is `h`, paired with
/// the least matching block index inside it.
pub open spec fn first_chain_match(cs: Seq<BlockchainV>, h: Seq<char>) -> Option<(int, int)>
    decreases cs.len(),
{
    if cs.len() == 0 {
        None
    } else {
        match first_block_match(cs[0].blockchain, h) {
            Some(bi) => Some((0, bi)),
            None => match first_chain_match(cs.drop_first(), h) {
                Some(m) => Some((m.0 + 1, m.1)),
                None => None,
            },
        }
    }
}

/// The chain a fork creates: the matched chain's prefix up to and
/// including the matched block, then the received block, with an empty
/// pool of its own.
pub open spec fn fork_of(c: BlockchainV, bi: int, b: BlockV) -> BlockchainV {
    BlockchainV {
        transactions: Seq::<TransactionV>::empty(),
        blockchain: c.blockchain.subrange(0, bi + 1).push(b),
    }
}

/// Whether some chain of the set already ends in a block whose hash is
/// `h`.
pub open spec fn has_tip(cs: Seq<BlockchainV>, h: Seq<char>) -> bool {
    exists|i: int|
        #![trigger cs[i].blockchain]
        0 <= i < cs.len() && cs[i].blockchain.len() > 0 && cs[i].blockchain.last().hash == h
}

/// The chain set's uniqueness invariant: chains are distinguished by
/// their tips, so no two chains end in the same hash.
pub open spec fn distinct_tips(cs: Seq<BlockchainV>) -> bool {
    forall|i: int, j: int|
        #![trigger cs[i].blockchain, cs[j].blockchain]
        0 <= i < j < cs.len() ==> cs[i].blockchain.last().hash != cs[j].blockchain.last().hash
}

/// Distinct tips distinguish chains: a set whose nonempty chains all
/// end in different hashes holds no structural duplicate by content.
pub proof fn lemma_distinct_tips_no_duplicates(cs: Seq<BlockchainV>)
    requires
        forall|i: int| 0 <= i < cs.len() ==> #[trigger] cs[i].blockchain.len() > 0,
        distinct_tips(cs),
    ensures
        forall|i: int, j: int|
            #![trigger cs[i].blockchain, cs[j].blockchain]
            0 <= i < j < cs.len() ==> cs[i].blockchain != cs[j].blockchain,
{
    assert forall|i: int, j: int|
        #![trigger cs[i].blockchain, cs[j].blockchain]
        0 <= i < j < cs.len() implies cs[i].blockchain != cs[j].blockchain by {
        assert(cs[i].blockchain.last().hash != cs[j].blockchain.last().hash);
    }
}

/// What receiving a foreign block does to the chain set: extend in
/// place when the matched block is a tip, fork when it is mid-chain,
/// drop the block when nothing matches or when a chain already ends in
/// the block (so the set never grows a structural duplicate).
pub open spec fn receive_spec(cs: Seq<BlockchainV>, b: BlockV) -> Seq<BlockchainV> {
    match first_chain_match(cs, b.prev_hash) {
        None => cs,
        Some(m) => {
            if has_tip(cs, b.hash) {
                cs
            } else if m.1 == cs[m.0].blockchain.len() - 1 {
                cs.update(
                    m.0,
                    BlockchainV {
                        transactions: cs[m.0].transactions,
                        blockchain: cs[m.0].blockchain.push(b),
                    },
                )
            } else {
                cs.push(fork_of(cs[m.0], m.1, b))
            }
        },
    }
}

/// A found first match is exactly what `first_block_match` names.
proof fn lemma_first_block_match_found(c: Seq<BlockV>, h: Seq<char>, i: int)
    requires
        0 <= i < c.len(),
        c[i].hash == h,
        forall|j: int| 0 <= j < i ==> c[j].hash != h,
    ensures
        first_block_match(c, h) == Some(i),
    decreases c.len(),
{
    if i == 0 {
    } else {
        assert(c[0].hash != h);
        assert(c.drop_first()[i - 1] == c[i]);
        assert forall|j: int| 0 <= j < i - 1 implies c.drop_first()[j].hash != h by {
            assert(c.drop_first()[j] == c[j + 1]);
        }
        lemma_first_block_match_found(c.drop_first(), h, i - 1);
    }
}

/// When no block of `c` has hash `h`, `first_block_match` finds nothing.
proof fn lemma_first_block_match_none(c: Seq<BlockV>, h: Seq<char>)
    requires
        forall|j: int| 0 <= j < c.len() ==> c[j].hash != h,
    ensures
        first_block_match(c, h) is None,
    decreases c.len(),
{
    if c.len() > 0 {
        assert forall|j: int| 0 <= j < c.drop_first().len() implies c.drop_first()[j].hash
            != h by {
            assert(c.drop_first()[j] == c[j + 1]);
        }
        lemma_first_block_match_none(c.drop_first(), h);
    }
}

/// Whatever `first_block_match` finds is a genuine first match.
proof fn lemma_first_block_match_some(c: Seq<BlockV>, h: Seq<char>)
    ensures
        match first_block_match(c, h) {
            Some(i) => 0 <= i < c.len() && c[i].hash == h,
            None => true,
        },
    decreases c.len(),
{
    if c.len() > 0 && c[0].hash != h {
        lemma_first_block_match_some(c.drop_first(), h);
        if first_block_match(c.drop_first(), h) is Some {
            let i = first_block_match(c.drop_first(), h)->0;
            assert(c.drop_first()[i] == c[i + 1]);
        }
    }
}

/// Whatever `first_chain_match` finds names a chain whose
/// `first_block_match` is the found block index.
proof fn lemma_first_chain_match_some(cs: Seq<BlockchainV>, h: Seq<char>)
    ensures
        match first_chain_match(cs, h) {
            Some(m) => {
                &&& 0 <= m.0 < cs.len()
                &&& first_block_match(cs[m.0].blockchain, h) == Some(m.1)
            },
            None => true,
        },
    decreases cs.len(),
{
    if cs.len() > 0 && first_block_match(cs[0].blockchain, h) is None {
        lemma_first_chain_match_some(cs.drop_first(), h);
        if first_chain_match(cs.drop_first(), h) is Some {
            let m = first_chain_match(cs.drop_first(), h)->0;
            assert(cs.drop_first()[m.0] == cs[m.0 + 1]);
        }
    }
}

/// A found first chain match is exactly what `first_chain_match` names.
proof fn lemma_first_chain_match_found(cs: Seq<BlockchainV>, h: Seq<char>, ci: int, bi: int)
    requires
        0 <= ci < cs.len(),
        first_block_match(cs[ci].blockchain, h) == Some(bi),
        forall|j: int| 0 <= j < ci ==> first_block_match(cs[j].blockchain, h) is None,
    ensures
        first_chain_match(cs, h) == Some((ci, bi)),
    decreases cs.len(),
{
    if ci == 0 {
    } else {
        assert(first_block_match(cs[0].blockchain, h) is None);
        assert(cs.drop_first()[ci - 1] == cs[ci]);
        assert forall|j: int| 0 <= j < ci - 1 implies first_block_match(
            cs.drop_first()[j].blockchain,
            h,
        ) is None by {
            assert(cs.drop_first()[j] == cs[j + 1]);
        }
        lemma_first_chain_match_found(cs.drop_first(), h, ci - 1, bi);
    }
}

/// When no chain holds a matching block, `first_chain_match` finds
/// nothing.
proof fn lemma_first_chain_match_none(cs: Seq<BlockchainV>, h: Seq<char>)
    requires
        forall|j: int| 0 <= j < cs.len() ==> first_block_match(cs[j].blockchain, h) is None,
    ensures
        first_chain_match(cs, h) is None,
    decreases cs.len(),
{
    if cs.len() > 0 {
        assert forall|j: int| 0 <= j < cs.drop_first().len() implies first_block_match(
            cs.drop_first()[j].blockchain,
            h,
        ) is None by {
            assert(cs.drop_first()[j] == cs[j + 1]);
        }
        lemma_first_chain_match_none(cs.drop_first(), h);
    }
}

/// Scans one chain front to back for the first block whose hash is `h`.
fn find_block_index(c: &Blockchain, h: &String) -> (r: Option<usize>)
    ensures
        match r {
            Some(k) => {
                &&& first_block_match(c@.blockchain, h@) == Some(k as int)
                &&& k < c@.blockchain.len()
            },
            None => first_block_match(c@.blockchain, h@) is None,
        },
{
    let mut found: Option<usize> = None;
    let mut j: usize = 0;
    while j < c.blockchain.len()
        invariant
            j <= c@.blockchain.len(),
            match found {
                Some(k) => {
                    &&& k < j
                    &&& k < c@.blockchain.len()
                    &&& c@.blockchain[k as int].hash == h@
                    &&& forall|i: int| 0 <= i < k ==> c@.blockchain[i].hash != h@
                },
                None => forall|i: int| 0 <= i < j ==> c@.blockchain[i].hash != h@,
            },
        decreases c@.blockchain.len() - j,
    {
        if found.is_none() && c.blockchain[j].hash == *h {
            found = Some(j);
        }
        j = j + 1;
    }
    proof {
        match found {
            Some(k) => lemma_first_block_match_found(c@.blockchain, h@, k as int),
            None => lemma_first_block_match_none(c@.blockchain, h@),
        }
    }
    found
}

/// Scans the chain set in order for the first chain holding a block
/// whose hash is `h`.
fn find_parent(chains: &Vec<Blockchain>, h: &String) -> (r: Option<(usize, usize)>)
    ensures
        match r {
            Some(m) => {
                &&& first_chain_match(chains.deep_view(), h@) == Some((m.0 as int, m.1 as int))
                &&& (m.0 as int) < chains.deep_view().len()
                &&& (m.1 as int) < chains.deep_view()[m.0 as int].blockchain.len()
            },
            None => first_chain_match(chains.deep_view(), h@) is None,
        },
{
    let ghost cs = chains.deep_view();
    let mut located: Option<(usize, usize)> = None;
    let mut ci: usize = 0;
    while ci < chains.len()
        invariant
            cs == chains.deep_view(),
            ci <= cs.len(),
            match located {
                Some(m) => {
                    &&& (m.0 as int) < cs.len()
                    &&& first_block_match(cs[m.0 as int].blockchain, h@) == Some(m.1 as int)
                    &&& (m.1 as int) < cs[m.0 as int].blockchain.len()
                    &&& forall|j: int|
                        0 <= j < m.0 ==> first_block_match(cs[j].blockchain, h@) is None
                },
                None => forall|j: int|
                    0 <= j < ci ==> first_block_match(cs[j].blockchain, h@) is None,
            },
        decreases cs.len() - ci,
    {
        if located.is_none() {
            proof {
                assert(chains@[ci as int].deep_view() == cs[ci as int]);
            }
            let r = find_block_index(&chains[ci], h);
            match r {
                Some(k) => {
                    located = Some((ci, k));
                },
                None => {},
            }
        }
        ci = ci + 1;
    }
    proof {
        match located {
            Some(m) => lemma_first_chain_match_found(cs, h@, m.0 as int, m.1 as int),
            None => lemma_first_chain_match_none(cs, h@),
        }
    }
    located
}

/// How one foreign block was taken into the chain set.
#[derive(Clone, Copy, PartialEq, Eq, Structural, Debug)]
pub enum ReceiveOutcome {
    /// The block extended the chain at `chain_index` in place.
    Extended { chain_index: usize },
    /// A new fork was created from `chain_index` at `block_index`.
    Forked { chain_index: usize, block_index: usize },
    /// A chain already ends in this block; the set was left unchanged.
    Duplicate,
}

/// Scans the chain set for a chain that already ends in the hash `h`.
fn tip_exists(chains: &Vec<Blockchain>, h: &String) -> (r: bool)
    ensures
        r == has_tip(chains.deep_view(), h@),
{
    let ghost cs = chains.deep_view();
    let mut found = false;
    let mut i: usize = 0;
    while i < chains.len()
        invariant
            cs == chains.deep_view(),
            i <= cs.len(),
            found ==> has_tip(cs, h@),
            !found ==> forall|j: int|
                #![trigger cs[j].blockchain]
                0 <= j < i ==> !(cs[j].blockchain.len() > 0 && cs[j].blockchain.last().hash == h@),
        decreases cs.len() - i,
    {
        let c = &chains[i];
        proof {
            assert(chains@[i as int].deep_view() == cs[i as int]);
        }
        if c.blockchain.len() > 0 && c.blockchain[c.blockchain.len() - 1].hash == *h {
            proof {
                assert(cs[i as int].blockchain.len() > 0 && cs[i as int].blockchain.last().hash
                    == h@);
                assert(has_tip(cs, h@));
            }
            found = true;
        }
        i = i + 1;
    }
    found
}

/// Takes one foreign block into the chain set: appends it to the chain
/// whose tip it extends, creates a fork when its parent sits mid-chain,
/// drops it with `NoMatchingParent` when its parent is unknown, and
/// drops it as a `Duplicate` when some chain already ends in it.
pub fn receive_block(chains: &mut Vec<Blockchain>, block: Block) -> (r: Result<
    ReceiveOutcome,
    LedgerError,
>)
    ensures
        final(chains).deep_view() == receive_spec(old(chains).deep_view(), block@),
        match r {
            Ok(o) => match o {
                ReceiveOutcome::Extended { chain_index } => {
                    &&& first_chain_match(old(chains).deep_view(), block@.prev_hash) == Some(
                        (
                            chain_index as int,
                            old(chains).deep_view()[chain_index as int].blockchain.len() - 1,
                        ),
                    )
                    &&& !has_tip(old(chains).deep_view(), block@.hash)
                },
                ReceiveOutcome::Forked { chain_index, block_index } => {
                    &&& first_chain_match(old(chains).deep_view(), block@.prev_hash) == Some(
                        (chain_index as int, block_index as int),
                    )
                    &&& block_index + 1 < old(chains).deep_view()[chain_index as int
                    ].blockchain.len()
                    &&& !has_tip(old(chains).deep_view(), block@.hash)
                },
                ReceiveOutcome::Duplicate => {
                    &&& first_chain_match(old(chains).deep_view(), block@.prev_hash) is Some
                    &&& has_tip(old(chains).deep_view(), block@.hash)
                },
            },
            Err(e) => {
                &&& e == LedgerError::NoMatchingParent
                &&& first_chain_match(old(chains).deep_view(), block@.prev_hash) is None
            },
        },
        (forall|i: int|
            0 <= i < old(chains).deep_view().len() ==> chain_ok(
                old(chains).deep_view()[i].blockchain,
            )) ==> forall|i: int|
            0 <= i < final(chains).deep_view().len() ==> chain_ok(
                final(chains).deep_view()[i].blockchain,
            ),
        ((forall|i: int|
            0 <= i < old(chains).deep_view().len() ==> #[trigger] old(chains).deep_view()[
                i
            ].blockchain.len() > 0) && distinct_tips(old(chains).deep_view())) ==> distinct_tips(
            final(chains).deep_view(),
        ),
{
    let ghost cs0 = chains.deep_view();
    let ghost h = block@.prev_hash;
    let located = find_parent(chains, &block.prev_hash);
    match located {
        None => Err(LedgerError::NoMatchingParent),
        Some((mci, mbi)) => {
            proof {
                lemma_first_chain_match_some(cs0, h);
                lemma_first_block_match_some(cs0[mci as int].blockchain, h);
                assert(cs0[mci as int].blockchain[mbi as int].hash == h);
            }
            if tip_exists(chains, &block.hash) {
                proof {
                    assert(receive_spec(cs0, block@) == cs0);
                }
                return Ok(ReceiveOutcome::Duplicate);
            }
            if mbi == chains[mci].blockchain.len() - 1 {
                // Linear extension: the matched block is a tip.
                let mut extended = chains[mci].clone();
                extended.blockchain.push(block);
                proof {
                    assert(extended@.blockchain =~= cs0[mci as int].blockchain.push(block@));
                    assert(extended@.transactions =~= cs0[mci as int].transactions);
                }
                chains.set(mci, extended);
                proof {
                    assert(final(chains).deep_view() =~= receive_spec(cs0, block@));
                    if forall|i: int| 0 <= i < cs0.len() ==> chain_ok(#[trigger] cs0[i].blockchain) {
                        lemma_receive_ok_extended(cs0, block@, mci as int, mbi as int);
                    }
                    if (forall|i: int|
                        0 <= i < cs0.len() ==> #[trigger] cs0[i].blockchain.len() > 0)
                        && distinct_tips(cs0) {
                        lemma_receive_distinct_extended(cs0, block@, mci as int, mbi as int);
                    }
                }
                Ok(ReceiveOutcome::Extended { chain_index: mci })
            } else {
                // Fork creation: copy the prefix up to and including the
                // matched block, then append the received block.
                let clen = chains[mci].blockchain.len();
                proof {
                    assert(mbi < clen);
                }
                let mut forked = Blockchain::default();
                let mut j: usize = 0;
                proof {
                    assert(cs0[mci as int].blockchain.subrange(0, 0) =~= Seq::<BlockV>::empty());
                }
                while j < mbi + 1
                    invariant
                        mci < cs0.len(),
                        (mbi as int) + 1 <= cs0[mci as int].blockchain.len(),
                        mbi < clen,
                        cs0 == chains.deep_view(),
                        j <= mbi + 1,
                        forked@.transactions == Seq::<TransactionV>::empty(),
                        forked@.blockchain == cs0[mci as int].blockchain.subrange(0, j as int),
                    decreases mbi + 1 - j,
                {
                    let ghost pre = forked@.blockchain;
                    let b = chains[mci].blockchain[j].clone();
                    proof {
                        assert(chains@[mci as int].deep_view() == cs0[mci as int]);
                        assert(b@ == cs0[mci as int].blockchain[j as int]);
                    }
                    forked.blockchain.push(b);
                    proof {
                        let target = cs0[mci as int].blockchain.subrange(0, j + 1 as int);
                        assert forall|i: int| 0 <= i < pre.len() + 1 implies forked@.blockchain[i]
                            == target[i] by {
                            if i < pre.len() {
                                assert(forked@.blockchain[i] == pre[i]);
                            } else {
                                assert(forked@.blockchain[i] == b@);
                            }
                        }
                        assert(forked@.blockchain =~= target);
                    }
                    j = j + 1;
                }
                let ghost pre = forked@.blockchain;
                forked.blockchain.push(block);
                proof {
                    let target = cs0[mci as int].blockchain.subrange(0, mbi + 1 as int).push(
                        block@,
                    );
                    assert forall|i: int| 0 <= i < pre.len() + 1 implies forked@.blockchain[i]
                        == target[i] by {
                        if i < pre.len() {
                            assert(forked@.blockchain[i] == pre[i]);
                        } else {
                            assert(forked@.blockchain[i] == block@);
                        }
                    }
                    assert(forked@.blockchain =~= target);
                    assert(forked@ == fork_of(cs0[mci as int], mbi as int, block@));
                }
                chains.push(forked);
                proof {
                    assert(final(chains).deep_view() =~= receive_spec(cs0, block@));
                    if forall|i: int| 0 <= i < cs0.len() ==> chain_ok(#[trigger] cs0[i].blockchain) {
                        lemma_receive_ok_forked(cs0, block@, mci as int, mbi as int);
                    }
                    if (forall|i: int|
                        0 <= i < cs0.len() ==> #[trigger] cs0[i].blockchain.len() > 0)
                        && distinct_tips(cs0) {
                        lemma_receive_distinct_forked(cs0, block@, mci as int, mbi as int);
                    }
                }
                Ok(ReceiveOutcome::Forked { chain_index: mci, block_index: mbi })
            }
        },
    }
}

/// Whether the chain at `i` is strictly longer than every other chain
/// in the set.
pub open spec fn dominates(cs: Seq<BlockchainV>, i: int) -> bool {
    &&& 0 <= i < cs.len()
    &&& forall|j: int|
        0 <= j < cs.len() && j != i ==> cs[j].blockchain.len() < cs[i].blockchain.len()
}

/// Whether some chain is strictly longer than all others.
pub open spec fn unique_longest(cs: Seq<BlockchainV>) -> bool {
    exists|i: int| dominates(cs, i)
}

/// The index of the strictly longest chain, when one exists.
pub open spec fn longest_index(cs: Seq<BlockchainV>) -> int {
    choose|i: int| dominates(cs, i)
}

/// What consensus collapse does: when one chain is strictly longer than
/// every other, only it survives; ties leave the set untouched until a
/// later round breaks them.
pub open spec fn resolve_spec(cs: Seq<BlockchainV>) -> Seq<BlockchainV> {
    if cs.len() > 1 && unique_longest(cs) {
        seq![cs[longest_index(cs)]]
    } else {
        cs
    }
}

/// Collapses the chain set to its strictly longest member, if one
/// exists; a tie at the maximum length leaves every chain in place.
pub fn resolve(chains: &mut Vec<Blockchain>)
    ensures
        final(chains).deep_view() == resolve_spec(old(chains).deep_view()),
{
    let ghost cs = chains.deep_view();
    if chains.len() <= 1 {
        return ;
    }
    let mut max: usize = 0;
    let mut count: usize = 0;
    let mut first: usize = 0;
    let mut i: usize = 0;
    while i < chains.len()
        invariant
            cs == chains.deep_view(),
            i <= cs.len(),
            count <= i,
            i == 0 ==> count == 0 && max == 0 && first == 0,
            i > 0 ==> count >= 1,
            i > 0 ==> (first as int) < i,
            i > 0 ==> cs[first as int].blockchain.len() == max,
            i > 0 ==> (forall|j: int| 0 <= j < i ==> cs[j].blockchain.len() <= max),
            i > 0 ==> (forall|j: int| 0 <= j < first ==> cs[j].blockchain.len() < max),
            i > 0 ==> ((count == 1) <==> (forall|j: int|
                0 <= j < i && j != first ==> cs[j].blockchain.len() < max)),
        decreases cs.len() - i,
    {
        let l = chains[i].blockchain.len();
        proof {
            assert(chains@[i as int].deep_view() == cs[i as int]);
            assert(l == cs[i as int].blockchain.len());
        }
        if l > max {
            max = l;
            count = 1;
            first = i;
        } else if l == max {
            count = count + 1;
        }
        i = i + 1;
    }
    if count == 1 {
        proof {
            assert(dominates(cs, first as int));
            assert(unique_longest(cs));
            let w = longest_index(cs);
            assert(dominates(cs, w));
            if w != first {
                assert(cs[first as int].blockchain.len() < cs[w].blockchain.len());
                assert(cs[w].blockchain.len() < cs[first as int].blockchain.len());
            }
            assert(w == first);
        }
        let keep = chains[first].clone();
        proof {
            assert(keep@ == cs[first as int]);
        }
        chains.clear();
        chains.push(keep);
        proof {
            assert(final(chains).deep_view() =~= seq![cs[longest_index(cs)]]);
        }
    } else {
        proof {
            if unique_longest(cs) {
                let w = longest_index(cs);
                assert(dominates(cs, w));
                assert(!(forall|j: int|
                    0 <= j < cs.len() && j != first ==> cs[j].blockchain.len() < max));
                let j0 = choose|j: int|
                    0 <= j < cs.len() && j != first && !(cs[j].blockchain.len() < max);
                assert(cs[j0].blockchain.len() == max);
                if w == first as int {
                    assert(cs[j0].blockchain.len() < cs[w].blockchain.len());
                } else {
                    assert(cs[first as int].blockchain.len() < cs[w].blockchain.len());
                    assert(cs[w].blockchain.len() <= max);
                }
                assert(false);
            }
        }
    }
}

/// Fork creation law: on a chain holding genesis `g`, block `a`, and
/// tip `bb`, a received block `c` naming `a` as its parent leaves both
/// the original chain and the new fork ending in `c` in the set.
pub proof fn lemma_fork_creation(
    g: BlockV,
    a: BlockV,
    bb: BlockV,
    c: BlockV,
    txs: Seq<TransactionV>,
)
    requires
        c.prev_hash == a.hash,
        g.hash != a.hash,
        c.hash != bb.hash,
    ensures
        receive_spec(seq![BlockchainV { transactions: txs, blockchain: seq![g, a, bb] }], c)
            == seq![
            BlockchainV { transactions: txs, blockchain: seq![g, a, bb] },
            BlockchainV {
                transactions: Seq::<TransactionV>::empty(),
                blockchain: seq![g, a, c],
            },
        ],
{
    let ch = seq![g, a, bb];
    let cs = seq![BlockchainV { transactions: txs, blockchain: ch }];
    lemma_first_block_match_found(ch, c.prev_hash, 1);
    lemma_first_chain_match_found(cs, c.prev_hash, 0, 1);
    assert forall|i: int| 0 <= i < cs.len() implies !(#[trigger] cs[i].blockchain.len() > 0
        && cs[i].blockchain.last().hash == c.hash) by {
        assert(cs[i].blockchain.last() == bb);
    }
    assert(!has_tip(cs, c.hash));
    let forked = fork_of(cs[0], 1, c);
    assert(ch.subrange(0, 2).push(c) =~= seq![g, a, c]);
    assert(forked == BlockchainV {
        transactions: Seq::<TransactionV>::empty(),
        blockchain: seq![g, a, c],
    });
    assert(receive_spec(cs, c) =~= seq![cs[0], forked]);
}

/// Linear extension law: on a chain holding genesis `g`, block `a`, and
/// tip `bb`, a received block `d` naming `bb` as its parent extends the
/// chain in place without creating a new chain.
pub proof fn lemma_linear_extension(
    g: BlockV,
    a: BlockV,
    bb: BlockV,
    d: BlockV,
    txs: Seq<TransactionV>,
)
    requires
        d.prev_hash == bb.hash,
        g.hash != bb.hash,
        a.hash != bb.hash,
        d.hash != bb.hash,
    ensures
        receive_spec(seq![BlockchainV { transactions: txs, blockchain: seq![g, a, bb] }], d)
            == seq![BlockchainV { transactions: txs, blockchain: seq![g, a, bb, d] }],
{
    let ch = seq![g, a, bb];
    let cs = seq![BlockchainV { transactions: txs, blockchain: ch }];
    lemma_first_block_match_found(ch, d.prev_hash, 2);
    lemma_first_chain_match_found(cs, d.prev_hash, 0, 2);
    assert forall|i: int| 0 <= i < cs.len() implies !(#[trigger] cs[i].blockchain.len() > 0
        && cs[i].blockchain.last().hash == d.hash) by {
        assert(cs[i].blockchain.last() == bb);
    }
    assert(!has_tip(cs, d.hash));
    assert(ch.push(d) =~= seq![g, a, bb, d]);
    assert(receive_spec(cs, d) =~= seq![
        BlockchainV { transactions: txs, blockchain: seq![g, a, bb, d] },
    ]);
}

/// Orphan drop law: a block whose parent hash matches no block anywhere
/// in the chain set leaves the set unchanged.
pub proof fn lemma_orphan_drop(cs: Seq<BlockchainV>, b: BlockV)
    requires
        forall|ci: int, bi: int|
            #![trigger cs[ci].blockchain[bi]]
            0 <= ci < cs.len() && 0 <= bi < cs[ci].blockchain.len()
                ==> cs[ci].blockchain[bi].hash != b.prev_hash,
    ensures
        receive_spec(cs, b) == cs,
{
    assert forall|ci: int| 0 <= ci < cs.len() implies first_block_match(
        cs[ci].blockchain,
        b.prev_hash,
    ) is None by {
        lemma_first_block_match_none(cs[ci].blockchain, b.prev_hash);
    }
    lemma_first_chain_match_none(cs, b.prev_hash);
}

/// Duplicate drop law: a block some chain already ends in leaves the
/// chain set unchanged, even when its parent is known.
pub proof fn lemma_duplicate_drop(cs: Seq<BlockchainV>, b: BlockV)
    requires
        has_tip(cs, b.hash),
    ensures
        receive_spec(cs, b) == cs,
{
}

/// Linear extension of a block no chain ends in keeps the tips
/// pairwise distinct.
proof fn lemma_receive_distinct_extended(cs: Seq<BlockchainV>, b: BlockV, ci: int, bi: int)
    requires
        0 <= ci < cs.len(),
        forall|i: int| 0 <= i < cs.len() ==> #[trigger] cs[i].blockchain.len() > 0,
        distinct_tips(cs),
        !has_tip(cs, b.hash),
    ensures
        distinct_tips(
            cs.update(
                ci,
                BlockchainV {
                    transactions: cs[ci].transactions,
                    blockchain: cs[ci].blockchain.push(b),
                },
            ),
        ),
{
    let fin = cs.update(
        ci,
        BlockchainV { transactions: cs[ci].transactions, blockchain: cs[ci].blockchain.push(b) },
    );
    assert forall|i: int, j: int|
        #![trigger fin[i].blockchain, fin[j].blockchain]
        0 <= i < j < fin.len() implies fin[i].blockchain.last().hash
        != fin[j].blockchain.last().hash by {
        assert(cs[i].blockchain.last().hash != cs[j].blockchain.last().hash);
        if i == ci {
            assert(fin[i].blockchain.last() == b);
            assert(!(cs[j].blockchain.len() > 0 && cs[j].blockchain.last().hash == b.hash));
        } else if j == ci {
            assert(fin[j].blockchain.last() == b);
            assert(!(cs[i].blockchain.len() > 0 && cs[i].blockchain.last().hash == b.hash));
        }
    }
}

/// Fork creation from a block no chain ends in keeps the tips pairwise
/// distinct.
proof fn lemma_receive_distinct_forked(cs: Seq<BlockchainV>, b: BlockV, ci: int, bi: int)
    requires
        0 <= ci < cs.len(),
        0 <= bi < cs[ci].blockchain.len(),
        forall|i: int| 0 <= i < cs.len() ==> #[trigger] cs[i].blockchain.len() > 0,
        distinct_tips(cs),
        !has_tip(cs, b.hash),
    ensures
        distinct_tips(cs.push(fork_of(cs[ci], bi, b))),
{
    let fin = cs.push(fork_of(cs[ci], bi, b));
    assert(fin[cs.len() as int].blockchain.last() == b);
    assert forall|i: int, j: int|
        #![trigger fin[i].blockchain, fin[j].blockchain]
        0 <= i < j < fin.len() implies fin[i].blockchain.last().hash
        != fin[j].blockchain.last().hash by {
        if j < cs.len() {
            assert(cs[i].blockchain.last().hash != cs[j].blockchain.last().hash);
        } else {
            assert(fin[j].blockchain.last() == b);
            assert(!(cs[i].blockchain.len() > 0 && cs[i].blockchain.last().hash == b.hash));
        }
    }
}

/// Linear extension keeps every chain nonempty and linked.
proof fn lemma_receive_ok_extended(cs: Seq<BlockchainV>, b: BlockV, ci: int, bi: int)
    requires
        0 <= ci < cs.len(),
        0 <= bi < cs[ci].blockchain.len(),
        bi == cs[ci].blockchain.len() - 1,
        cs[ci].blockchain[bi].hash == b.prev_hash,
        forall|i: int| 0 <= i < cs.len() ==> chain_ok(#[trigger] cs[i].blockchain),
    ensures
        forall|i: int|
            0 <= i < cs.len() ==> chain_ok(
                #[trigger] cs.update(
                    ci,
                    BlockchainV {
                        transactions: cs[ci].transactions,
                        blockchain: cs[ci].blockchain.push(b),
                    },
                )[i].blockchain,
            ),
{
    let fin = cs.update(
        ci,
        BlockchainV { transactions: cs[ci].transactions, blockchain: cs[ci].blockchain.push(b) },
    );
    assert forall|i: int| 0 <= i < cs.len() implies chain_ok(#[trigger] fin[i].blockchain) by {
        assert(chain_ok(cs[i].blockchain));
        if i == ci {
            let nc = fin[i].blockchain;
            assert(nc == cs[ci].blockchain.push(b));
            assert forall|k: int| 0 < k < nc.len() implies nc[k].prev_hash == nc[k - 1].hash by {
                if k < cs[ci].blockchain.len() {
                    assert(cs[ci].blockchain[k].prev_hash == cs[ci].blockchain[k - 1].hash);
                } else {
                    assert(nc[k] == b);
                    assert(nc[k - 1] == cs[ci].blockchain[bi]);
                }
            }
        } else {
            assert(fin[i] == cs[i]);
        }
    }
}

/// Fork creation keeps every chain nonempty and linked, the new fork
/// included.
proof fn lemma_receive_ok_forked(cs: Seq<BlockchainV>, b: BlockV, ci: int, bi: int)
    requires
        0 <= ci < cs.len(),
        0 <= bi < cs[ci].blockchain.len(),
        cs[ci].blockchain[bi].hash == b.prev_hash,
        forall|i: int| 0 <= i < cs.len() ==> chain_ok(#[trigger] cs[i].blockchain),
    ensures
        forall|i: int|
            0 <= i < cs.len() + 1 ==> chain_ok(
                #[trigger] cs.push(fork_of(cs[ci], bi, b))[i].blockchain,
            ),
{
    let fin = cs.push(fork_of(cs[ci], bi, b));
    assert forall|i: int| 0 <= i < cs.len() + 1 implies chain_ok(
        #[trigger] fin[i].blockchain,
    ) by {
        if i < cs.len() {
            assert(fin[i] == cs[i]);
            assert(chain_ok(cs[i].blockchain));
        } else {
            let nc = fin[i].blockchain;
            assert(chain_ok(cs[ci].blockchain));
            assert(nc == cs[ci].blockchain.subrange(0, bi + 1).push(b));
            assert forall|k: int| 0 < k < nc.len() implies nc[k].prev_hash == nc[k - 1].hash by {
                if k < bi + 1 {
                    assert(nc[k] == cs[ci].blockchain[k]);
                    assert(nc[k - 1] == cs[ci].blockchain[k - 1]);
                    assert(cs[ci].blockchain[k].prev_hash == cs[ci].blockchain[k - 1].hash);
                } else {
                    assert(nc[k] == b);
                    assert(nc[k - 1] == cs[ci].blockchain[bi]);
                }
            }
        }
    }
}

} // verus!
