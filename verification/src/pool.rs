//! The transaction pool: a FIFO queue of pending transactions. Enqueue
//! appends at the tail, peeking reads the head, eviction removes the
//! first structurally-equal entry (a no-op when absent), and a snapshot
//! is a read-only copy for serving peer queries.

use vstd::prelude::*;
use std::collections::VecDeque;
use crate::LedgerError;
use crate::ledger::{Transaction, TransactionV};

verus! {

/// What enqueueing does to the pool's contents.
pub open spec fn enqueue_spec(pool: Seq<TransactionV>, t: TransactionV) -> Seq<TransactionV> {
    pool.push(t)
}

/// What peeking reads: the head of the pool.
pub open spec fn peek_spec(pool: Seq<TransactionV>) -> TransactionV
    recommends
        pool.len() > 0,
{
    pool[0]
}

/// The least index holding a transaction structurally equal to `t`.
pub open spec fn first_match_tx(pool: Seq<TransactionV>, t: TransactionV) -> Option<int>
    decreases pool.len(),
{
    if pool.len() == 0 {
        None
    } else if pool[0] == t {
        Some(0)
    } else {
        match first_match_tx(pool.drop_first(), t) {
            Some(i) => Some(i + 1),
            None => None,
        }
    }
}

/// What eviction does: removes the first structurally-equal entry, or
/// leaves the pool unchanged when none matches.
pub open spec fn evict_spec(pool: Seq<TransactionV>, t: TransactionV) -> Seq<TransactionV> {
    match first_match_tx(pool, t) {
        Some(i) => pool.remove(i),
        None => pool,
    }
}

/// A found first match is exactly what `first_match_tx` names.
proof fn lemma_first_match_tx_found(pool: Seq<TransactionV>, t: TransactionV, i: int)
    requires
        0 <= i < pool.len(),
        pool[i] == t,
        forall|j: int| 0 <= j < i ==> pool[j] != t,
    ensures
        first_match_tx(pool, t) == Some(i),
    decreases pool.len(),
{
    if i == 0 {
    } else {
        assert(pool[0] != t);
        assert(pool.drop_first()[i - 1] == pool[i]);
        assert forall|j: int| 0 <= j < i - 1 implies pool.drop_first()[j] != t by {
            assert(pool.drop_first()[j] == pool[j + 1]);
        }
        lemma_first_match_tx_found(pool.drop_first(), t, i - 1);
    }
}

/// When nothing matches, `first_match_tx` finds nothing.
proof fn lemma_first_match_tx_none(pool: Seq<TransactionV>, t: TransactionV)
    requires
        forall|j: int| 0 <= j < pool.len() ==> pool[j] != t,
    ensures
        first_match_tx(pool, t) is None,
    decreases pool.len(),
{
    if pool.len() > 0 {
        assert forall|j: int| 0 <= j < pool.drop_first().len() implies pool.drop_first()[j]
            != t by {
            assert(pool.drop_first()[j] == pool[j + 1]);
        }
        lemma_first_match_tx_none(pool.drop_first(), t);
    }
}

/// Queues a new pending transaction at the tail of `queue`.
pub fn newTransaction(from: String, to: String, amount: u64, queue: &mut VecDeque<Transaction>)
    ensures
        final(queue).deep_view() == enqueue_spec(
            old(queue).deep_view(),
            TransactionV { from: from@, to: to@, amount },
        ),
{
    let t = Transaction { from, to, amount };
    queue.push_back(t);
    proof {
        assert(final(queue).deep_view() =~= enqueue_spec(old(queue).deep_view(), t@));
    }
}

/// Reads the pool's head without consuming it. Fails with `EmptyPool`
/// when nothing is pending.
pub fn peek_front(queue: &VecDeque<Transaction>) -> (r: Result<&Transaction, LedgerError>)
    ensures
        match r {
            Ok(t) => queue.deep_view().len() > 0 && t@ == peek_spec(queue.deep_view()),
            Err(e) => e == LedgerError::EmptyPool && queue.deep_view().len() == 0,
        },
{
    if queue.len() > 0 {
        Ok(&queue[0])
    } else {
        Err(LedgerError::EmptyPool)
    }
}

/// Removes the first entry structurally equal to `t`, if one is
/// present; absence is tolerated, not an error.
pub fn evict(queue: &mut VecDeque<Transaction>, t: &Transaction)
    ensures
        final(queue).deep_view() == evict_spec(old(queue).deep_view(), t@),
{
    let mut i: usize = 0;
    while i < queue.len()
        invariant
            i <= queue.deep_view().len(),
            queue.deep_view() == old(queue).deep_view(),
            forall|j: int| 0 <= j < i ==> queue.deep_view()[j] != t@,
        decreases queue@.len() - i,
    {
        if queue[i] == *t {
            proof {
                lemma_first_match_tx_found(queue.deep_view(), t@, i as int);
            }
            queue.remove(i);
            proof {
                assert(final(queue).deep_view() =~= old(queue).deep_view().remove(i as int));
            }
            return ;
        }
        i = i + 1;
    }
    proof {
        lemma_first_match_tx_none(queue.deep_view(), t@);
    }
}

/// A read-only copy of the pending transactions, in order, for serving
/// a peer's query.
pub fn snapshot(queue: &VecDeque<Transaction>) -> (r: Vec<Transaction>)
    ensures
        r.deep_view() == queue.deep_view(),
{
    let mut r: Vec<Transaction> = Vec::new();
    let mut i: usize = 0;
    while i < queue.len()
        invariant
            i <= queue.deep_view().len(),
            r.deep_view() == queue.deep_view().take(i as int),
        decreases queue@.len() - i,
    {
        let ghost pre = r.deep_view();
        let t = queue[i].clone();
        proof {
            assert(t == queue@[i as int]);
        }
        r.push(t);
        proof {
            assert(pre.len() == i);
            assert forall|j: int| 0 <= j < pre.len() + 1 implies r.deep_view()[j]
                == queue.deep_view().take(i + 1 as int)[j] by {
                if j < pre.len() {
                    assert(r.deep_view()[j] == pre[j]);
                    assert(pre[j] == queue.deep_view().take(i as int)[j]);
                } else {
                    assert(r.deep_view()[j] == t.deep_view());
                    assert(queue.deep_view()[i as int] == queue@[i as int].deep_view());
                }
            }
            assert(r.deep_view() =~= queue.deep_view().take(i + 1 as int));
        }
        i = i + 1;
    }
    proof {
        assert(queue.deep_view().take(queue.deep_view().len() as int) =~= queue.deep_view());
    }
    r
}

/// Pool FIFO law: enqueueing `t1` then `t2` into an empty pool and
/// peeking yields `t1`; after evicting `t1`, peeking yields `t2`.
pub proof fn lemma_pool_fifo(t1: TransactionV, t2: TransactionV)
    ensures
        peek_spec(enqueue_spec(enqueue_spec(Seq::<TransactionV>::empty(), t1), t2)) == t1,
        evict_spec(enqueue_spec(enqueue_spec(Seq::<TransactionV>::empty(), t1), t2), t1) == seq![
            t2
        ],
        peek_spec(evict_spec(enqueue_spec(enqueue_spec(Seq::<TransactionV>::empty(), t1), t2), t1))
            == t2,
{
    let p2 = Seq::<TransactionV>::empty().push(t1).push(t2);
    assert(p2.len() == 2);
    assert(p2[0] == t1);
    assert(p2[1] == t2);
    assert(first_match_tx(p2, t1) == Some(0int));
    assert(p2.remove(0) =~= seq![t2]);
}

} // verus!
