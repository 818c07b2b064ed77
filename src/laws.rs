use vstd::prelude::*;

use crate::block::{apply_all, block_hash, payload_outcome, zero_hash, BlockView};
use crate::ledger::{apply_outcome, empty_ledger, merged, LedgerView};
use crate::blockchain::{Blockchain, BlockchainView};
use crate::block::Block;
use crate::num::Num;
use crate::reader::Readable;
use crate::transaction::{Transaction, TransactionView};
use crate::writer::Writable;
use crate::blockchain::{branch_walk, replay, walk};
use crate::merkle::{accepted, add_outcome, branch_wf, links, tree_wf, Merkle, MerkleView};

verus! {

/// Reading back the bytes of an amount, a transaction, a block, a branch or a tree gives the
/// value that was written, with nothing left over (lengths must fit their `u32` prefixes).
pub proof fn lemma_codec_round_trip(
    a: Num,
    t: TransactionView,
    b: BlockView,
    c: BlockchainView,
    m: MerkleView,
)
    requires
        Transaction::fits(t),
        Block::fits(b),
        Blockchain::fits(c),
        Merkle::fits(m),
    ensures
        Num::parse(Num::encode(a)) == Some((a, Seq::<u8>::empty())),
        Transaction::parse(Transaction::encode(t)) == Some((t, Seq::<u8>::empty())),
        Block::parse(Block::encode(b)) == Some((b, Seq::<u8>::empty())),
        Blockchain::parse(Blockchain::encode(c)) == Some((c, Seq::<u8>::empty())),
        Merkle::parse(Merkle::encode(m)) == Some((m, Seq::<u8>::empty())),
{
    let e = Seq::<u8>::empty();
    Num::lemma_round_trip(a, e);
    assert(Num::encode(a) + e =~= Num::encode(a));
    Transaction::lemma_round_trip(t, e);
    assert(Transaction::encode(t) + e =~= Transaction::encode(t));
    Block::lemma_round_trip(b, e);
    assert(Block::encode(b) + e =~= Block::encode(b));
    Blockchain::lemma_round_trip(c, e);
    assert(Blockchain::encode(c) + e =~= Blockchain::encode(c));
    Merkle::lemma_round_trip(m, e);
    assert(Merkle::encode(m) + e =~= Merkle::encode(m));
}

/// From block `j` on, a well-formed branch walks without error.
proof fn lemma_walk_from(m: MerkleView, c: int, j: int)
    requires
        tree_wf(m),
        0 <= c < m.chains.len(),
        1 <= j <= m.chains[c].index.len(),
    ensures
        walk(
            m.blocks,
            m.chains[c].index.skip(j),
            (j - 1) as u32,
            m.blocks[m.chains[c].index[j - 1] as int].hash,
        ) == Ok::<(), crate::error::Error>(()),
    decreases m.chains[c].index.len() - j,
{
    let idx = m.chains[c].index;
    assert(branch_wf(m.blocks, m.chains[c]));
    if j < idx.len() {
        let s = idx.skip(j);
        assert(s[0] == idx[j]);
        assert(links(m.blocks, idx, j));
        let k = idx[j] as int;
        assert(k < m.blocks.len());
        assert(k != 0);
        assert(accepted(m.blocks, k));
        assert(s.skip(1) =~= idx.skip(j + 1));
        lemma_walk_from(m, c, j + 1);
    }
}

/// Every branch of a well-formed tree walks from genesis without error, and holds the ledger
/// that replaying its blocks gives.
pub proof fn lemma_branch_consistency(m: MerkleView, c: int)
    requires
        tree_wf(m),
        0 <= c < m.chains.len(),
    ensures
        branch_walk(m.blocks, m.chains[c].index) == Ok::<(), crate::error::Error>(()),
        m.chains[c].ledger == replay(m.blocks, m.chains[c].index),
{
    let idx = m.chains[c].index;
    assert(branch_wf(m.blocks, m.chains[c]));
    lemma_walk_from(m, c, 1);
    assert(idx[0] == 0);
}

/// Every block of a well-formed tree but genesis carries the hash of its content and proof of
/// work, and that hash meets the difficulty.
pub proof fn lemma_hash_stability(m: MerkleView, k: int)
    requires
        tree_wf(m),
        1 <= k < m.blocks.len(),
    ensures
        m.blocks[k].hash == block_hash(m.blocks[k].content, m.blocks[k].proof_of_work),
        crate::mining::check_difficulty_spec(m.blocks[k].hash, Merkle::DIFFICULTY),
{
    assert(accepted(m.blocks, k));
}

/// In a well-formed tree the main branch is among the longest; after an added block the main
/// branch changes only to a branch strictly longer than the previous main branch.
pub proof fn lemma_longest_chain(m: MerkleView, b: crate::block::BlockView)
    requires
        tree_wf(m),
    ensures
        forall|c: int|
            0 <= c < m.chains.len() ==> #[trigger] m.chains[c].index.len()
                <= m.chains[m.main as int].index.len(),
        add_outcome(m, b) matches Ok(m2) ==> (m2.main != m.main ==> m2.chains[m2.main as int].index.len()
            > m.chains[m.main as int].index.len()),
{
}

/// The nonces of a sequence of transactions, in order.
pub open spec fn tx_nonces(txs: Seq<TransactionView>) -> Seq<u64> {
    txs.map_values(|t: TransactionView| t.content.nonce)
}

/// The nonces of the transactions of the blocks at positions `idx`, newest block first.
pub open spec fn branch_nonces(blocks: Seq<BlockView>, idx: Seq<u32>) -> Seq<u64>
    decreases idx.len(),
{
    if idx.len() == 0 {
        seq![]
    } else {
        tx_nonces(blocks[idx.last() as int].content.transactions) + branch_nonces(
            blocks,
            idx.drop_last(),
        )
    }
}

proof fn lemma_apply_all_nonces(parent: LedgerView, p: LedgerView, txs: Seq<TransactionView>)
    requires
        apply_all(parent, p, txs) is Ok,
    ensures
        apply_all(parent, p, txs)->Ok_0.nonces == p.nonces + tx_nonces(txs),
        forall|n: u64| #[trigger] tx_nonces(txs).contains(n) ==> !parent.nonces.contains(n)
            && !p.nonces.contains(n),
        p.nonces.no_duplicates() ==> apply_all(parent, p, txs)->Ok_0.nonces.no_duplicates(),
    decreases txs.len(),
{
    if txs.len() > 0 {
        let p_next = apply_outcome(parent, p, txs[0])->Ok_0;
        assert(p_next.nonces == p.nonces.push(txs[0].content.nonce));
        lemma_apply_all_nonces(parent, p_next, txs.skip(1));
        assert(tx_nonces(txs) =~= seq![txs[0].content.nonce] + tx_nonces(txs.skip(1)));
        assert(p.nonces + tx_nonces(txs) =~= p_next.nonces + tx_nonces(txs.skip(1)));
        assert forall|n: u64| #[trigger] tx_nonces(txs).contains(n) implies !parent.nonces.contains(
            n,
        ) && !p.nonces.contains(n) by {
            let w = choose|w: int| 0 <= w < tx_nonces(txs).len() && tx_nonces(txs)[w] == n;
            if w > 0 {
                assert(tx_nonces(txs.skip(1))[w - 1] == n);
                assert(tx_nonces(txs.skip(1)).contains(n));
                assert(!p_next.nonces.contains(n));
                if p.nonces.contains(n) {
                    let v = choose|v: int| 0 <= v < p.nonces.len() && p.nonces[v] == n;
                    assert(p_next.nonces[v] == n);
                }
            }
        }
        if p.nonces.no_duplicates() {
            assert(p_next.nonces.no_duplicates()) by {
                assert forall|a: int, b: int|
                    0 <= a < p_next.nonces.len() && 0 <= b < p_next.nonces.len() && a != b implies
                    p_next.nonces[a] != p_next.nonces[b] by {
                    if a == p.nonces.len() as int {
                        assert(p.nonces.contains(p_next.nonces[b]));
                    } else if b == p.nonces.len() as int {
                        assert(p.nonces.contains(p_next.nonces[a]));
                    }
                }
            }
        }
    } else {
        assert(p.nonces + tx_nonces(txs) =~= p.nonces);
    }
}

/// Nonces that are all new to `acc`, and distinct, are appended as they are.
proof fn lemma_add_missing_all_new(acc: Seq<u64>, ns: Seq<u64>)
    requires
        ns.no_duplicates(),
        forall|i: int| 0 <= i < ns.len() ==> !acc.contains(#[trigger] ns[i]),
    ensures
        crate::ledger::add_missing_nonces(acc, ns) == acc + ns,
    decreases ns.len(),
{
    if ns.len() > 0 {
        let init = ns.drop_last();
        assert forall|a: int, b: int| 0 <= a < init.len() && 0 <= b < init.len() && a != b implies init[a] != init[b] by {
            assert(ns[a] != ns[b]);
        }
        assert forall|i: int| 0 <= i < init.len() implies !acc.contains(#[trigger] init[i]) by {
            assert(init[i] == ns[i]);
        }
        lemma_add_missing_all_new(acc, init);
        let x = ns.last();
        if (acc + init).contains(x) {
            let w = choose|w: int| 0 <= w < (acc + init).len() && (acc + init)[w] == x;
            if w < acc.len() {
                assert(acc[w] == x);
                assert(acc.contains(ns[ns.len() - 1]));
            } else {
                assert(init[w - acc.len()] == ns[w - acc.len()]);
                assert(ns[w - acc.len()] == ns[ns.len() - 1]);
            }
        }
        assert((acc + init).push(x) =~= acc + ns);
    } else {
        assert(acc + ns =~= acc);
    }
}

/// A payload that applies puts its nonces, which the parent had not spent, in front of the
/// parent's.
proof fn lemma_payload_nonces(txs: Seq<TransactionView>, parent: LedgerView)
    requires
        payload_outcome(txs, parent) is Ok,
        parent.nonces.no_duplicates(),
    ensures
        payload_outcome(txs, parent)->Ok_0.nonces == tx_nonces(txs) + parent.nonces,
        payload_outcome(txs, parent)->Ok_0.nonces.no_duplicates(),
{
    let e = empty_ledger();
    lemma_apply_all_nonces(parent, e, txs);
    let p = apply_all(parent, e, txs)->Ok_0;
    assert(e.nonces + tx_nonces(txs) =~= tx_nonces(txs));
    assert(p.nonces == tx_nonces(txs));
    assert forall|i: int| 0 <= i < parent.nonces.len() implies !p.nonces.contains(
        #[trigger] parent.nonces[i],
    ) by {
        if p.nonces.contains(parent.nonces[i]) {
            assert(tx_nonces(txs).contains(parent.nonces[i]));
        }
    }
    lemma_add_missing_all_new(p.nonces, parent.nonces);
    let all = tx_nonces(txs) + parent.nonces;
    assert(merged(p, parent).nonces == all);
    assert(e.nonces.no_duplicates());
    assert forall|a: int, b: int| 0 <= a < all.len() && 0 <= b < all.len() && a != b implies all[a]
        != all[b] by {
        let t = tx_nonces(txs).len() as int;
        if a < t && b >= t {
            assert(tx_nonces(txs).contains(all[a]));
            assert(parent.nonces.contains(all[b]));
        } else if b < t && a >= t {
            assert(tx_nonces(txs).contains(all[b]));
            assert(parent.nonces.contains(all[a]));
        } else if a >= t && b >= t {
            assert(all[a] == parent.nonces[a - t]);
            assert(all[b] == parent.nonces[b - t]);
        }
    }
}

proof fn lemma_prefix_nonces(m: MerkleView, c: int, j: int)
    requires
        tree_wf(m),
        0 <= c < m.chains.len(),
        0 <= j <= m.chains[c].index.len(),
    ensures
        replay(m.blocks, m.chains[c].index.take(j)).nonces == branch_nonces(
            m.blocks,
            m.chains[c].index.take(j),
        ),
        replay(m.blocks, m.chains[c].index.take(j)).nonces.no_duplicates(),
    decreases j,
{
    let idx = m.chains[c].index;
    assert(branch_wf(m.blocks, m.chains[c]));
    if j > 0 {
        lemma_prefix_nonces(m, c, j - 1);
        let t = idx.take(j);
        assert(t.drop_last() =~= idx.take(j - 1));
        assert(t.last() == idx[j - 1]);
        let prev = replay(m.blocks, idx.take(j - 1));
        let txs = m.blocks[idx[j - 1] as int].content.transactions;
        if j - 1 >= 1 {
            assert(links(m.blocks, idx, j - 1));
        } else {
            assert(idx[0] == 0);
            assert(txs.len() == 0);
            assert(apply_all(prev, empty_ledger(), txs) == Ok::<LedgerView, crate::error::Error>(
                empty_ledger(),
            ));
        }
        lemma_payload_nonces(txs, prev);
    } else {
        assert(idx.take(0) =~= Seq::<u32>::empty());
    }
}

/// No nonce is spent twice on a branch: the branch's ledger holds exactly the nonces of the
/// transactions of its blocks, newest block first, each once.
pub proof fn lemma_no_double_spend(m: MerkleView, c: int)
    requires
        tree_wf(m),
        0 <= c < m.chains.len(),
    ensures
        m.chains[c].ledger.nonces == branch_nonces(m.blocks, m.chains[c].index),
        m.chains[c].ledger.nonces.no_duplicates(),
{
    let idx = m.chains[c].index;
    assert(branch_wf(m.blocks, m.chains[c]));
    lemma_prefix_nonces(m, c, idx.len() as int);
    assert(idx.take(idx.len() as int) =~= idx);
}

} // verus!
