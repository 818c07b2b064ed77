use vstd::prelude::*;

use crate::block::{Block, BlockContent};
use crate::blockchain::BlockchainView;
use crate::error::Error;
use crate::ledger::{apply_outcome, empty_ledger, PartialLedger};
use crate::merkle::{add_outcome, Merkle, MerkleView};
use crate::num::Num;
use crate::time::Time;
use crate::transaction::{Transaction, TransactionView};
use crate::user::{is_coinbase_key, PublicUser};
use crate::writer::views;

verus! {

/// The main branch of a tree.
pub open spec fn main_branch(m: MerkleView) -> BlockchainView {
    m.chains[m.main as int]
}

/// The pending transactions whose nonces the main branch has not spent, in order.
pub open spec fn still_pending(m: MerkleView, pending: Seq<TransactionView>) -> Seq<TransactionView> {
    pending.filter(|t: TransactionView| !main_branch(m).ledger.nonces.contains(t.content.nonce))
}

/// `c` is the candidate block on top of the main branch of `m`: it follows the main tip by
/// index and hash, and carries a coinbase transfer of 1 to `miner` followed by the pending
/// transactions that the main branch has not spent.
pub open spec fn is_candidate(
    c: crate::block::BlockContentView,
    m: MerkleView,
    pending: Seq<TransactionView>,
    miner: Seq<u8>,
) -> bool {
    let tip = m.blocks[main_branch(m).index.last() as int];
    &&& c.index == tip.content.index + 1
    &&& c.prev_block_hash == tip.hash
    &&& c.transactions.len() >= 1
    &&& is_coinbase_key(c.transactions[0].content.from)
    &&& c.transactions[0].content.to == miner
    &&& c.transactions[0].content.value.value == 1
    &&& c.transactions.skip(1) == still_pending(m, pending)
}

/// The transactions a node has accepted but not yet seen in a block, checked together on top
/// of the main branch's ledger.
#[derive(Debug)]
pub struct NodeCache {
    pub pending_transactions: Vec<Transaction>,
    pub partial_ledger: PartialLedger,
}

impl NodeCache {
    pub fn new() -> (r: NodeCache)
        ensures
            r.pending_transactions@.len() == 0,
            r.partial_ledger@ == empty_ledger(),
    {
        NodeCache { pending_transactions: Vec::new(), partial_ledger: PartialLedger::empty() }
    }

    pub fn clear(&mut self)
        ensures
            final(self).pending_transactions@.len() == 0,
            final(self).partial_ledger@ == empty_ledger(),
    {
        self.pending_transactions = Vec::new();
        self.partial_ledger = PartialLedger::empty();
    }

    /// Admits a transaction when it applies on top of the main ledger and the transactions
    /// already pending; otherwise the cache is left as it was.
    pub fn push(&mut self, merkle: &Merkle, transaction: &Transaction) -> (r: Result<(), Error>)
        requires
            merkle.main < merkle@.chains.len(),
        ensures
            match apply_outcome(
                main_branch(merkle@).ledger,
                old(self).partial_ledger@,
                transaction@,
            ) {
                Ok(p) => r is Ok && final(self).partial_ledger@ == p
                    && final(self).pending_transactions@ == old(self).pending_transactions@.push(
                    *transaction,
                ),
                Err(e) => r == Err::<(), Error>(e) && final(self).partial_ledger@ == old(
                    self,
                ).partial_ledger@ && final(self).pending_transactions@ == old(
                    self,
                ).pending_transactions@,
            },
    {
        let ledger = &merkle.main().ledger;
        match self.partial_ledger.apply_transaction(ledger, transaction) {
            Ok(_) => {},
            Err(e) => return Err(e),
        }
        self.pending_transactions.push(*transaction);
        Ok(())
    }
}

impl BlockContent {
    /// The candidate block on top of the main branch: a coinbase transfer of 1 to
    /// `public_user`, then the pending transactions that the main branch has not spent.
    pub fn new_from_pending_transaction(
        pending_transactions: &Vec<Transaction>,
        merkle: &Merkle,
        public_user: &PublicUser,
    ) -> (r: BlockContent)
        requires
            merkle.wf(),
        ensures
            is_candidate(r@, merkle@, views(pending_transactions@), public_user@),
    {
        let ghost m = merkle@;
        let ghost keep = |t: TransactionView| !main_branch(m).ledger.nonces.contains(t.content.nonce);
        let ledger = &merkle.main().ledger;
        let mut block_transactions: Vec<Transaction> = Vec::new();
        block_transactions.push(Transaction::new_from_coinbase(public_user, &Num::from_u64(1)));
        let mut i: usize = 0;
        while i < pending_transactions.len()
            invariant
                i <= pending_transactions@.len(),
                m == merkle@,
                ledger@ == main_branch(m).ledger,
                keep == (|t: TransactionView| !main_branch(m).ledger.nonces.contains(t.content.nonce)),
                block_transactions@.len() >= 1,
                is_coinbase_key(block_transactions@[0]@.content.from),
                block_transactions@[0]@.content.to == public_user@,
                block_transactions@[0]@.content.value.value == 1,
                views(block_transactions@).skip(1) == views(pending_transactions@).take(
                    i as int,
                ).filter(keep),
            decreases pending_transactions@.len() - i,
        {
            let t = pending_transactions[i];
            proof {
                reveal(Seq::filter);
                let pv = views(pending_transactions@);
                assert(pv.take(i + 1).drop_last() =~= pv.take(i as int));
                assert(pv.take(i + 1).last() == t@);
            }
            if !ledger.contains(&t) {
                proof {
                    assert(views(block_transactions@.push(t)).skip(1) =~= views(
                        block_transactions@,
                    ).skip(1).push(t@));
                }
                block_transactions.push(t);
            }
            i = i + 1;
            assert(views(block_transactions@).skip(1) =~= views(pending_transactions@).take(
                i as int,
            ).filter(keep));
        }
        proof {
            assert(views(pending_transactions@).take(i as int) =~= views(pending_transactions@));
            assert(crate::merkle::branch_wf(m.blocks, main_branch(m)));
            crate::merkle::lemma_tip_index(m.blocks, main_branch(m));
            assert(main_branch(m).index.len() <= m.blocks.len());
        }
        let tip = merkle.main_tip();
        BlockContent {
            index: tip.content.index + 1,
            timestamp: Time::now(),
            prev_block_hash: tip.hash,
            transactions: block_transactions,
        }
    }
}

/// What a node does with a block, received or mined: the block is added to the tree, and on
/// success the candidate for the next block is built from the pending transactions, which
/// are then dropped. On an error the tree and the cache are left as they were.
pub fn on_new_block(
    merkle: &mut Merkle,
    cache: &mut NodeCache,
    block: Block,
    public_user: &PublicUser,
) -> (r: Result<BlockContent, Error>)
    requires
        old(merkle).wf(),
    ensures
        final(merkle).wf(),
        match add_outcome(old(merkle)@, block@) {
            Ok(m) => r matches Ok(c) && final(merkle)@ == m && is_candidate(
                c@,
                m,
                views(old(cache).pending_transactions@),
                public_user@,
            )
                && final(cache).pending_transactions@.len() == 0
                && final(cache).partial_ledger@ == empty_ledger(),
            Err(e) => r == Err::<BlockContent, Error>(e) && final(merkle)@ == old(merkle)@
                && final(cache).pending_transactions@ == old(cache).pending_transactions@
                && final(cache).partial_ledger@ == old(cache).partial_ledger@,
        },
{
    match merkle.add_block(block) {
        Ok(_) => {},
        Err(e) => return Err(e),
    }
    let content = BlockContent::new_from_pending_transaction(
        &cache.pending_transactions,
        merkle,
        public_user,
    );
    cache.clear();
    Ok(content)
}

} // verus!
