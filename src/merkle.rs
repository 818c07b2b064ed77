use vstd::prelude::*;

use crate::block::{block_check, genesis_block, payload_outcome, Block, BlockView};
use crate::blockchain::{
    in_pool, lemma_replay_push_pool, replay, Blockchain, BlockchainView,
};
use crate::error::Error;
use crate::ledger::{opt_index, Ledger};
use crate::reader::{
    all_fit, lemma_u32_round_trip, lemma_vec_round_trip, parse_u32, parse_vec, read_u32,
    read_vec_struct, Reader, Readable,
};
use crate::sha256::Sha256Hash;
use crate::writer::{be_u32, encode_vec, views, write_u32, write_vec_struct, Writable};

verus! {

pub struct MerkleView {
    pub blocks: Seq<BlockView>,
    pub chains: Seq<BlockchainView>,
    pub main: u32,
}

/// The tree of chains: a pool of every known valid block, the branches through it, and the
/// position of the main branch.
#[derive(Debug)]
pub struct Merkle {
    pub blocks: Vec<Block>,
    pub chains: Vec<Blockchain>,
    pub main: u32,
}

impl View for Merkle {
    type V = MerkleView;

    open spec fn view(&self) -> MerkleView {
        MerkleView { blocks: views(self.blocks@), chains: views(self.chains@), main: self.main }
    }
}

/// `i` is the first position below `n` where `p` holds.
pub open spec fn is_first_where(n: int, p: spec_fn(int) -> bool, i: int) -> bool {
    0 <= i < n && p(i) && forall|j: int| 0 <= j < i ==> !#[trigger] p(j)
}

/// The first position below `n` where `p` holds, if any.
pub open spec fn first_where(n: int, p: spec_fn(int) -> bool) -> Option<int> {
    if exists|i: int| is_first_where(n, p, i) {
        Some(choose|i: int| is_first_where(n, p, i))
    } else {
        None
    }
}

pub proof fn lemma_first_where(n: int, p: spec_fn(int) -> bool, i: int)
    requires
        is_first_where(n, p, i),
    ensures
        first_where(n, p) == Some(i),
{
    let k = choose|k: int| is_first_where(n, p, k);
    assert(is_first_where(n, p, k));
    if k < i {
        assert(!p(k));
    }
    if i < k {
        assert(!p(i));
    }
}

pub proof fn lemma_none_where(n: int, p: spec_fn(int) -> bool)
    requires
        forall|j: int| 0 <= j < n ==> !#[trigger] p(j),
    ensures
        first_where(n, p) is None,
{
    if exists|i: int| is_first_where(n, p, i) {
        let i = choose|i: int| is_first_where(n, p, i);
        assert(p(i));
    }
}

/// The tip of branch `c` has hash `h`.
pub open spec fn tip_is(m: MerkleView, h: Sha256Hash) -> spec_fn(int) -> bool {
    |c: int| m.blocks[m.chains[c].index.last() as int].hash == h
}

/// Block `k` of the pool has hash `h`.
pub open spec fn hash_is(blocks: Seq<BlockView>, h: Sha256Hash) -> spec_fn(int) -> bool {
    |k: int| blocks[k].hash == h
}

/// Branch `c` goes through pool position `k`.
pub open spec fn holds_block(chains: Seq<BlockchainView>, k: int) -> spec_fn(int) -> bool {
    |c: int| chains[c].index.contains(k as u32)
}

/// Offset `i` of the branch is pool position `k`.
pub open spec fn at_offset(idx: Seq<u32>, k: int) -> spec_fn(int) -> bool {
    |i: int| idx[i] == k as u32
}

/// Block `j` of the branch follows on from block `j - 1`: by index, by hash, and by a payload
/// that applies on the ledger before it.
pub open spec fn links(blocks: Seq<BlockView>, idx: Seq<u32>, j: int) -> bool {
    &&& blocks[idx[j] as int].content.index == j
    &&& blocks[idx[j] as int].content.prev_block_hash == blocks[idx[j - 1] as int].hash
    &&& payload_outcome(blocks[idx[j] as int].content.transactions, replay(blocks, idx.take(j))) is Ok
}

/// A branch from genesis through linked blocks of the pool, holding the ledger they lead to.
pub open spec fn branch_wf(blocks: Seq<BlockView>, b: BlockchainView) -> bool {
    &&& 1 <= b.index.len() <= blocks.len()
    &&& b.index[0] == 0
    &&& in_pool(blocks, b.index)
    &&& forall|j: int| 1 <= j < b.index.len() ==> #[trigger] links(blocks, b.index, j)
    &&& b.ledger == replay(blocks, b.index)
}

/// Block `k` of the pool passed its own checks.
pub open spec fn accepted(blocks: Seq<BlockView>, k: int) -> bool {
    block_check(blocks[k], Merkle::DIFFICULTY) is Ok
}

/// Pool position `k` lies on some branch.
pub open spec fn on_some_branch(m: MerkleView, k: int) -> bool {
    exists|c: int| 0 <= c < m.chains.len() && #[trigger] m.chains[c].index.contains(k as u32)
}

/// The invariant of the tree: genesis first in the pool, every other block accepted and on
/// some branch, every branch well formed, and the main branch among the longest.
pub open spec fn tree_wf(m: MerkleView) -> bool {
    &&& 1 <= m.blocks.len() <= u32::MAX
    &&& m.blocks[0] == genesis_block()
    &&& forall|k: int| 1 <= k < m.blocks.len() ==> #[trigger] accepted(m.blocks, k)
    &&& forall|k: int| 0 <= k < m.blocks.len() ==> #[trigger] on_some_branch(m, k)
    &&& 1 <= m.chains.len() <= m.blocks.len()
    &&& m.main < m.chains.len()
    &&& forall|c: int| 0 <= c < m.chains.len() ==> #[trigger] branch_wf(m.blocks, m.chains[c])
    &&& forall|c: int|
        0 <= c < m.chains.len() ==> #[trigger] m.chains[c].index.len() <= m.chains[m.main as int].index.len()
}

/// The branch made of the first `i + 1` blocks of `b`, with the ledger they lead to.
pub open spec fn prefix_branch(blocks: Seq<BlockView>, b: BlockchainView, i: int) -> BlockchainView {
    BlockchainView { index: b.index.take(i + 1), ledger: replay(blocks, b.index.take(i + 1)) }
}

/// The branch that a new block hangs from: the first branch whose tip it follows (`Some` of
/// that branch's position), or else a new branch up to the first pool block with the hash it
/// follows, cut from the first branch through that block (`None`).
pub open spec fn parent_branch(m: MerkleView, b: BlockView) -> Result<
    (BlockchainView, Option<int>),
    Error,
> {
    let h = b.content.prev_block_hash;
    match first_where(m.chains.len() as int, tip_is(m, h)) {
        Some(c) => Ok((m.chains[c], Some(c))),
        None => match first_where(m.blocks.len() as int, hash_is(m.blocks, h)) {
            None => Err(Error::PreviousBlockNotFound),
            Some(k) => match first_where(m.chains.len() as int, holds_block(m.chains, k)) {
                None => Err(Error::BlockExistButIsNotInAnyBranch),
                Some(c) => match first_where(
                    m.chains[c].index.len() as int,
                    at_offset(m.chains[c].index, k),
                ) {
                    Some(i) => Ok((prefix_branch(m.blocks, m.chains[c], i), None)),
                    None => Err(Error::BlockExistButIsNotInAnyBranch),
                },
            },
        },
    }
}

/// The tree after `b` is appended to the pool and to branch `pb` (stored at `slot`, or as a
/// new branch), with ledger `l`; the main branch moves only to a strictly longer branch.
pub open spec fn commit(
    m: MerkleView,
    b: BlockView,
    pb: BlockchainView,
    slot: Option<int>,
    l: crate::ledger::LedgerView,
) -> MerkleView {
    let nb = BlockchainView { index: pb.index.push(m.blocks.len() as u32), ledger: l };
    let ci = match slot {
        Some(c) => c,
        None => m.chains.len() as int,
    };
    MerkleView {
        blocks: m.blocks.push(b),
        chains: match slot {
            Some(c) => m.chains.update(c, nb),
            None => m.chains.push(nb),
        },
        main: if nb.index.len() > m.chains[m.main as int].index.len() {
            ci as u32
        } else {
            m.main
        },
    }
}

/// What adding block `b` to the tree gives, phase by phase: a block already held is refused;
/// the block must pass its own checks; it must hang from a branch; it must follow that
/// branch's tip by index and hash; its payload must apply on that branch's ledger; the pool
/// must have room for one more `u32` position.
pub open spec fn add_outcome(m: MerkleView, b: BlockView) -> Result<MerkleView, Error> {
    if m.blocks.contains(b) {
        Err(Error::BlockAlreadyExist)
    } else if block_check(b, Merkle::DIFFICULTY) is Err {
        Err(block_check(b, Merkle::DIFFICULTY)->Err_0)
    } else {
        match parent_branch(m, b) {
            Err(e) => Err(e),
            Ok((pb, slot)) => {
                let tip = m.blocks[pb.index.last() as int];
                if tip.content.index + 1 != b.content.index {
                    Err(Error::BlockIndexAreNotContiguous)
                } else if tip.hash != b.content.prev_block_hash {
                    Err(Error::BlockPrevHashDoesNotMatch)
                } else {
                    match payload_outcome(b.content.transactions, pb.ledger) {
                        Err(e) => Err(e),
                        Ok(l) => if m.blocks.len() >= u32::MAX {
                            Err(Error::BlockPoolIsFull)
                        } else {
                            Ok(commit(m, b, pb, slot, l))
                        },
                    }
                }
            },
        }
    }
}

pub proof fn lemma_in_pool_take(blocks: Seq<BlockView>, idx: Seq<u32>, j: int)
    requires
        in_pool(blocks, idx),
        0 <= j <= idx.len(),
    ensures
        in_pool(blocks, idx.take(j)),
{
    assert forall|i: int| 0 <= i < idx.take(j).len() implies #[trigger] idx.take(j)[i]
        < blocks.len() by {
        assert(idx.take(j)[i] == idx[i]);
    }
}

/// A well-formed branch stays well formed when the pool grows.
pub proof fn lemma_branch_push_pool(blocks: Seq<BlockView>, x: BlockView, b: BlockchainView)
    requires
        branch_wf(blocks, b),
    ensures
        branch_wf(blocks.push(x), b),
{
    let nb = blocks.push(x);
    lemma_replay_push_pool(blocks, x, b.index);
    assert forall|j: int| 1 <= j < b.index.len() implies #[trigger] links(nb, b.index, j) by {
        assert(links(blocks, b.index, j));
        lemma_in_pool_take(blocks, b.index, j);
        lemma_replay_push_pool(blocks, x, b.index.take(j));
        assert(b.index[j] < blocks.len());
        assert(b.index[j - 1] < blocks.len());
    }
    assert forall|i: int| 0 <= i < b.index.len() implies #[trigger] b.index[i] < nb.len() by {
        assert(b.index[i] < blocks.len());
    }
}

/// A prefix of a well-formed branch, with the ledger it leads to, is well formed.
pub proof fn lemma_branch_prefix(blocks: Seq<BlockView>, b: BlockchainView, i: int)
    requires
        branch_wf(blocks, b),
        0 <= i < b.index.len(),
    ensures
        branch_wf(blocks, prefix_branch(blocks, b, i)),
        prefix_branch(blocks, b, i).index.last() == b.index[i],
{
    let p = prefix_branch(blocks, b, i);
    lemma_in_pool_take(blocks, b.index, i + 1);
    assert forall|j: int| 1 <= j < p.index.len() implies #[trigger] links(blocks, p.index, j) by {
        assert(links(blocks, b.index, j));
        assert(p.index.take(j) =~= b.index.take(j));
    }
}

/// The block at the tip of a well-formed branch has the branch's last offset as its index.
pub proof fn lemma_tip_index(blocks: Seq<BlockView>, b: BlockchainView)
    requires
        branch_wf(blocks, b),
        blocks.len() >= 1,
        blocks[0] == genesis_block(),
    ensures
        blocks[b.index.last() as int].content.index == b.index.len() - 1,
{
    if b.index.len() > 1 {
        assert(links(blocks, b.index, b.index.len() - 1));
    }
}

/// Appending a block that follows the tip of a well-formed branch, with the ledger its
/// payload gives, keeps the branch well formed over the grown pool.
pub proof fn lemma_branch_extend(
    blocks: Seq<BlockView>,
    b: BlockchainView,
    x: BlockView,
    l: crate::ledger::LedgerView,
)
    requires
        branch_wf(blocks, b),
        blocks.len() < u32::MAX,
        x.content.index == b.index.len(),
        x.content.prev_block_hash == blocks[b.index.last() as int].hash,
        payload_outcome(x.content.transactions, b.ledger) == Ok::<
            crate::ledger::LedgerView,
            Error,
        >(l),
    ensures
        branch_wf(
            blocks.push(x),
            BlockchainView { index: b.index.push(blocks.len() as u32), ledger: l },
        ),
{
    let nbl = blocks.push(x);
    let n = blocks.len() as u32;
    let idx = b.index.push(n);
    lemma_branch_push_pool(blocks, x, b);
    lemma_replay_push_pool(blocks, x, b.index);
    assert(idx.drop_last() =~= b.index);
    assert forall|i: int| 0 <= i < idx.len() implies #[trigger] idx[i] < nbl.len() by {
        if i < b.index.len() {
            assert(idx[i] == b.index[i]);
        }
    }
    assert forall|j: int| 1 <= j < idx.len() implies #[trigger] links(nbl, idx, j) by {
        if j < b.index.len() {
            assert(links(nbl, b.index, j));
            assert(idx.take(j) =~= b.index.take(j));
            assert(idx[j] == b.index[j]);
            assert(idx[j - 1] == b.index[j - 1]);
        } else {
            assert(idx.take(j) =~= b.index);
            assert(idx[j - 1] == b.index.last());
        }
    }
}

/// Relates the tree's views after one more block on an existing branch.
pub proof fn lemma_commit_wf(
    m: MerkleView,
    b: BlockView,
    pb: BlockchainView,
    slot: Option<int>,
    l: crate::ledger::LedgerView,
)
    requires
        tree_wf(m),
        m.blocks.len() < u32::MAX,
        block_check(b, Merkle::DIFFICULTY) is Ok,
        branch_wf(m.blocks, pb),
        slot matches Some(c) ==> 0 <= c < m.chains.len() && m.chains[c] == pb,
        b.content.index == pb.index.len(),
        b.content.prev_block_hash == m.blocks[pb.index.last() as int].hash,
        payload_outcome(b.content.transactions, pb.ledger) == Ok::<
            crate::ledger::LedgerView,
            Error,
        >(l),
    ensures
        tree_wf(commit(m, b, pb, slot, l)),
{
    let m2 = commit(m, b, pb, slot, l);
    let nb = BlockchainView { index: pb.index.push(m.blocks.len() as u32), ledger: l };
    let ci = match slot {
        Some(c) => c,
        None => m.chains.len() as int,
    };
    lemma_branch_extend(m.blocks, pb, b, l);
    assert(m2.chains[ci] == nb);
    assert forall|c: int| 0 <= c < m2.chains.len() implies #[trigger] branch_wf(
        m2.blocks,
        m2.chains[c],
    ) by {
        if c != ci {
            assert(m2.chains[c] == m.chains[c]);
            assert(branch_wf(m.blocks, m.chains[c]));
            lemma_branch_push_pool(m.blocks, b, m.chains[c]);
        }
    }
    assert forall|k: int| 1 <= k < m2.blocks.len() implies #[trigger] accepted(m2.blocks, k) by {
        if k < m.blocks.len() {
            assert(accepted(m.blocks, k));
        }
    }
    let old_main_len = m.chains[m.main as int].index.len();
    assert forall|c: int| 0 <= c < m2.chains.len() implies #[trigger] m2.chains[c].index.len()
        <= m2.chains[m2.main as int].index.len() by {
        if c != ci {
            assert(m.chains[c].index.len() <= old_main_len);
        }
        if m2.main != ci {
            assert(m2.main == m.main);
            if slot is Some {
                assert(m.main != ci || nb.index.len() > old_main_len);
            }
        }
    }
    assert(m2.blocks[0] == m.blocks[0]);
    assert forall|k: int| 0 <= k < m2.blocks.len() implies #[trigger] on_some_branch(m2, k) by {
        if k == m.blocks.len() {
            assert(nb.index[nb.index.len() - 1] == k as u32);
            assert(m2.chains[ci].index.contains(k as u32));
        } else {
            assert(on_some_branch(m, k));
            let c = choose|c: int| 0 <= c < m.chains.len() && #[trigger] m.chains[c].index.contains(
                k as u32,
            );
            let w = choose|w: int| 0 <= w < m.chains[c].index.len() && m.chains[c].index[w] == k as u32;
            if c == ci {
                assert(nb.index[w] == k as u32);
                assert(m2.chains[c].index.contains(k as u32));
            } else {
                assert(m2.chains[c] == m.chains[c]);
                assert(m2.chains[c].index.contains(k as u32));
            }
        }
    }
}

/// The tree holding only genesis, on one branch with an empty ledger.
pub open spec fn genesis_tree() -> MerkleView {
    MerkleView {
        blocks: seq![genesis_block()],
        chains: seq![BlockchainView { index: seq![0u32], ledger: crate::ledger::empty_ledger() }],
        main: 0,
    }
}

/// The tree that offering the pool positions `1 .. k` of `blocks`, in order, to the genesis
/// tree gives: each block is added where `add_outcome` accepts it and left out otherwise.
pub open spec fn adopt_upto(blocks: Seq<BlockView>, k: int) -> MerkleView
    decreases k,
{
    if k <= 1 {
        genesis_tree()
    } else {
        let prev = adopt_upto(blocks, k - 1);
        match add_outcome(prev, blocks[k - 1]) {
            Ok(next) => next,
            Err(_) => prev,
        }
    }
}

/// The branch a block hangs from is well formed, and an existing one is stored at its slot.
pub proof fn lemma_parent_branch_wf(m: MerkleView, b: BlockView)
    requires
        tree_wf(m),
        parent_branch(m, b) is Ok,
    ensures
        branch_wf(m.blocks, parent_branch(m, b)->Ok_0.0),
        parent_branch(m, b)->Ok_0.1 matches Some(c) ==> 0 <= c < m.chains.len() && m.chains[c]
            == parent_branch(m, b)->Ok_0.0,
{
    let h = b.content.prev_block_hash;
    match first_where(m.chains.len() as int, tip_is(m, h)) {
        Some(c) => {
            assert(is_first_where(m.chains.len() as int, tip_is(m, h), c)) by {
                let w = choose|w: int| is_first_where(m.chains.len() as int, tip_is(m, h), w);
                assert(is_first_where(m.chains.len() as int, tip_is(m, h), w));
            }
            assert(branch_wf(m.blocks, m.chains[c]));
        },
        None => {
            let k = first_where(m.blocks.len() as int, hash_is(m.blocks, h))->0;
            let c = first_where(m.chains.len() as int, holds_block(m.chains, k))->0;
            let i = first_where(m.chains[c].index.len() as int, at_offset(m.chains[c].index, k))->0;
            assert(is_first_where(m.chains.len() as int, holds_block(m.chains, k), c)) by {
                let w = choose|w: int| is_first_where(m.chains.len() as int, holds_block(m.chains, k), w);
                assert(is_first_where(m.chains.len() as int, holds_block(m.chains, k), w));
            }
            assert(is_first_where(m.chains[c].index.len() as int, at_offset(m.chains[c].index, k), i)) by {
                let w = choose|w: int| is_first_where(m.chains[c].index.len() as int, at_offset(m.chains[c].index, k), w);
                assert(is_first_where(m.chains[c].index.len() as int, at_offset(m.chains[c].index, k), w));
            }
            assert(branch_wf(m.blocks, m.chains[c]));
            lemma_branch_prefix(m.blocks, m.chains[c], i);
        },
    }
}

/// Adding a block to a well-formed tree, when it succeeds, gives a well-formed tree: hashes
/// stay stable, branches stay consistent, the main branch stays among the longest.
pub proof fn lemma_add_keeps_wf(m: MerkleView, b: BlockView)
    requires
        tree_wf(m),
    ensures
        add_outcome(m, b) matches Ok(m2) ==> tree_wf(m2),
{
    if add_outcome(m, b) is Ok {
        let (pb, slot) = parent_branch(m, b)->Ok_0;
        lemma_parent_branch_wf(m, b);
        lemma_tip_index(m.blocks, pb);
        let l = payload_outcome(b.content.transactions, pb.ledger)->Ok_0;
        lemma_commit_wf(m, b, pb, slot, l);
    }
}

/// Whether block `b` is among `blocks`.
fn holds(blocks: &Vec<Block>, b: &Block) -> (r: bool)
    ensures
        r == views(blocks@).contains(b@),
{
    let ghost vb = views(blocks@);
    let mut i: usize = 0;
    while i < blocks.len()
        invariant
            i <= blocks@.len(),
            vb == views(blocks@),
            forall|j: int| 0 <= j < i ==> vb[j] != b@,
        decreases blocks@.len() - i,
    {
        if blocks[i].eq(b) {
            assert(vb[i as int] == b@);
            return true;
        }
        i = i + 1;
    }
    false
}

impl Merkle {
    /// The proof-of-work mask that accepted blocks meet.
    pub const DIFFICULTY: u128 = 0xF8;

    /// The well-formedness invariant.
    pub open spec fn wf(&self) -> bool {
        tree_wf(self@)
    }

    /// An empty tree: no blocks, no branches.
    pub fn zero() -> (r: Merkle)
        ensures
            r@.blocks.len() == 0,
            r@.chains.len() == 0,
            r.main == 0,
    {
        Merkle { blocks: Vec::new(), chains: Vec::new(), main: 0 }
    }

    /// The tree holding only the genesis block, on one branch with an empty ledger.
    pub fn new_from_nothingness() -> (r: Merkle)
        ensures
            r.wf(),
            r@.blocks == seq![genesis_block()],
            r@.chains == seq![
                BlockchainView { index: seq![0u32], ledger: crate::ledger::empty_ledger() },
            ],
            r.main == 0,
    {
        let mut blocks: Vec<Block> = Vec::new();
        blocks.push(Block::new_genesis());
        let mut index: Vec<u32> = Vec::new();
        index.push(0);
        let mut chains: Vec<Blockchain> = Vec::new();
        chains.push(Blockchain::new(index, Ledger::empty()));
        let r = Merkle { blocks, chains, main: 0 };
        proof {
            let vb = r@.blocks;
            assert(vb =~= seq![genesis_block()]);
            assert(r@.chains =~= seq![
                BlockchainView { index: seq![0u32], ledger: crate::ledger::empty_ledger() },
            ]);
            let idx = seq![0u32];
            assert(idx.drop_last() =~= Seq::<u32>::empty());
            let e = crate::ledger::empty_ledger();
            let mg = crate::ledger::merged(e, e);
            assert(mg.users =~= e.users);
            assert(mg.nonces =~= e.nonces);
            assert(replay(vb, Seq::<u32>::empty()) == e);
            assert(vb[0].content.transactions.len() == 0);
            assert(crate::block::apply_all(e, e, vb[0].content.transactions) == Ok::<
                crate::ledger::LedgerView,
                Error,
            >(e));
            assert(replay(vb, idx) == mg);
            assert(branch_wf(vb, r@.chains[0]));
            assert(r@.chains[0].index[0] == (0int) as u32);
            assert(r@.chains[0].index.contains((0int) as u32));
            assert(on_some_branch(r@, 0));
        }
        r
    }

    /// The main branch.
    pub fn main(&self) -> (r: &Blockchain)
        requires
            self.main < self@.chains.len(),
        ensures
            r@ == self@.chains[self.main as int],
    {
        &self.chains[self.main as usize]
    }

    /// The tip of the main branch.
    pub fn main_tip(&self) -> (r: &Block)
        requires
            self.wf(),
        ensures
            r@ == self@.blocks[self@.chains[self.main as int].index.last() as int],
    {
        proof {
            assert(branch_wf(self@.blocks, self@.chains[self.main as int]));
        }
        self.main().last(&self.blocks)
    }

    fn contains(&self, block: &Block) -> (r: bool)
        ensures
            r == self@.blocks.contains(block@),
    {
        holds(&self.blocks, block)
    }

    fn find_block_by_hash(&self, hash: Sha256Hash) -> (r: Result<usize, Error>)
        ensures
            match first_where(self@.blocks.len() as int, hash_is(self@.blocks, hash)) {
                Some(k) => r == Ok::<usize, Error>(k as usize),
                None => r == Err::<usize, Error>(Error::NotFound),
            },
    {
        let ghost m = self@;
        let mut i: usize = 0;
        while i < self.blocks.len()
            invariant
                i <= m.blocks.len(),
                m == self@,
                forall|j: int| 0 <= j < i ==> !#[trigger] hash_is(m.blocks, hash)(j),
            decreases m.blocks.len() - i,
        {
            if self.blocks[i].hash == hash {
                proof {
                    assert(hash_is(m.blocks, hash)(i as int));
                    lemma_first_where(m.blocks.len() as int, hash_is(m.blocks, hash), i as int);
                }
                return Ok(i);
            }
            i = i + 1;
        }
        proof {
            lemma_none_where(m.blocks.len() as int, hash_is(m.blocks, hash));
        }
        Err(Error::NotFound)
    }

    fn find_or_create_blockchain(&self, block: &Block) -> (r: Result<
        (Blockchain, Option<usize>),
        Error,
    >)
        requires
            self.wf(),
        ensures
            match parent_branch(self@, block@) {
                Ok((pb, slot)) => r matches Ok((ch, s)) && ch@ == pb && opt_index(s) == slot,
                Err(e) => r == Err::<(Blockchain, Option<usize>), Error>(e),
            },
    {
        let ghost m = self@;
        let h = block.content.prev_block_hash;
        let mut c: usize = 0;
        while c < self.chains.len()
            invariant
                c <= m.chains.len(),
                m == self@,
                tree_wf(m),
                h == block@.content.prev_block_hash,
                forall|j: int| 0 <= j < c ==> !#[trigger] tip_is(m, h)(j),
            decreases m.chains.len() - c,
        {
            proof {
                assert(branch_wf(m.blocks, m.chains[c as int]));
            }
            if self.chains[c].last(&self.blocks).hash == h {
                proof {
                    assert(tip_is(m, h)(c as int));
                    lemma_first_where(m.chains.len() as int, tip_is(m, h), c as int);
                }
                return Ok((self.chains[c].duplicate(), Some(c)));
            }
            c = c + 1;
        }
        proof {
            lemma_none_where(m.chains.len() as int, tip_is(m, h));
        }
        let k = match self.find_block_by_hash(h) {
            Ok(k) => k,
            Err(_) => return Err(Error::PreviousBlockNotFound),
        };
        let ghost kk = k as int;
        proof {
            assert(is_first_where(m.blocks.len() as int, hash_is(m.blocks, h), kk)) by {
                let w = choose|i: int| is_first_where(m.blocks.len() as int, hash_is(m.blocks, h), i);
                assert(is_first_where(m.blocks.len() as int, hash_is(m.blocks, h), w));
            }
        }
        let mut c: usize = 0;
        while c < self.chains.len()
            invariant
                c <= m.chains.len(),
                m == self@,
                tree_wf(m),
                kk == k,
                k < m.blocks.len(),
                h == block@.content.prev_block_hash,
                first_where(m.chains.len() as int, tip_is(m, h)) is None,
                first_where(m.blocks.len() as int, hash_is(m.blocks, h)) == Some(kk),
                forall|j: int| 0 <= j < c ==> !#[trigger] holds_block(m.chains, kk)(j),
            decreases m.chains.len() - c,
        {
            let chain = &self.chains[c];
            let ghost idx = m.chains[c as int].index;
            let mut i: usize = 0;
            while i < chain.index.len()
                invariant
                    i <= idx.len(),
                    idx == chain@.index,
                    chain@ == m.chains[c as int],
                    m == self@,
                    tree_wf(m),
                    c < m.chains.len(),
                    kk == k,
                    k < m.blocks.len(),
                    h == block@.content.prev_block_hash,
                    first_where(m.chains.len() as int, tip_is(m, h)) is None,
                    first_where(m.blocks.len() as int, hash_is(m.blocks, h)) == Some(kk),
                    forall|j: int| 0 <= j < c ==> !#[trigger] holds_block(m.chains, kk)(j),
                    forall|j: int| 0 <= j < i ==> !#[trigger] at_offset(idx, kk)(j),
                decreases idx.len() - i,
            {
                if chain.index[i] as usize == k {
                    proof {
                        assert(at_offset(idx, kk)(i as int));
                        assert(idx.contains(kk as u32)) by {
                            assert(idx[i as int] == kk as u32);
                        }
                        assert(holds_block(m.chains, kk)(c as int));
                        lemma_first_where(m.chains.len() as int, holds_block(m.chains, kk), c as int);
                        lemma_first_where(idx.len() as int, at_offset(idx, kk), i as int);
                        assert(branch_wf(m.blocks, m.chains[c as int]));
                    }
                    let mut new_chain: Vec<u32> = Vec::new();
                    let n = chain.index.len();
                    let mut t: usize = 0;
                    while t <= i
                        invariant
                            t <= i + 1,
                            i < idx.len(),
                            n == idx.len(),
                            idx == chain@.index,
                            new_chain@ == idx.take(t as int),
                        decreases i + 1 - t,
                    {
                        new_chain.push(chain.index[t]);
                        t = t + 1;
                        assert(new_chain@ =~= idx.take(t as int));
                    }
                    proof {
                        lemma_in_pool_take(m.blocks, idx, i + 1);
                    }
                    let new_ledger = Ledger::new_unsafe(&new_chain, &self.blocks);
                    return Ok((Blockchain::new(new_chain, new_ledger), None));
                }
                i = i + 1;
            }
            proof {
                assert(!idx.contains(kk as u32)) by {
                    if idx.contains(kk as u32) {
                        let w = choose|w: int| 0 <= w < idx.len() && idx[w] == kk as u32;
                        assert(at_offset(idx, kk)(w));
                    }
                }
            }
            c = c + 1;
        }
        proof {
            lemma_none_where(m.chains.len() as int, holds_block(m.chains, kk));
        }
        Err(Error::BlockExistButIsNotInAnyBranch)
    }

    /// Adds a block: it is validated against the branch it hangs from, appended to the pool
    /// and to that branch (or to a new branch forked from it), and the main branch moves to
    /// it if it became strictly the longest. On an error the tree is left as it was.
    #[verifier::rlimit(50)]
    pub fn add_block(&mut self, block: Block) -> (r: Result<(), Error>)
        requires
            old(self).wf(),
        ensures
            final(self).wf(),
            match add_outcome(old(self)@, block@) {
                Ok(m) => r is Ok && final(self)@ == m,
                Err(e) => r == Err::<(), Error>(e) && final(self)@ == old(self)@,
            },
    {
        let ghost m = self@;
        if self.contains(&block) {
            return Err(Error::BlockAlreadyExist);
        }
        match block.verify(Merkle::DIFFICULTY) {
            Ok(_) => {},
            Err(e) => return Err(e),
        }
        let (mut blockchain, slot) = match self.find_or_create_blockchain(&block) {
            Ok(found) => found,
            Err(e) => return Err(e),
        };
        let ghost pb = blockchain@;
        proof {
            lemma_parent_branch_wf(m, block@);
            lemma_tip_index(m.blocks, pb);
        }
        let last = blockchain.last(&self.blocks);
        if last.content.index as u64 + 1 != block.content.index as u64 {
            return Err(Error::BlockIndexAreNotContiguous);
        }
        if last.hash != block.content.prev_block_hash {
            return Err(Error::BlockPrevHashDoesNotMatch);
        }
        let new_ledger = match block.verify_payload(&blockchain.ledger) {
            Ok(l) => l,
            Err(e) => return Err(e),
        };
        if self.blocks.len() >= u32::MAX as usize {
            return Err(Error::BlockPoolIsFull);
        }
        let ghost l = new_ledger@;
        let ghost bv = block@;
        proof {
            lemma_commit_wf(m, bv, pb, opt_index(slot), l);
        }
        self.blocks.push(block);
        let block_index = (self.blocks.len() - 1) as u32;
        blockchain.index.push(block_index);
        blockchain.ledger = new_ledger;
        let new_len = blockchain.len();
        let chain_index = match slot {
            Some(i) => {
                self.chains[i] = blockchain;
                i
            },
            None => {
                self.chains.push(blockchain);
                self.chains.len() - 1
            },
        };
        if new_len > self.chains[self.main as usize].len() || (chain_index == self.main as usize) {
            self.main = chain_index as u32;
        }
        proof {
            let m2 = commit(m, bv, pb, opt_index(slot), l);
            assert(self@.blocks =~= m2.blocks);
            assert(self@.chains =~= m2.chains);
        }
        Ok(())
    }

    /// A well-formed tree built from the blocks of a tree received from elsewhere, which may
    /// break the invariant: its pool after genesis is offered block by block, in order, to a
    /// fresh tree, and the blocks that do not apply are left out.
    pub fn adopt(snapshot: &Merkle) -> (r: Merkle)
        ensures
            r.wf(),
            r@ == adopt_upto(snapshot@.blocks, snapshot@.blocks.len() as int),
    {
        let ghost vb = snapshot@.blocks;
        let mut tree = Merkle::new_from_nothingness();
        assert(tree@ == genesis_tree());
        let mut k: usize = 1;
        while k < snapshot.blocks.len()
            invariant
                tree.wf(),
                vb == snapshot@.blocks,
                1 <= k,
                k <= vb.len() || k == 1,
                tree@ == adopt_upto(vb, k as int),
            decreases vb.len() - k,
        {
            let _ = tree.add_block(snapshot.blocks[k].duplicate());
            k = k + 1;
        }
        tree
    }

    pub fn to_bytes(&self) -> (r: Vec<u8>)
        ensures
            r@ == Self::encode(self@),
    {
        let mut bytes: Vec<u8> = Vec::new();
        self.to_writer(&mut bytes);
        assert(bytes@ =~= Self::encode(self@));
        bytes
    }

    pub fn from_bytes(bytes: &Vec<u8>) -> (r: Result<Merkle, Error>)
        ensures
            match Self::parse(bytes@) {
                Some((v, _)) => r matches Ok(t) && t@ == v,
                None => r matches Err(e) && crate::reader::codec_error(e),
            },
    {
        let mut reader = Reader::new(bytes.clone());
        Self::from_reader(&mut reader)
    }
}

impl Writable for Merkle {
    open spec fn encode(v: MerkleView) -> Seq<u8> {
        encode_vec::<Block>(v.blocks) + encode_vec::<Blockchain>(v.chains) + be_u32(v.main)
    }

    fn to_writer(&self, writer: &mut Vec<u8>) {
        write_vec_struct(writer, &self.blocks);
        write_vec_struct(writer, &self.chains);
        write_u32(writer, self.main);
        assert(writer@ =~= old(writer)@ + Self::encode(self@));
    }
}

impl Readable for Merkle {
    open spec fn parse(s: Seq<u8>) -> Option<(MerkleView, Seq<u8>)> {
        match parse_vec::<Block>(s) {
            Some((blocks, r1)) => match parse_vec::<Blockchain>(r1) {
                Some((chains, r2)) => match parse_u32(r2) {
                    Some((main, r3)) => Some((MerkleView { blocks, chains, main }, r3)),
                    None => None,
                },
                None => None,
            },
            None => None,
        }
    }

    open spec fn fits(v: MerkleView) -> bool {
        all_fit::<Block>(v.blocks) && all_fit::<Blockchain>(v.chains)
    }

    fn from_reader(reader: &mut Reader) -> (r: Result<Merkle, Error>) {
        let mut blocks: Vec<Block> = Vec::new();
        if read_vec_struct(reader, &mut blocks).is_err() {
            return Err(Error::InvalidFormat);
        }
        let mut chains: Vec<Blockchain> = Vec::new();
        if read_vec_struct(reader, &mut chains).is_err() {
            return Err(Error::InvalidFormat);
        }
        let mut main: u32 = 0;
        if read_u32(reader, &mut main).is_err() {
            return Err(Error::InvalidFormat);
        }
        Ok(Merkle { blocks, chains, main })
    }

    proof fn lemma_round_trip(v: MerkleView, rest: Seq<u8>) {
        let r2 = be_u32(v.main) + rest;
        let r1 = encode_vec::<Blockchain>(v.chains) + r2;
        lemma_u32_round_trip(v.main, rest);
        lemma_vec_round_trip::<Blockchain>(v.chains, r2);
        lemma_vec_round_trip::<Block>(v.blocks, r1);
        assert(Self::encode(v) + rest =~= encode_vec::<Block>(v.blocks) + r1);
    }
}

} // verus!

verus! {

/// Whether two block pools are equal, block by block.
fn same_blocks(a: &Vec<Block>, b: &Vec<Block>) -> (r: bool)
    ensures
        r == (views(a@) == views(b@)),
{
    if a.len() != b.len() {
        assert(views(a@).len() != views(b@).len());
        return false;
    }
    let mut i: usize = 0;
    while i < a.len()
        invariant
            i <= a@.len(),
            a@.len() == b@.len(),
            forall|j: int| 0 <= j < i ==> a@[j]@ == b@[j]@,
        decreases a@.len() - i,
    {
        if !a[i].eq(&b[i]) {
            assert(views(a@)[i as int] != views(b@)[i as int]);
            return false;
        }
        i = i + 1;
    }
    assert(views(a@) =~= views(b@));
    true
}

/// Whether two lists of branches are equal, branch by branch.
fn same_chains(a: &Vec<Blockchain>, b: &Vec<Blockchain>) -> (r: bool)
    ensures
        r == (views(a@) == views(b@)),
{
    if a.len() != b.len() {
        assert(views(a@).len() != views(b@).len());
        return false;
    }
    let mut i: usize = 0;
    while i < a.len()
        invariant
            i <= a@.len(),
            a@.len() == b@.len(),
            forall|j: int| 0 <= j < i ==> a@[j]@ == b@[j]@,
        decreases a@.len() - i,
    {
        if !a[i].eq(&b[i]) {
            assert(views(a@)[i as int] != views(b@)[i as int]);
            return false;
        }
        i = i + 1;
    }
    assert(views(a@) =~= views(b@));
    true
}

impl PartialEq for Merkle {
    fn eq(&self, other: &Merkle) -> (r: bool) {
        self.main == other.main && same_blocks(&self.blocks, &other.blocks) && same_chains(
            &self.chains,
            &other.chains,
        )
    }
}

impl Eq for Merkle {}

impl vstd::std_specs::cmp::PartialEqSpecImpl for Merkle {
    open spec fn obeys_eq_spec() -> bool {
        true
    }

    open spec fn eq_spec(&self, other: &Merkle) -> bool {
        self@ == other@
    }
}

} // verus!
