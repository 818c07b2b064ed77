use vstd::prelude::*;

use crate::block::{is_genesis_content, payload_outcome, zero_hash, Block, BlockView};
use crate::error::Error;
use crate::ledger::{empty_ledger, Ledger, LedgerView};
use crate::merkle::Merkle;
use crate::mining::{check_difficulty_spec, Miner};
use crate::reader::{all_fit, lemma_vec_round_trip, parse_vec, read_vec_u32, Reader, Readable};
use crate::sha256::Sha256Hash;
use crate::writer::{encode_vec, views, write_vec_u32, Writable};

verus! {

pub struct BlockchainView {
    pub index: Seq<u32>,
    pub ledger: LedgerView,
}

/// A branch: positions in the tree's block pool, genesis first, and the ledger they lead to.
#[derive(Debug)]
pub struct Blockchain {
    pub index: Vec<u32>,
    pub ledger: Ledger,
}

impl View for Blockchain {
    type V = BlockchainView;

    open spec fn view(&self) -> BlockchainView {
        BlockchainView { index: self.index@, ledger: self.ledger@ }
    }
}

/// The ledger that the blocks at positions `idx` lead to from an empty one, each block's
/// payload applied on the ledger before it (a block whose payload fails leaves it as it was).
pub open spec fn replay(blocks: Seq<BlockView>, idx: Seq<u32>) -> LedgerView
    decreases idx.len(),
{
    if idx.len() == 0 {
        empty_ledger()
    } else {
        let prev = replay(blocks, idx.drop_last());
        match payload_outcome(blocks[idx.last() as int].content.transactions, prev) {
            Ok(l) => l,
            Err(_) => prev,
        }
    }
}

/// Every position in `idx` is inside the pool.
pub open spec fn in_pool(blocks: Seq<BlockView>, idx: Seq<u32>) -> bool {
    forall|j: int| 0 <= j < idx.len() ==> #[trigger] idx[j] < blocks.len()
}

/// The outcome of walking the blocks `idx` after one with index `last_index` and hash
/// `last_hash`: each block must follow on by index, meet the difficulty and link to the hash
/// before it; the first failing check is reported.
pub open spec fn walk(
    blocks: Seq<BlockView>,
    idx: Seq<u32>,
    last_index: u32,
    last_hash: Sha256Hash,
) -> Result<(), Error>
    decreases idx.len(),
{
    if idx.len() == 0 {
        Ok(())
    } else {
        let b = blocks[idx[0] as int];
        if b.content.index as int != last_index + 1 {
            Err(Error::BlockIndexAreNotContiguous)
        } else if !check_difficulty_spec(b.hash, Merkle::DIFFICULTY) {
            Err(Error::BlockProofOfWorkIsNotDone)
        } else if b.content.prev_block_hash != last_hash {
            Err(Error::BlockPrevHashDoesNotMatch)
        } else {
            walk(blocks, idx.skip(1), (last_index + 1) as u32, b.hash)
        }
    }
}

/// The outcome of walking a branch: a genesis block at its head is skipped, and every block
/// after it is walked from index 0 and the zero hash.
pub open spec fn branch_walk(blocks: Seq<BlockView>, idx: Seq<u32>) -> Result<(), Error> {
    if idx.len() > 0 && is_genesis_content(blocks[idx[0] as int].content) {
        walk(blocks, idx.skip(1), 0, zero_hash())
    } else {
        walk(blocks, idx, 0, zero_hash())
    }
}

pub proof fn lemma_replay_push_pool(blocks: Seq<BlockView>, x: BlockView, idx: Seq<u32>)
    requires
        in_pool(blocks, idx),
    ensures
        replay(blocks.push(x), idx) == replay(blocks, idx),
    decreases idx.len(),
{
    if idx.len() > 0 {
        assert(idx.last() == idx[idx.len() - 1]);
        lemma_replay_push_pool(blocks, x, idx.drop_last());
    }
}

impl Blockchain {
    pub fn zero() -> (r: Blockchain)
        ensures
            r@.index.len() == 0,
            r@.ledger == empty_ledger(),
    {
        Blockchain { index: Vec::new(), ledger: Ledger::empty() }
    }

    pub fn new(index: Vec<u32>, ledger: Ledger) -> (r: Blockchain)
        ensures
            r@ == (BlockchainView { index: index@, ledger: ledger@ }),
    {
        Blockchain { index, ledger }
    }

    pub fn len(&self) -> (r: usize)
        ensures
            r == self@.index.len(),
    {
        self.index.len()
    }

    /// A copy of the branch.
    pub fn duplicate(&self) -> (r: Blockchain)
        ensures
            r@ == self@,
    {
        Blockchain { index: crate::ledger::copy_vec(&self.index), ledger: self.ledger.duplicate() }
    }

    /// Walks the branch from genesis, which is skipped at its head only: the first block whose
    /// index does not follow on, whose proof of work is missing or whose link to the previous
    /// hash is wrong is reported.
    pub fn verify(&self, blocks: &Vec<Block>) -> (r: Result<(), Error>)
        requires
            in_pool(views(blocks@), self@.index),
        ensures
            r == branch_walk(views(blocks@), self@.index),
    {
        let ghost vb = views(blocks@);
        let ghost idx = self@.index;
        let mut last_index: u32 = 0;
        let mut last_hash: Sha256Hash = Sha256Hash::zero();
        let mut i: usize = 0;
        assert(idx.skip(0) =~= idx);
        if self.index.len() > 0 && blocks[self.index[0] as usize].is_genesis() {
            i = 1;
        }
        while i < self.index.len()
            invariant
                i <= idx.len(),
                idx == self@.index,
                vb == views(blocks@),
                in_pool(vb, idx),
                branch_walk(vb, idx) == walk(vb, idx.skip(i as int), last_index, last_hash),
            decreases idx.len() - i,
        {
            let block = &blocks[self.index[i] as usize];
            proof {
                assert(idx.skip(i as int)[0] == idx[i as int]);
                assert(idx.skip(i as int).skip(1) =~= idx.skip(i + 1));
                assert(idx[i as int] < vb.len());
                assert(vb[idx[i as int] as int] == block@);
            }
            if last_index == u32::MAX || block.content.index != last_index + 1 {
                return Err(Error::BlockIndexAreNotContiguous);
            } else if !Miner::check_difficulty(&block.hash, Merkle::DIFFICULTY) {
                return Err(Error::BlockProofOfWorkIsNotDone);
            } else if block.content.prev_block_hash != last_hash {
                return Err(Error::BlockPrevHashDoesNotMatch);
            }
            last_index = last_index + 1;
            last_hash = block.hash;
            i = i + 1;
        }
        Ok(())
    }

    /// The block at the tip of the branch.
    pub fn last<'a>(&self, blocks: &'a Vec<Block>) -> (r: &'a Block)
        requires
            self@.index.len() > 0,
            in_pool(views(blocks@), self@.index),
        ensures
            r@ == views(blocks@)[self@.index.last() as int],
    {
        let k = self.index[self.index.len() - 1];
        &blocks[k as usize]
    }

    pub fn to_bytes(&self) -> (r: Vec<u8>)
        ensures
            r@ == Self::encode(self@),
    {
        let mut bytes: Vec<u8> = Vec::new();
        self.to_writer(&mut bytes);
        assert(bytes@ =~= Self::encode(self@));
        bytes
    }

    pub fn from_bytes(bytes: &Vec<u8>) -> (r: Result<Blockchain, Error>)
        ensures
            match Self::parse(bytes@) {
                Some((v, _)) => r matches Ok(b) && b@ == v,
                None => r matches Err(e) && crate::reader::codec_error(e),
            },
    {
        let mut reader = Reader::new(bytes.clone());
        Self::from_reader(&mut reader)
    }
}

impl Writable for Blockchain {
    open spec fn encode(v: BlockchainView) -> Seq<u8> {
        encode_vec::<u32>(v.index) + Ledger::encode(v.ledger)
    }

    fn to_writer(&self, writer: &mut Vec<u8>) {
        write_vec_u32(writer, &self.index);
        self.ledger.to_writer(writer);
        proof {
            assert(views(self.index@) =~= self.index@);
        }
        assert(writer@ =~= old(writer)@ + Self::encode(self@));
    }
}

impl Readable for Blockchain {
    open spec fn parse(s: Seq<u8>) -> Option<(BlockchainView, Seq<u8>)> {
        match parse_vec::<u32>(s) {
            Some((index, r1)) => match Ledger::parse(r1) {
                Some((ledger, r2)) => Some((BlockchainView { index, ledger }, r2)),
                None => None,
            },
            None => None,
        }
    }

    open spec fn fits(v: BlockchainView) -> bool {
        all_fit::<u32>(v.index) && Ledger::fits(v.ledger)
    }

    fn from_reader(reader: &mut Reader) -> (r: Result<Blockchain, Error>) {
        let mut index: Vec<u32> = Vec::new();
        if read_vec_u32(reader, &mut index).is_err() {
            return Err(Error::InvalidFormat);
        }
        let ledger = match Ledger::from_reader(reader) {
            Ok(l) => l,
            Err(_) => return Err(Error::InvalidFormat),
        };
        proof {
            assert(views(index@) =~= index@);
        }
        Ok(Blockchain { index, ledger })
    }

    proof fn lemma_round_trip(v: BlockchainView, rest: Seq<u8>) {
        let r1 = Ledger::encode(v.ledger) + rest;
        Ledger::lemma_round_trip(v.ledger, rest);
        lemma_vec_round_trip::<u32>(v.index, r1);
        assert(Self::encode(v) + rest =~= encode_vec::<u32>(v.index) + r1);
    }
}

} // verus!

verus! {

impl PartialEq for Blockchain {
    fn eq(&self, other: &Blockchain) -> (r: bool) {
        crate::ledger::same_u32s(&self.index, &other.index) && self.ledger.eq(&other.ledger)
    }
}

impl Eq for Blockchain {}

impl vstd::std_specs::cmp::PartialEqSpecImpl for Blockchain {
    open spec fn obeys_eq_spec() -> bool {
        true
    }

    open spec fn eq_spec(&self, other: &Blockchain) -> bool {
        self@ == other@
    }
}

} // verus!
