use vstd::prelude::*;

use crate::error::Error;
use crate::ledger::{apply_outcome, empty_ledger, merged, Ledger, LedgerView, PartialLedger};
use crate::mining::{check_difficulty_spec, Miner};
use crate::reader::{lemma_vec_round_trip, parse_u128, parse_u32, read_u128, read_u32, read_vec_struct, Reader, Readable};
use crate::sha256::{spec_sha256, Sha256Hash};
use crate::time::Time;
use crate::transaction::{Transaction, TransactionView};
use crate::writer::{be_u128, be_u32, encode_vec, views, write_u128, write_u32, write_vec_struct, Writable};

verus! {

pub struct BlockContentView {
    pub index: u32,
    pub timestamp: Time,
    pub prev_block_hash: Sha256Hash,
    pub transactions: Seq<TransactionView>,
}

pub struct BlockView {
    pub content: BlockContentView,
    pub proof_of_work: u128,
    pub hash: Sha256Hash,
}

/// The header and payload of a block.
#[derive(Debug, Clone)]
pub struct BlockContent {
    pub index: u32,
    pub timestamp: Time,
    pub prev_block_hash: Sha256Hash,
    pub transactions: Vec<Transaction>,
}

/// A block with its proof of work and the hash that the proof yields.
#[derive(Debug, Clone)]
pub struct Block {
    pub content: BlockContent,
    pub proof_of_work: u128,
    pub hash: Sha256Hash,
}

impl View for BlockContent {
    type V = BlockContentView;

    open spec fn view(&self) -> BlockContentView {
        BlockContentView {
            index: self.index,
            timestamp: self.timestamp,
            prev_block_hash: self.prev_block_hash,
            transactions: views(self.transactions@),
        }
    }
}

impl View for Block {
    type V = BlockView;

    open spec fn view(&self) -> BlockView {
        BlockView { content: self.content@, proof_of_work: self.proof_of_work, hash: self.hash }
    }
}

pub open spec fn zero_hash() -> Sha256Hash {
    Sha256Hash { hi: 0, lo: 0 }
}

pub open spec fn zero_time() -> Time {
    Time { millis: 0 }
}

/// The genesis block: index 0, no transactions, zero hashes, time and proof.
pub open spec fn genesis_block() -> BlockView {
    BlockView {
        content: BlockContentView {
            index: 0,
            timestamp: zero_time(),
            prev_block_hash: zero_hash(),
            transactions: seq![],
        },
        proof_of_work: 0,
        hash: zero_hash(),
    }
}

/// The content's marks of the genesis block.
pub open spec fn is_genesis_content(c: BlockContentView) -> bool {
    c.index == 0 && c.transactions.len() == 0 && c.prev_block_hash == zero_hash() && c.timestamp
        == zero_time()
}

/// The hash of a block: SHA-256 over the content's bytes and the big-endian proof of work.
pub open spec fn block_hash(content: BlockContentView, proof_of_work: u128) -> Sha256Hash {
    spec_sha256(BlockContent::encode(content) + be_u128(proof_of_work))
}

/// The outcome of checking a block on its own.
pub open spec fn block_check(b: BlockView, difficulty: u128) -> Result<(), Error> {
    if is_genesis_content(b.content) {
        Err(Error::VerifyingGenesisBlock)
    } else if b.content.transactions.len() == 0 {
        Err(Error::BlockContainsNoTransaction)
    } else if !check_difficulty_spec(b.hash, difficulty) {
        Err(Error::BlockProofOfWorkIsNotDone)
    } else if b.hash != block_hash(b.content, b.proof_of_work) {
        Err(Error::BlockHashIsInvalid)
    } else {
        Ok(())
    }
}

/// Applies the transactions in order on top of the partial ledger `p`; the first error stops.
pub open spec fn apply_all(parent: LedgerView, p: LedgerView, txs: Seq<TransactionView>) -> Result<
    LedgerView,
    Error,
>
    decreases txs.len(),
{
    if txs.len() == 0 {
        Ok(p)
    } else {
        match apply_outcome(parent, p, txs[0]) {
            Ok(p_next) => apply_all(parent, p_next, txs.skip(1)),
            Err(e) => Err(e),
        }
    }
}

/// The ledger after a block's transactions, or the first error among them.
pub open spec fn payload_outcome(txs: Seq<TransactionView>, parent: LedgerView) -> Result<
    LedgerView,
    Error,
> {
    match apply_all(parent, empty_ledger(), txs) {
        Ok(p) => Ok(merged(p, parent)),
        Err(e) => Err(e),
    }
}

impl Block {
    pub fn zero() -> (r: Block)
        ensures
            r@ == genesis_block(),
    {
        Block::new_genesis()
    }

    pub fn new_genesis() -> (r: Block)
        ensures
            r@ == genesis_block(),
    {
        let r = Block {
            content: BlockContent::zero(),
            proof_of_work: 0,
            hash: Sha256Hash::zero(),
        };
        assert(r@.content.transactions =~= Seq::<TransactionView>::empty());
        r
    }

    pub fn is_genesis(&self) -> (r: bool)
        ensures
            r == is_genesis_content(self@.content),
    {
        self.content.index == 0 && self.content.transactions.len() == 0
            && self.content.prev_block_hash == Sha256Hash::zero() && self.content.timestamp
            == Time::zero()
    }

    /// An unmined block: zero proof of work and zero hash.
    pub fn new(
        index: u32,
        timestamp: Time,
        prev_block_hash: Sha256Hash,
        transactions: Vec<Transaction>,
    ) -> (r: Block)
        ensures
            r.content.index == index,
            r.content.timestamp == timestamp,
            r.content.prev_block_hash == prev_block_hash,
            r.content.transactions@ == transactions@,
            r.proof_of_work == 0,
            r.hash == zero_hash(),
    {
        Block {
            content: BlockContent { index, timestamp, prev_block_hash, transactions },
            hash: Sha256Hash::zero(),
            proof_of_work: 0,
        }
    }

    pub fn new_mined(block_content: BlockContent, proof_of_work: u128, hash: Sha256Hash) -> (r:
        Block)
        ensures
            r@ == (BlockView { content: block_content@, proof_of_work, hash }),
    {
        Block { content: block_content, hash, proof_of_work }
    }

    /// A copy of the block.
    pub fn duplicate(&self) -> (r: Block)
        ensures
            r@ == self@,
    {
        Block {
            content: BlockContent {
                index: self.content.index,
                timestamp: self.content.timestamp,
                prev_block_hash: self.content.prev_block_hash,
                transactions: crate::ledger::copy_vec(&self.content.transactions),
            },
            proof_of_work: self.proof_of_work,
            hash: self.hash,
        }
    }

    /// Checks the block on its own: not genesis, not empty, proof of work done, hash right.
    pub fn verify(&self, difficulty: u128) -> (r: Result<(), Error>)
        ensures
            r == block_check(self@, difficulty),
    {
        if self.is_genesis() {
            return Err(Error::VerifyingGenesisBlock);
        }
        if self.content.transactions.len() == 0 {
            return Err(Error::BlockContainsNoTransaction);
        }
        if !Miner::check_difficulty(&self.hash, difficulty) {
            return Err(Error::BlockProofOfWorkIsNotDone);
        }
        if self.hash != self.hash() {
            return Err(Error::BlockHashIsInvalid);
        }
        Ok(())
    }

    /// The ledger after this block's transactions on top of `ledger`.
    pub fn verify_payload(&self, ledger: &Ledger) -> (r: Result<Ledger, Error>)
        ensures
            match payload_outcome(self@.content.transactions, ledger@) {
                Ok(l) => r matches Ok(x) && x@ == l,
                Err(e) => r matches Err(x) && x == e,
            },
    {
        let mut partial_ledger = PartialLedger::empty();
        let ghost txs = self@.content.transactions;
        let ghost whole = apply_all(ledger@, empty_ledger(), txs);
        let mut i: usize = 0;
        assert(txs.skip(0) =~= txs);
        while i < self.content.transactions.len()
            invariant
                i <= txs.len(),
                txs == self@.content.transactions,
                whole == apply_all(ledger@, empty_ledger(), txs),
                whole == apply_all(ledger@, partial_ledger@, txs.skip(i as int)),
            decreases txs.len() - i,
        {
            proof {
                assert(txs.skip(i as int).skip(1) =~= txs.skip(i + 1));
                assert(txs.skip(i as int)[0] == self.content.transactions@[i as int]@);
            }
            match partial_ledger.apply_transaction(ledger, &self.content.transactions[i]) {
                Ok(_) => {},
                Err(e) => return Err(e),
            }
            i = i + 1;
        }
        proof {
            assert(txs.skip(i as int).len() == 0);
        }
        Ok(partial_ledger.to_ledger(ledger))
    }

    /// The hash that the content and the proof of work yield.
    pub fn hash(&self) -> (r: Sha256Hash)
        ensures
            r == block_hash(self@.content, self.proof_of_work),
    {
        let mut bytes = self.content.to_bytes();
        write_u128(&mut bytes, self.proof_of_work);
        Sha256Hash::new(bytes.as_slice())
    }

    pub fn to_bytes(&self) -> (r: Vec<u8>)
        ensures
            r@ == Self::encode(self@),
    {
        let mut bytes: Vec<u8> = Vec::new();
        self.to_writer(&mut bytes);
        assert(bytes@ =~= Self::encode(self@));
        bytes
    }

    pub fn from_bytes(bytes: &Vec<u8>) -> (r: Result<Block, Error>)
        ensures
            match Self::parse(bytes@) {
                Some((v, _)) => r matches Ok(b) && b@ == v,
                None => r matches Err(e) && crate::reader::codec_error(e),
            },
    {
        let mut reader = Reader::new(bytes.clone());
        Self::from_reader(&mut reader)
    }
}

impl BlockContent {
    pub fn zero() -> (r: BlockContent)
        ensures
            is_genesis_content(r@),
    {
        BlockContent {
            index: 0,
            timestamp: Time::zero(),
            prev_block_hash: Sha256Hash::zero(),
            transactions: Vec::new(),
        }
    }

    pub fn new(
        index: u32,
        timestamp: Time,
        prev_block_hash: Sha256Hash,
        transactions: Vec<Transaction>,
    ) -> (r: BlockContent)
        ensures
            r.index == index,
            r.timestamp == timestamp,
            r.prev_block_hash == prev_block_hash,
            r.transactions@ == transactions@,
    {
        BlockContent { index, timestamp, prev_block_hash, transactions }
    }

    pub fn to_bytes(&self) -> (r: Vec<u8>)
        ensures
            r@ == Self::encode(self@),
    {
        let mut bytes: Vec<u8> = Vec::new();
        self.to_writer(&mut bytes);
        assert(bytes@ =~= Self::encode(self@));
        bytes
    }

    pub fn from_bytes(bytes: &Vec<u8>) -> (r: Result<BlockContent, Error>)
        ensures
            match Self::parse(bytes@) {
                Some((v, _)) => r matches Ok(b) && b@ == v,
                None => r matches Err(e) && crate::reader::codec_error(e),
            },
    {
        let mut reader = Reader::new(bytes.clone());
        Self::from_reader(&mut reader)
    }
}

impl Writable for BlockContent {
    open spec fn encode(v: BlockContentView) -> Seq<u8> {
        be_u32(v.index) + Time::encode(v.timestamp) + Sha256Hash::encode(v.prev_block_hash)
            + encode_vec::<Transaction>(v.transactions)
    }

    fn to_writer(&self, writer: &mut Vec<u8>) {
        write_u32(writer, self.index);
        self.timestamp.to_writer(writer);
        self.prev_block_hash.to_writer(writer);
        write_vec_struct(writer, &self.transactions);
        assert(writer@ =~= old(writer)@ + Self::encode(self@));
    }
}

impl Readable for BlockContent {
    open spec fn parse(s: Seq<u8>) -> Option<(BlockContentView, Seq<u8>)> {
        match parse_u32(s) {
            Some((index, r1)) => match Time::parse(r1) {
                Some((timestamp, r2)) => match Sha256Hash::parse(r2) {
                    Some((prev_block_hash, r3)) => match crate::reader::parse_vec::<Transaction>(
                        r3,
                    ) {
                        Some((transactions, r4)) => Some(
                            (
                                BlockContentView {
                                    index,
                                    timestamp,
                                    prev_block_hash,
                                    transactions,
                                },
                                r4,
                            ),
                        ),
                        None => None,
                    },
                    None => None,
                },
                None => None,
            },
            None => None,
        }
    }

    open spec fn fits(v: BlockContentView) -> bool {
        crate::reader::all_fit::<Transaction>(v.transactions)
    }

    fn from_reader(reader: &mut Reader) -> (r: Result<BlockContent, Error>) {
        let mut index: u32 = 0;
        if read_u32(reader, &mut index).is_err() {
            return Err(Error::InvalidFormat);
        }
        let timestamp = match Time::from_reader(reader) {
            Ok(t) => t,
            Err(_) => return Err(Error::InvalidFormat),
        };
        let prev_block_hash = match Sha256Hash::from_reader(reader) {
            Ok(h) => h,
            Err(_) => return Err(Error::InvalidFormat),
        };
        let mut transactions: Vec<Transaction> = Vec::new();
        if read_vec_struct(reader, &mut transactions).is_err() {
            return Err(Error::InvalidFormat);
        }
        Ok(BlockContent { index, timestamp, prev_block_hash, transactions })
    }

    #[verifier::rlimit(100)]
    proof fn lemma_round_trip(v: BlockContentView, rest: Seq<u8>) {
        let r3 = encode_vec::<Transaction>(v.transactions) + rest;
        let r2 = Sha256Hash::encode(v.prev_block_hash) + r3;
        let r1 = Time::encode(v.timestamp) + r2;
        lemma_vec_round_trip::<Transaction>(v.transactions, rest);
        Sha256Hash::lemma_round_trip(v.prev_block_hash, r3);
        Time::lemma_round_trip(v.timestamp, r2);
        crate::reader::lemma_u32_round_trip(v.index, r1);
        let s = Self::encode(v) + rest;
        crate::writer::lemma_concat4(
            be_u32(v.index),
            Time::encode(v.timestamp),
            Sha256Hash::encode(v.prev_block_hash),
            encode_vec::<Transaction>(v.transactions),
            rest,
        );
        assert(s == be_u32(v.index) + r1);
        assert(parse_u32(s) == Some((v.index, r1)));
        assert(Time::parse(r1) == Some((v.timestamp, r2)));
        assert(Sha256Hash::parse(r2) == Some((v.prev_block_hash, r3)));
        assert(crate::reader::parse_vec::<Transaction>(r3) == Some((v.transactions, rest)));
    }
}

impl Writable for Block {
    open spec fn encode(v: BlockView) -> Seq<u8> {
        be_u128(v.proof_of_work) + Sha256Hash::encode(v.hash) + BlockContent::encode(v.content)
    }

    fn to_writer(&self, writer: &mut Vec<u8>) {
        write_u128(writer, self.proof_of_work);
        self.hash.to_writer(writer);
        self.content.to_writer(writer);
        assert(writer@ =~= old(writer)@ + Self::encode(self@));
    }
}

impl Readable for Block {
    open spec fn parse(s: Seq<u8>) -> Option<(BlockView, Seq<u8>)> {
        match parse_u128(s) {
            Some((proof_of_work, r1)) => match Sha256Hash::parse(r1) {
                Some((hash, r2)) => match BlockContent::parse(r2) {
                    Some((content, r3)) => Some((BlockView { content, proof_of_work, hash }, r3)),
                    None => None,
                },
                None => None,
            },
            None => None,
        }
    }

    open spec fn fits(v: BlockView) -> bool {
        BlockContent::fits(v.content)
    }

    fn from_reader(reader: &mut Reader) -> (r: Result<Block, Error>) {
        let mut proof_of_work: u128 = 0;
        if read_u128(reader, &mut proof_of_work).is_err() {
            return Err(Error::InvalidFormat);
        }
        let hash = match Sha256Hash::from_reader(reader) {
            Ok(h) => h,
            Err(_) => return Err(Error::InvalidFormat),
        };
        let content = match BlockContent::from_reader(reader) {
            Ok(c) => c,
            Err(_) => return Err(Error::InvalidFormat),
        };
        Ok(Block { content, proof_of_work, hash })
    }

    #[verifier::rlimit(100)]
    proof fn lemma_round_trip(v: BlockView, rest: Seq<u8>) {
        let r2 = BlockContent::encode(v.content) + rest;
        let r1 = Sha256Hash::encode(v.hash) + r2;
        BlockContent::lemma_round_trip(v.content, rest);
        Sha256Hash::lemma_round_trip(v.hash, r2);
        crate::reader::lemma_u128_round_trip(v.proof_of_work, r1);
        let s = Self::encode(v) + rest;
        crate::writer::lemma_concat3(
            be_u128(v.proof_of_work),
            Sha256Hash::encode(v.hash),
            BlockContent::encode(v.content),
            rest,
        );
        assert(s == be_u128(v.proof_of_work) + r1);
        assert(parse_u128(s) == Some((v.proof_of_work, r1)));
        assert(Sha256Hash::parse(r1) == Some((v.hash, r2)));
        assert(BlockContent::parse(r2) == Some((v.content, rest)));
    }
}

/// Whether two sequences of transactions are equal, item by item.
fn same_transactions(a: &Vec<Transaction>, b: &Vec<Transaction>) -> (r: bool)
    ensures
        r == (views(a@) == views(b@)),
{
    if a.len() != b.len() {
        proof {
            assert(views(a@).len() != views(b@).len());
        }
        return false;
    }
    let mut i: usize = 0;
    while i < a.len()
        invariant
            i <= a@.len(),
            a@.len() == b@.len(),
            forall|j: int| 0 <= j < i ==> a@[j]@ == b@[j]@,
        decreases a@.len() - i,
    {
        if !a[i].eq(&b[i]) {
            proof {
                assert(views(a@)[i as int] != views(b@)[i as int]);
            }
            return false;
        }
        i = i + 1;
    }
    assert(views(a@) =~= views(b@));
    true
}

impl PartialEq for BlockContent {
    fn eq(&self, other: &BlockContent) -> (r: bool) {
        self.index == other.index && self.timestamp == other.timestamp && self.prev_block_hash
            == other.prev_block_hash && same_transactions(&self.transactions, &other.transactions)
    }
}

impl Eq for BlockContent {}

impl vstd::std_specs::cmp::PartialEqSpecImpl for BlockContent {
    open spec fn obeys_eq_spec() -> bool {
        true
    }

    open spec fn eq_spec(&self, other: &BlockContent) -> bool {
        self@ == other@
    }
}

impl PartialEq for Block {
    fn eq(&self, other: &Block) -> (r: bool) {
        self.proof_of_work == other.proof_of_work && self.hash == other.hash && self.content.eq(
            &other.content,
        )
    }
}

impl Eq for Block {}

impl vstd::std_specs::cmp::PartialEqSpecImpl for Block {
    open spec fn obeys_eq_spec() -> bool {
        true
    }

    open spec fn eq_spec(&self, other: &Block) -> bool {
        self@ == other@
    }
}

} // verus!
