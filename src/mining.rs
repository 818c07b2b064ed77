use vstd::prelude::*;

use crate::block::{block_hash, BlockContent};
use crate::sha256::{spec_sha256, Sha256Hash};
use crate::writer::{be_u128, write_u128, Writable};

verus! {

/// Relies on rand 0.7's `Rng::gen_range` over `thread_rng`: a value drawn from `[low, high)`
/// (it panics where `low >= high`).
#[verifier::external_body]
fn random_u128_in(low: u128, high: u128) -> (r: u128)
    requires
        low < high,
    ensures
        low <= r < high,
{
    rand::Rng::gen_range(&mut rand::thread_rng(), low, high)
}

/// Whether the hash meets the difficulty: its high 128 bits masked by `difficulty` are zero.
pub open spec fn check_difficulty_spec(hash: Sha256Hash, difficulty: u128) -> bool {
    hash.hi & difficulty == 0
}

/// A proof-of-work search for one block content.
#[derive(Debug, Clone)]
pub struct Miner {
    pub block_content: BlockContent,
    pub difficulty: u128,
}

impl Miner {
    pub fn new(block_content: BlockContent, difficulty: u128) -> (r: Miner)
        ensures
            r.block_content@ == block_content@,
            r.difficulty == difficulty,
    {
        Miner { block_content, difficulty }
    }

    pub fn check_difficulty(hash: &Sha256Hash, difficulty: u128) -> (r: bool)
        ensures
            r == check_difficulty_spec(*hash, difficulty),
    {
        hash.hi & difficulty == 0
    }

    /// Tries one proof of work on the content bytes `bytes`: the proof with the hash it yields
    /// where that hash meets the difficulty, else `None`.
    pub fn try_proof_of_work(bytes: &Vec<u8>, proof_of_work: u128, difficulty: u128) -> (r:
        Option<(u128, Sha256Hash)>)
        ensures
            r == if check_difficulty_spec(
                spec_sha256(bytes@ + be_u128(proof_of_work)),
                difficulty,
            ) {
                Some((proof_of_work, spec_sha256(bytes@ + be_u128(proof_of_work))))
            } else {
                None
            },
    {
        let mut data = bytes.clone();
        assert(data@ == bytes@) by {
            assert(data@ =~= bytes@);
        }
        write_u128(&mut data, proof_of_work);
        let hash = Sha256Hash::new(data.as_slice());
        if Miner::check_difficulty(&hash, difficulty) {
            Some((proof_of_work, hash))
        } else {
            None
        }
    }

    /// Tries up to `attempts` random proofs of work; returns the first that meets the difficulty
    /// with the hash it yields.
    pub fn mine_attempts(block_content: &BlockContent, difficulty: u128, attempts: u128) -> (r:
        Option<(u128, Sha256Hash)>)
        ensures
            r matches Some((pow, hash)) ==> hash == block_hash(block_content@, pow)
                && check_difficulty_spec(hash, difficulty),
            difficulty == 0 && attempts > 0 ==> r is Some,
    {
        let bytes = block_content.to_bytes();
        let mut n: u128 = 0;
        while n < attempts
            invariant
                bytes@ == BlockContent::encode(block_content@),
                difficulty == 0 ==> n == 0,
            decreases attempts - n,
        {
            let proof_of_work = random_u128_in(0, u128::MAX);
            let found = Miner::try_proof_of_work(&bytes, proof_of_work, difficulty);
            proof {
                let h = spec_sha256(bytes@ + be_u128(proof_of_work)).hi;
                assert(difficulty == 0 ==> h & difficulty == 0) by (bit_vector);
            }
            if found.is_some() {
                return found;
            }
            n = n + 1;
        }
        None
    }

    /// Searches random proofs of work until one meets the difficulty; `None` only once every
    /// attempt a `u128` can count has failed.
    pub fn mine(block_content: &BlockContent, difficulty: u128) -> (r: Option<(u128, Sha256Hash)>)
        ensures
            r matches Some((pow, hash)) ==> hash == block_hash(block_content@, pow)
                && check_difficulty_spec(hash, difficulty),
            difficulty == 0 ==> r is Some,
    {
        Miner::mine_attempts(block_content, difficulty, u128::MAX)
    }
}

/// The bookkeeping of a mining supervisor: attempts are numbered in the order they start, and
/// at most one runs at a time.
#[derive(Debug, Clone, Copy, PartialEq, Eq, Structural)]
pub struct MiningSupervisor {
    /// The number of the latest attempt started.
    pub current: u64,
    /// Whether that attempt is still running.
    pub running: bool,
}

impl MiningSupervisor {
    pub fn new() -> (r: MiningSupervisor)
        ensures
            r.current == 0,
            !r.running,
    {
        MiningSupervisor { current: 0, running: false }
    }

    /// A start: returns whether the running attempt must be stopped first, and the number of
    /// the new attempt, which is then the one running.
    pub fn start(&mut self) -> (r: (bool, u64))
        requires
            old(self).current < u64::MAX,
        ensures
            r.0 == old(self).running,
            r.1 == old(self).current + 1,
            final(self).current == r.1,
            final(self).running,
    {
        let stop_previous = self.running;
        self.current = self.current + 1;
        self.running = true;
        (stop_previous, self.current)
    }

    /// A stop: returns whether there was a running attempt to stop; none runs afterwards.
    pub fn stop(&mut self) -> (r: bool)
        ensures
            r == old(self).running,
            final(self).current == old(self).current,
            !final(self).running,
    {
        let was_running = self.running;
        self.running = false;
        was_running
    }

    /// A result from attempt `attempt`: it is passed on only when that attempt is the one
    /// running, which then ends. A result from an attempt stopped or superseded is dropped.
    pub fn accept(&mut self, attempt: u64) -> (r: bool)
        ensures
            r == (old(self).running && attempt == old(self).current),
            final(self).current == old(self).current,
            final(self).running == (old(self).running && !r),
    {
        if self.running && attempt == self.current {
            self.running = false;
            true
        } else {
            false
        }
    }
}

} // verus!
