use vstd::prelude::*;

use crate::error::Error;
use crate::reader::{parse_u128, read_u128, u128_of, Reader, Readable};
use crate::writer::{be_u128, write_u128, Writable};

verus! {

/// The SHA-256 digest of `data`.
pub uninterp spec fn sha256_of(data: Seq<u8>) -> Seq<u8>;

/// Relies on `sha2::Sha256`: the 32-byte SHA-256 digest of the input.
#[verifier::external_body]
fn sha256_digest(data: &[u8]) -> (r: Vec<u8>)
    ensures
        r@ == sha256_of(data@),
        r@.len() == 32,
{
    <sha2::Sha256 as sha2::Digest>::digest(data).to_vec()
}

/// A 256-bit digest, held as its high and low 128-bit halves.
#[derive(Debug, Clone, Copy, PartialEq, Eq, Structural)]
pub struct Sha256Hash {
    pub hi: u128,
    pub lo: u128,
}

impl View for Sha256Hash {
    type V = Sha256Hash;

    open spec fn view(&self) -> Sha256Hash {
        *self
    }
}

/// The hash whose 32 big-endian bytes are `b`.
pub open spec fn hash_of_bytes(b: Seq<u8>) -> Sha256Hash {
    Sha256Hash { hi: u128_of(b.subrange(0, 16)), lo: u128_of(b.subrange(16, 32)) }
}

/// The hash of the SHA-256 digest of `data`.
pub open spec fn spec_sha256(data: Seq<u8>) -> Sha256Hash {
    hash_of_bytes(sha256_of(data))
}

impl Sha256Hash {
    pub const BITS: u32 = 256;

    /// The digest of `data`.
    pub fn new(data: &[u8]) -> (r: Sha256Hash)
        ensures
            r == spec_sha256(data@),
    {
        let d = sha256_digest(data);
        Sha256Hash::from_digest(&d)
    }

    pub fn zero() -> (r: Sha256Hash)
        ensures
            r.hi == 0 && r.lo == 0,
    {
        Sha256Hash { hi: 0, lo: 0 }
    }

    /// The hash whose big-endian bytes are `d`.
    pub fn from_digest(d: &Vec<u8>) -> (r: Sha256Hash)
        requires
            d@.len() == 32,
        ensures
            r == hash_of_bytes(d@),
    {
        let mut reader = Reader::new(d.clone());
        let mut hi: u128 = 0;
        let mut lo: u128 = 0;
        let ghost s = reader.rest();
        let _ = read_u128(&mut reader, &mut hi);
        let ghost after_hi = reader.rest();
        let _ = read_u128(&mut reader, &mut lo);
        proof {
            assert(s =~= d@);
            assert(s.take(16) =~= d@.subrange(0, 16));
            assert(after_hi.take(16) =~= d@.subrange(16, 32));
        }
        Sha256Hash { hi, lo }
    }

    pub fn from_bytes(value: [u8; 32]) -> (r: Sha256Hash)
        ensures
            r == hash_of_bytes(value@),
    {
        let mut d: Vec<u8> = Vec::new();
        let mut i: usize = 0;
        while i < 32
            invariant
                i <= 32,
                value@.len() == 32,
                d@ == value@.take(i as int),
            decreases 32 - i,
        {
            d.push(value[i]);
            i = i + 1;
            assert(d@ =~= value@.take(i as int));
        }
        assert(d@ =~= value@);
        Sha256Hash::from_digest(&d)
    }

    pub fn as_u128(&self) -> (r: [u128; 2])
        ensures
            r@ == seq![self.hi, self.lo],
    {
        let r = [self.hi, self.lo];
        assert(r@ =~= seq![self.hi, self.lo]);
        r
    }

    /// The 32 big-endian bytes of the hash.
    pub fn to_bytes(&self) -> (r: [u8; 32])
        ensures
            r@ == Self::encode(*self),
    {
        let mut out: Vec<u8> = Vec::new();
        self.to_writer(&mut out);
        let mut a: [u8; 32] = [0u8; 32];
        let mut i: usize = 0;
        while i < 32
            invariant
                i <= 32,
                out@ == Self::encode(*self),
                out@.len() == 32,
                forall|j: int| 0 <= j < i ==> a@[j] == out@[j],
            decreases 32 - i,
        {
            a[i] = out[i];
            i = i + 1;
        }
        assert(a@ =~= out@);
        a
    }
}

impl Writable for Sha256Hash {
    open spec fn encode(v: Sha256Hash) -> Seq<u8> {
        be_u128(v.hi) + be_u128(v.lo)
    }

    fn to_writer(&self, writer: &mut Vec<u8>) {
        write_u128(writer, self.hi);
        write_u128(writer, self.lo);
        assert(writer@ =~= old(writer)@ + Self::encode(*self));
    }
}

impl Readable for Sha256Hash {
    open spec fn parse(s: Seq<u8>) -> Option<(Sha256Hash, Seq<u8>)> {
        match parse_u128(s) {
            Some((hi, r)) => match parse_u128(r) {
                Some((lo, r2)) => Some((Sha256Hash { hi, lo }, r2)),
                None => None,
            },
            None => None,
        }
    }

    open spec fn fits(v: Sha256Hash) -> bool {
        true
    }

    fn from_reader(reader: &mut Reader) -> (r: Result<Sha256Hash, Error>) {
        let mut hi: u128 = 0;
        let mut lo: u128 = 0;
        if read_u128(reader, &mut hi).is_err() {
            return Err(Error::InvalidFormat);
        }
        if read_u128(reader, &mut lo).is_err() {
            return Err(Error::InvalidFormat);
        }
        Ok(Sha256Hash { hi, lo })
    }

    proof fn lemma_round_trip(v: Sha256Hash, rest: Seq<u8>) {
        crate::reader::lemma_u128_round_trip(v.lo, rest);
        crate::reader::lemma_u128_round_trip(v.hi, be_u128(v.lo) + rest);
        assert(Self::encode(v) + rest =~= be_u128(v.hi) + (be_u128(v.lo) + rest));
    }
}

} // verus!
