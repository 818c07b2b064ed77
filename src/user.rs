use vstd::prelude::*;

use crate::error::Error;
use crate::reader::{Reader, Readable};
use crate::signature::{ed25519_generate, ed25519_key_pair_bytes};
use crate::writer::Writable;

verus! {

/// Reads `N` raw bytes.
pub fn read_array<const N: usize>(reader: &mut Reader) -> (r: Result<[u8; N], Error>)
    requires
        old(reader).wf(),
    ensures
        final(reader).wf(),
        final(reader).bytes@ == old(reader).bytes@,
        if old(reader).rest().len() >= N {
            r matches Ok(a) && a@ == old(reader).rest().take(N as int) && final(reader).rest()
                == old(reader).rest().skip(N as int)
        } else {
            r is Err
        },
{
    if reader.remaining() < N {
        return Err(Error::EndOfBuffer);
    }
    let ghost s = reader.rest();
    let start = reader.pos;
    let _n = reader.bytes.len();
    let mut a: [u8; N] = [0u8; N];
    let mut i: usize = 0;
    while i < N
        invariant
            i <= N,
            start + N <= _n,
            _n == reader.bytes@.len(),
            reader.pos == start,
            a@.len() == N,
            forall|j: int| 0 <= j < i ==> a@[j] == reader.bytes@[start + j],
        decreases N - i,
    {
        a[i] = reader.bytes[start + i];
        i = i + 1;
    }
    reader.pos = start + N;
    assert(a@ =~= s.take(N as int));
    assert(reader.rest() =~= s.skip(N as int));
    Ok(a)
}

/// Appends raw bytes.
pub fn write_raw(writer: &mut Vec<u8>, b: &[u8])
    ensures
        final(writer)@ == old(writer)@ + b@,
{
    let mut i: usize = 0;
    while i < b.len()
        invariant
            i <= b@.len(),
            writer@ == old(writer)@ + b@.take(i as int),
        decreases b@.len() - i,
    {
        writer.push(b[i]);
        i = i + 1;
        assert(writer@ =~= old(writer)@ + b@.take(i as int));
    }
    assert(b@.take(i as int) =~= b@);
}

/// An Ed25519 public key. The all-zero key stands for the coinbase, the mint.
#[derive(Debug, Clone, Copy)]
pub struct PublicUser {
    pub key: [u8; 32],
}

impl View for PublicUser {
    type V = Seq<u8>;

    open spec fn view(&self) -> Seq<u8> {
        self.key@
    }
}

/// Whether `key` is the all-zero coinbase key.
pub open spec fn is_coinbase_key(key: Seq<u8>) -> bool {
    forall|i: int| 0 <= i < key.len() ==> key[i] == 0
}

impl PublicUser {
    pub const BITS: u32 = 256;

    pub const BYTES: usize = 32;

    pub fn new_coinbase() -> (r: PublicUser)
        ensures
            is_coinbase_key(r@),
            r@.len() == 32,
    {
        PublicUser { key: [0u8; 32] }
    }

    pub fn new(key: [u8; 32]) -> (r: PublicUser)
        ensures
            r@ == key@,
    {
        PublicUser { key }
    }

    pub fn to_bytes(&self) -> (r: [u8; 32])
        ensures
            r@ == self@,
    {
        self.key
    }

    pub fn from_bytes(bytes: &[u8; 32]) -> (r: PublicUser)
        ensures
            r@ == bytes@,
    {
        PublicUser { key: *bytes }
    }

    pub fn is_coinbase(&self) -> (r: bool)
        ensures
            r == is_coinbase_key(self@),
    {
        let mut i: usize = 0;
        while i < 32
            invariant
                i <= 32,
                self.key@.len() == 32,
                forall|j: int| 0 <= j < i ==> self.key@[j] == 0,
            decreases 32 - i,
        {
            if self.key[i] != 0 {
                return false;
            }
            i = i + 1;
        }
        true
    }

    /// Whether the two keys are the same.
    pub fn same(&self, other: &PublicUser) -> (r: bool)
        ensures
            r == (self@ == other@),
    {
        let mut i: usize = 0;
        while i < 32
            invariant
                i <= 32,
                self.key@.len() == 32,
                other.key@.len() == 32,
                forall|j: int| 0 <= j < i ==> self.key@[j] == other.key@[j],
            decreases 32 - i,
        {
            if self.key[i] != other.key[i] {
                return false;
            }
            i = i + 1;
        }
        assert(self.key@ =~= other.key@);
        true
    }
}

impl PartialEq for PublicUser {
    fn eq(&self, other: &PublicUser) -> (r: bool) {
        self.same(other)
    }
}

impl Eq for PublicUser {}

impl vstd::std_specs::cmp::PartialEqSpecImpl for PublicUser {
    open spec fn obeys_eq_spec() -> bool {
        true
    }

    open spec fn eq_spec(&self, other: &PublicUser) -> bool {
        self@ == other@
    }
}

impl Writable for PublicUser {
    open spec fn encode(v: Seq<u8>) -> Seq<u8> {
        v
    }

    fn to_writer(&self, writer: &mut Vec<u8>) {
        let key = self.key.as_slice();
        assert(key@ == self.key@);
        write_raw(writer, key);
        assert(Self::encode(self@) == self.key@);
    }
}

impl Readable for PublicUser {
    open spec fn parse(s: Seq<u8>) -> Option<(Seq<u8>, Seq<u8>)> {
        if s.len() >= 32 {
            Some((s.take(32), s.skip(32)))
        } else {
            None
        }
    }

    open spec fn fits(v: Seq<u8>) -> bool {
        v.len() == 32
    }

    fn from_reader(reader: &mut Reader) -> (r: Result<PublicUser, Error>) {
        match read_array::<32>(reader) {
            Ok(key) => Ok(PublicUser { key }),
            Err(_) => Err(Error::InvalidFormat),
        }
    }

    proof fn lemma_round_trip(v: Seq<u8>, rest: Seq<u8>) {
        assert((v + rest).take(32) =~= v);
        assert((v + rest).skip(32) =~= rest);
    }
}

/// An Ed25519 key pair: the secret half, then the public half.
pub struct User {
    pub key_pair: [u8; 64],
}

impl User {
    /// A fresh random key pair.
    pub fn from_nothingness() -> (r: User) {
        User { key_pair: ed25519_generate() }
    }

    pub fn new(key_pair: ed25519_dalek::Keypair) -> (r: User) {
        User { key_pair: ed25519_key_pair_bytes(&key_pair) }
    }

    /// The public half of the key pair.
    pub fn as_public(&self) -> (r: PublicUser)
        ensures
            r@ == self.key_pair@.subrange(32, 64),
    {
        let mut key: [u8; 32] = [0u8; 32];
        let mut i: usize = 0;
        while i < 32
            invariant
                i <= 32,
                key@.len() == 32,
                self.key_pair@.len() == 64,
                forall|j: int| 0 <= j < i ==> key@[j] == self.key_pair@[32 + j],
            decreases 32 - i,
        {
            key[i] = self.key_pair[32 + i];
            i = i + 1;
        }
        assert(key@ =~= self.key_pair@.subrange(32, 64));
        PublicUser { key }
    }

    /// The coinbase: the all-zero key pair, whose public half is the coinbase key.
    pub fn new_coinbase() -> (r: User)
        ensures
            is_coinbase_key(r.key_pair@),
    {
        User { key_pair: [0u8; 64] }
    }
}

} // verus!

verus! {

/// Reads a 64-byte signature.
pub fn read_signature(reader: &mut Reader, sign: &mut [u8; 64]) -> (r: Result<(), Error>)
    requires
        old(reader).wf(),
    ensures
        final(reader).wf(),
        final(reader).bytes@ == old(reader).bytes@,
        if old(reader).rest().len() >= 64 {
            r is Ok && final(sign)@ == old(reader).rest().take(64) && final(reader).rest() == old(
                reader,
            ).rest().skip(64)
        } else {
            r == Err::<(), Error>(Error::EndOfBuffer) && final(sign)@ == old(sign)@
        },
{
    match read_array::<64>(reader) {
        Ok(s) => {
            *sign = s;
            Ok(())
        },
        Err(_) => Err(Error::EndOfBuffer),
    }
}

/// Writes a 64-byte signature as it is.
pub fn write_signature(writer: &mut Vec<u8>, s: &[u8; 64])
    ensures
        final(writer)@ == old(writer)@ + s@,
{
    let bytes = s.as_slice();
    assert(bytes@ == s@);
    write_raw(writer, bytes);
}

} // verus!
