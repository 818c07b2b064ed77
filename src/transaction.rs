use vstd::prelude::*;

use crate::error::Error;
use crate::num::Num;
use crate::reader::{parse_u64, read_u64, Reader, Readable};
use crate::signature::{ed25519_sign, ed25519_signature, ed25519_verifies, ed25519_verify};
use crate::user::{is_coinbase_key, read_signature, write_signature, PublicUser, User};
use crate::writer::{be_u64, write_u64, Writable};

verus! {

/// Relies on rand 0.7's `Rng::gen_range` over `thread_rng`: a value drawn from `[low, high)`
/// (it panics where `low >= high`).
#[verifier::external_body]
fn random_u64_in(low: u64, high: u64) -> (r: u64)
    requires
        low < high,
    ensures
        low <= r < high,
{
    rand::Rng::gen_range(&mut rand::thread_rng(), low, high)
}

pub struct TransactionContentView {
    pub from: Seq<u8>,
    pub to: Seq<u8>,
    pub value: Num,
    pub nonce: u64,
}

pub struct TransactionView {
    pub content: TransactionContentView,
    pub signature: Seq<u8>,
}

/// What a transaction transfers. `nonce` identifies the transaction.
#[derive(Debug, Clone, Copy)]
pub struct TransactionContent {
    pub from: PublicUser,
    pub to: PublicUser,
    pub value: Num,
    pub nonce: u64,
}

/// A transfer signed by its sender. A coinbase transfer carries a zero signature.
#[derive(Debug, Clone, Copy)]
pub struct Transaction {
    pub content: TransactionContent,
    pub signature: [u8; 64],
}

impl View for TransactionContent {
    type V = TransactionContentView;

    open spec fn view(&self) -> TransactionContentView {
        TransactionContentView {
            from: self.from@,
            to: self.to@,
            value: self.value,
            nonce: self.nonce,
        }
    }
}

impl View for Transaction {
    type V = TransactionView;

    open spec fn view(&self) -> TransactionView {
        TransactionView { content: self.content@, signature: self.signature@ }
    }
}

/// The outcome of checking a transaction against the balance of its sender: a zero value is
/// refused; a sender other than the coinbase must have signed it and must hold the value.
pub open spec fn verify_outcome(tx: TransactionView, balance: u128) -> Result<(), Error> {
    if tx.content.value.value == 0 {
        Err(Error::TransactionOf0)
    } else if !is_coinbase_key(tx.content.from) && !ed25519_verifies(
        tx.content.from,
        TransactionContent::encode(tx.content),
        tx.signature,
    ) {
        Err(Error::WrongTransactionSignature)
    } else if !is_coinbase_key(tx.content.from) && tx.content.value.value > balance {
        Err(Error::SenderDoNotHaveEnoughMoney)
    } else {
        Ok(())
    }
}

/// Whether two signatures are the same bytes.
fn same_signature(a: &[u8; 64], b: &[u8; 64]) -> (r: bool)
    ensures
        r == (a@ == b@),
{
    let mut i: usize = 0;
    while i < 64
        invariant
            i <= 64,
            a@.len() == 64,
            b@.len() == 64,
            forall|j: int| 0 <= j < i ==> a@[j] == b@[j],
        decreases 64 - i,
    {
        if a[i] != b[i] {
            return false;
        }
        i = i + 1;
    }
    assert(a@ =~= b@);
    true
}

impl Transaction {
    /// A coinbase transfer of `value` to `to`, with a random nonce below `u64::MAX`.
    pub fn new_from_coinbase(to: &PublicUser, value: &Num) -> (r: Transaction)
        ensures
            is_coinbase_key(r.content.from@),
            r.content.from@.len() == 32,
            r.content.to@ == to@,
            r.content.value == *value,
            r.content.nonce < u64::MAX,
            is_coinbase_key(r.signature@),
    {
        Transaction::new_coinbase_with_nonce(to, value, random_u64_in(0, u64::MAX))
    }

    /// A coinbase transfer of `value` to `to` with nonce `nonce`, and a zero signature.
    pub fn new_coinbase_with_nonce(to: &PublicUser, value: &Num, nonce: u64) -> (r: Transaction)
        ensures
            is_coinbase_key(r.content.from@),
            r.content.from@.len() == 32,
            r.content.to@ == to@,
            r.content.value == *value,
            r.content.nonce == nonce,
            is_coinbase_key(r.signature@),
            r.signature@.len() == 64,
    {
        Transaction {
            content: TransactionContent {
                from: PublicUser::new_coinbase(),
                to: *to,
                value: *value,
                nonce,
            },
            signature: [0u8; 64],
        }
    }

    pub fn zero() -> (r: Transaction)
        ensures
            is_coinbase_key(r.content.from@),
            is_coinbase_key(r.content.to@),
            r.content.value.value == 0,
            r.content.nonce == 0,
            is_coinbase_key(r.signature@),
    {
        Transaction { content: TransactionContent::zero(), signature: [0u8; 64] }
    }

    /// A transfer of `value` from `from` to `to`, signed with `from`'s key pair; a key pair that
    /// does not parse signs with zeros, as the coinbase does.
    pub fn new(from: User, to: PublicUser, value: Num, once: u64) -> (r: Transaction)
        ensures
            r.content.from@ == from.key_pair@.subrange(32, 64),
            r.content.to@ == to@,
            r.content.value == value,
            r.content.nonce == once,
            r.signature@ == match ed25519_signature(
                from.key_pair@,
                TransactionContent::encode(r.content@),
            ) {
                Some(s) => s,
                None => Seq::new(64, |i: int| 0u8),
            },
    {
        let content = TransactionContent { from: from.as_public(), to, value, nonce: once };
        let bytes = content.to_bytes();
        let signature = match ed25519_sign(&from.key_pair, bytes.as_slice()) {
            Some(s) => s,
            None => [0u8; 64],
        };
        proof {
            if ed25519_signature(from.key_pair@, TransactionContent::encode(content@)) is None {
                assert(signature@ =~= Seq::new(64, |i: int| 0u8));
            }
        }
        Transaction { content, signature }
    }

    pub fn verify(&self, from_account: Num) -> (r: Result<(), Error>)
        ensures
            r == verify_outcome(self@, from_account.value),
    {
        if self.content.value.value == 0 {
            return Err(Error::TransactionOf0);
        }
        if !self.content.from.is_coinbase() {
            let bytes = self.content.to_bytes();
            if !ed25519_verify(&self.content.from.key, bytes.as_slice(), &self.signature) {
                return Err(Error::WrongTransactionSignature);
            }
            if self.content.value.value > from_account.value {
                return Err(Error::SenderDoNotHaveEnoughMoney);
            }
        }
        Ok(())
    }

    pub fn to_bytes(&self) -> (r: Vec<u8>)
        ensures
            r@ == Self::encode(self@),
    {
        let mut bytes: Vec<u8> = Vec::new();
        self.to_writer(&mut bytes);
        assert(bytes@ =~= Self::encode(self@));
        bytes
    }

    pub fn from_bytes(bytes: &Vec<u8>) -> (r: Result<Transaction, Error>)
        ensures
            match Self::parse(bytes@) {
                Some((v, _)) => r matches Ok(t) && t@ == v,
                None => r matches Err(e) && crate::reader::codec_error(e),
            },
    {
        let mut reader = Reader::new(bytes.clone());
        Self::from_reader(&mut reader)
    }
}

impl TransactionContent {
    pub fn zero() -> (r: TransactionContent)
        ensures
            is_coinbase_key(r.from@),
            is_coinbase_key(r.to@),
            r.value.value == 0,
            r.nonce == 0,
    {
        TransactionContent {
            from: PublicUser::new_coinbase(),
            to: PublicUser::new_coinbase(),
            value: Num::zero(),
            nonce: 0,
        }
    }

    pub fn to_bytes(&self) -> (r: Vec<u8>)
        ensures
            r@ == Self::encode(self@),
    {
        let mut bytes: Vec<u8> = Vec::new();
        self.to_writer(&mut bytes);
        assert(bytes@ =~= Self::encode(self@));
        bytes
    }

    pub fn from_bytes(bytes: &Vec<u8>) -> (r: Result<TransactionContent, Error>)
        ensures
            match Self::parse(bytes@) {
                Some((v, _)) => r matches Ok(t) && t@ == v,
                None => r matches Err(e) && crate::reader::codec_error(e),
            },
    {
        let mut reader = Reader::new(bytes.clone());
        Self::from_reader(&mut reader)
    }
}

impl Writable for TransactionContent {
    open spec fn encode(v: TransactionContentView) -> Seq<u8> {
        v.from + v.to + be_u64(v.nonce) + Num::encode(v.value)
    }

    fn to_writer(&self, writer: &mut Vec<u8>) {
        self.from.to_writer(writer);
        self.to.to_writer(writer);
        write_u64(writer, self.nonce);
        self.value.to_writer(writer);
        assert(writer@ =~= old(writer)@ + Self::encode(self@));
    }
}

impl Readable for TransactionContent {
    open spec fn parse(s: Seq<u8>) -> Option<(TransactionContentView, Seq<u8>)> {
        match PublicUser::parse(s) {
            Some((from, r1)) => match PublicUser::parse(r1) {
                Some((to, r2)) => match parse_u64(r2) {
                    Some((nonce, r3)) => match Num::parse(r3) {
                        Some((value, r4)) => Some(
                            (TransactionContentView { from, to, value, nonce }, r4),
                        ),
                        None => None,
                    },
                    None => None,
                },
                None => None,
            },
            None => None,
        }
    }

    open spec fn fits(v: TransactionContentView) -> bool {
        v.from.len() == 32 && v.to.len() == 32
    }

    fn from_reader(reader: &mut Reader) -> (r: Result<TransactionContent, Error>) {
        let from = match PublicUser::from_reader(reader) {
            Ok(v) => v,
            Err(_) => return Err(Error::InvalidFormat),
        };
        let to = match PublicUser::from_reader(reader) {
            Ok(v) => v,
            Err(_) => return Err(Error::InvalidFormat),
        };
        let mut nonce: u64 = 0;
        if read_u64(reader, &mut nonce).is_err() {
            return Err(Error::InvalidFormat);
        }
        let value = match Num::from_reader(reader) {
            Ok(v) => v,
            Err(_) => return Err(Error::InvalidFormat),
        };
        Ok(TransactionContent { from, to, value, nonce })
    }

    proof fn lemma_round_trip(v: TransactionContentView, rest: Seq<u8>) {
        let r3 = Num::encode(v.value) + rest;
        let r2 = be_u64(v.nonce) + r3;
        let r1 = v.to + r2;
        Num::lemma_round_trip(v.value, rest);
        crate::reader::lemma_u64_round_trip(v.nonce, r3);
        PublicUser::lemma_round_trip(v.to, r2);
        PublicUser::lemma_round_trip(v.from, r1);
        let s = Self::encode(v) + rest;
        assert(s =~= v.from + r1);
        assert(PublicUser::parse(s) == Some((v.from, r1)));
        assert(PublicUser::parse(r1) == Some((v.to, r2)));
        assert(parse_u64(r2) == Some((v.nonce, r3)));
        assert(Num::parse(r3) == Some((v.value, rest)));
    }
}

impl Writable for Transaction {
    open spec fn encode(v: TransactionView) -> Seq<u8> {
        v.signature + TransactionContent::encode(v.content)
    }

    fn to_writer(&self, writer: &mut Vec<u8>) {
        write_signature(writer, &self.signature);
        self.content.to_writer(writer);
    }
}

impl Readable for Transaction {
    open spec fn parse(s: Seq<u8>) -> Option<(TransactionView, Seq<u8>)> {
        if s.len() >= 64 {
            match TransactionContent::parse(s.skip(64)) {
                Some((content, r)) => Some((TransactionView { content, signature: s.take(64) }, r)),
                None => None,
            }
        } else {
            None
        }
    }

    open spec fn fits(v: TransactionView) -> bool {
        v.signature.len() == 64 && TransactionContent::fits(v.content)
    }

    fn from_reader(reader: &mut Reader) -> (r: Result<Transaction, Error>) {
        let mut signature: [u8; 64] = [0u8; 64];
        if read_signature(reader, &mut signature).is_err() {
            return Err(Error::EndOfBuffer);
        }
        let content = match TransactionContent::from_reader(reader) {
            Ok(c) => c,
            Err(e) => return Err(e),
        };
        Ok(Transaction { content, signature })
    }

    proof fn lemma_round_trip(v: TransactionView, rest: Seq<u8>) {
        let r1 = TransactionContent::encode(v.content) + rest;
        TransactionContent::lemma_round_trip(v.content, rest);
        assert((v.signature + r1).take(64) =~= v.signature);
        assert((v.signature + r1).skip(64) =~= r1);
        assert(Self::encode(v) + rest =~= v.signature + r1);
    }
}

impl PartialEq for TransactionContent {
    fn eq(&self, other: &TransactionContent) -> (r: bool) {
        self.from.same(&other.from) && self.to.same(&other.to) && self.value.value
            == other.value.value && self.nonce == other.nonce
    }
}

impl Eq for TransactionContent {}

impl vstd::std_specs::cmp::PartialEqSpecImpl for TransactionContent {
    open spec fn obeys_eq_spec() -> bool {
        true
    }

    open spec fn eq_spec(&self, other: &TransactionContent) -> bool {
        self@ == other@
    }
}

impl PartialEq for Transaction {
    fn eq(&self, other: &Transaction) -> (r: bool) {
        self.content.eq(&other.content) && same_signature(&self.signature, &other.signature)
    }
}

impl Eq for Transaction {}

impl vstd::std_specs::cmp::PartialEqSpecImpl for Transaction {
    open spec fn obeys_eq_spec() -> bool {
        true
    }

    open spec fn eq_spec(&self, other: &Transaction) -> bool {
        self@ == other@
    }
}

} // verus!
