use vstd::prelude::*;
use vstd::utf8::{decode_utf8, valid_utf8};

use crate::error::Error;
use crate::writer::{
    be_u128, be_u32, be_u64, encode_bytes, encode_items, encode_vec, views,
    Writable,
};

verus! {

/// A cursor over a byte buffer.
pub struct Reader {
    pub bytes: Vec<u8>,
    pub pos: usize,
}

impl Reader {
    pub open spec fn wf(&self) -> bool {
        self.pos <= self.bytes@.len()
    }

    /// The bytes not read yet.
    pub open spec fn rest(&self) -> Seq<u8> {
        self.bytes@.skip(self.pos as int)
    }

    pub fn new(bytes: Vec<u8>) -> (r: Reader)
        ensures
            r.wf(),
            r.rest() == bytes@,
    {
        let r = Reader { bytes, pos: 0 };
        assert(r.rest() =~= r.bytes@);
        r
    }

    pub fn remaining(&self) -> (n: usize)
        requires
            self.wf(),
        ensures
            n == self.rest().len(),
    {
        self.bytes.len() - self.pos
    }
}

/// The value of four big-endian bytes.
pub open spec fn u32_of(b: Seq<u8>) -> u32 {
    ((b[0] as u32) << 24u32) | ((b[1] as u32) << 16u32) | ((b[2] as u32) << 8u32) | (b[3] as u32)
}

/// The value of eight big-endian bytes.
pub open spec fn u64_of(b: Seq<u8>) -> u64 {
    ((u32_of(b.subrange(0, 4)) as u64) << 32u64) | (u32_of(b.subrange(4, 8)) as u64)
}

/// The value of sixteen big-endian bytes.
pub open spec fn u128_of(b: Seq<u8>) -> u128 {
    ((u64_of(b.subrange(0, 8)) as u128) << 64u128) | (u64_of(b.subrange(8, 16)) as u128)
}

pub open spec fn parse_u32(s: Seq<u8>) -> Option<(u32, Seq<u8>)> {
    if s.len() >= 4 {
        Some((u32_of(s.take(4)), s.skip(4)))
    } else {
        None
    }
}

pub open spec fn parse_u64(s: Seq<u8>) -> Option<(u64, Seq<u8>)> {
    if s.len() >= 8 {
        Some((u64_of(s.take(8)), s.skip(8)))
    } else {
        None
    }
}

pub open spec fn parse_u128(s: Seq<u8>) -> Option<(u128, Seq<u8>)> {
    if s.len() >= 16 {
        Some((u128_of(s.take(16)), s.skip(16)))
    } else {
        None
    }
}

/// A length-prefixed byte string, and what follows it.
pub open spec fn parse_bytes(s: Seq<u8>) -> Option<(Seq<u8>, Seq<u8>)> {
    match parse_u32(s) {
        Some((n, r)) => if r.len() >= n {
            Some((r.take(n as int), r.skip(n as int)))
        } else {
            None
        },
        None => None,
    }
}

pub proof fn lemma_u32_round_trip(x: u32, rest: Seq<u8>)
    ensures
        parse_u32(be_u32(x) + rest) == Some((x, rest)),
{
    let s = be_u32(x) + rest;
    assert(s.take(4) =~= be_u32(x));
    assert(s.skip(4) =~= rest);
    assert((((((x >> 24u32) as u8) as u32) << 24u32) | ((((x >> 16u32) as u8) as u32) << 16u32)
        | ((((x >> 8u32) as u8) as u32) << 8u32) | ((x as u8) as u32)) == x) by (bit_vector);
}

pub proof fn lemma_u64_round_trip(x: u64, rest: Seq<u8>)
    ensures
        parse_u64(be_u64(x) + rest) == Some((x, rest)),
{
    let s = be_u64(x) + rest;
    let hi = (x >> 32u64) as u32;
    let lo = x as u32;
    lemma_u32_round_trip(hi, seq![]);
    lemma_u32_round_trip(lo, seq![]);
    assert(be_u32(hi) + Seq::<u8>::empty() =~= be_u32(hi));
    assert(be_u32(lo) + Seq::<u8>::empty() =~= be_u32(lo));
    assert(s.take(8).subrange(0, 4) =~= be_u32(hi));
    assert(s.take(8).subrange(4, 8) =~= be_u32(lo));
    assert(s.skip(8) =~= rest);
    assert(((((x >> 32u64) as u32) as u64) << 32u64 | ((x as u32) as u64)) == x) by (bit_vector);
}

pub proof fn lemma_u128_round_trip(x: u128, rest: Seq<u8>)
    ensures
        parse_u128(be_u128(x) + rest) == Some((x, rest)),
{
    let s = be_u128(x) + rest;
    let hi = (x >> 64u128) as u64;
    let lo = x as u64;
    lemma_u64_round_trip(hi, seq![]);
    lemma_u64_round_trip(lo, seq![]);
    assert(be_u64(hi) + Seq::<u8>::empty() =~= be_u64(hi));
    assert(be_u64(lo) + Seq::<u8>::empty() =~= be_u64(lo));
    assert(s.take(16).subrange(0, 8) =~= be_u64(hi));
    assert(s.take(16).subrange(8, 16) =~= be_u64(lo));
    assert(s.skip(16) =~= rest);
    assert(((((x >> 64u128) as u64) as u128) << 64u128 | ((x as u64) as u128)) == x) by (bit_vector);
}

pub proof fn lemma_bytes_round_trip(b: Seq<u8>, rest: Seq<u8>)
    requires
        b.len() <= u32::MAX,
    ensures
        parse_bytes(encode_bytes(b) + rest) == Some((b, rest)),
{
    let s = encode_bytes(b) + rest;
    lemma_u32_round_trip(b.len() as u32, b + rest);
    assert(s =~= be_u32(b.len() as u32) + (b + rest));
    assert((b + rest).take(b.len() as int) =~= b);
    assert((b + rest).skip(b.len() as int) =~= rest);
}

/// The errors that reading malformed bytes reports.
pub open spec fn codec_error(e: Error) -> bool {
    e == Error::InvalidFormat || e == Error::EndOfBuffer
}

/// A value that can be read back from its canonical bytes.
pub trait Readable: Writable {
    /// The value at the front of `s`, and the bytes after it.
    spec fn parse(s: Seq<u8>) -> Option<(Self::V, Seq<u8>)>;

    /// The values whose canonical bytes read back as themselves (lengths fit their prefix).
    spec fn fits(v: Self::V) -> bool;

    fn from_reader(reader: &mut Reader) -> (r: Result<Self, Error>)
        requires
            old(reader).wf(),
        ensures
            final(reader).wf(),
            final(reader).bytes@ == old(reader).bytes@,
            match Self::parse(old(reader).rest()) {
                Some((v, rest)) => r matches Ok(x) && x@ == v && final(reader).rest() == rest,
                None => r matches Err(e) && codec_error(e),
            },
    ;

    proof fn lemma_round_trip(v: Self::V, rest: Seq<u8>)
        requires
            Self::fits(v),
        ensures
            Self::parse(Self::encode(v) + rest) == Some((v, rest)),
    ;
}

/// `n` values read one after the other, and the bytes after them.
pub open spec fn parse_items<U: Readable>(n: nat, s: Seq<u8>) -> Option<(Seq<U::V>, Seq<u8>)>
    decreases n,
{
    if n == 0 {
        Some((seq![], s))
    } else {
        match U::parse(s) {
            Some((x, r)) => match parse_items::<U>((n - 1) as nat, r) {
                Some((xs, r2)) => Some((seq![x] + xs, r2)),
                None => None,
            },
            None => None,
        }
    }
}

/// A length-prefixed sequence of values, and the bytes after it.
pub open spec fn parse_vec<U: Readable>(s: Seq<u8>) -> Option<(Seq<U::V>, Seq<u8>)> {
    match parse_u32(s) {
        Some((n, r)) => parse_items::<U>(n as nat, r),
        None => None,
    }
}

/// Every item fits, and so does the count.
pub open spec fn all_fit<U: Readable>(s: Seq<U::V>) -> bool {
    s.len() <= u32::MAX && forall|i: int| 0 <= i < s.len() ==> #[trigger] U::fits(s[i])
}

pub proof fn lemma_items_round_trip<U: Readable>(s: Seq<U::V>, rest: Seq<u8>)
    requires
        forall|i: int| 0 <= i < s.len() ==> #[trigger] U::fits(s[i]),
    ensures
        parse_items::<U>(s.len(), encode_items::<U>(s) + rest) == Some((s, rest)),
    decreases s.len(),
{
    if s.len() > 0 {
        let tail = s.skip(1);
        assert forall|i: int| 0 <= i < tail.len() implies #[trigger] U::fits(tail[i]) by {
            assert(tail[i] == s[i + 1]);
        }
        lemma_items_round_trip::<U>(tail, rest);
        U::lemma_round_trip(s[0], encode_items::<U>(tail) + rest);
        assert(encode_items::<U>(s) + rest =~= U::encode(s[0]) + (encode_items::<U>(tail) + rest));
        assert(seq![s[0]] + tail =~= s);
    }
}

pub proof fn lemma_vec_round_trip<U: Readable>(s: Seq<U::V>, rest: Seq<u8>)
    requires
        all_fit::<U>(s),
    ensures
        parse_vec::<U>(encode_vec::<U>(s) + rest) == Some((s, rest)),
{
    let body = encode_items::<U>(s) + rest;
    lemma_items_round_trip::<U>(s, rest);
    lemma_u32_round_trip(s.len() as u32, body);
    assert(encode_vec::<U>(s) + rest =~= be_u32(s.len() as u32) + body);
    assert((s.len() as u32) as nat == s.len());
}

pub fn read_u32(reader: &mut Reader, u: &mut u32) -> (r: Result<(), Error>)
    requires
        old(reader).wf(),
    ensures
        final(reader).wf(),
        final(reader).bytes@ == old(reader).bytes@,
        match parse_u32(old(reader).rest()) {
            Some((v, rest)) => r is Ok && *final(u) == v && final(reader).rest() == rest,
            None => r == Err::<(), Error>(Error::EndOfBuffer) && *final(u) == *old(u),
        },
{
    if reader.remaining() < 4 {
        return Err(Error::EndOfBuffer);
    }
    let _n = reader.bytes.len();
    let p = reader.pos;
    let v: u32 = ((reader.bytes[p] as u32) << 24u32) | ((reader.bytes[p + 1] as u32) << 16u32)
        | ((reader.bytes[p + 2] as u32) << 8u32) | (reader.bytes[p + 3] as u32);
    reader.pos = p + 4;
    *u = v;
    proof {
        let s = old(reader).rest();
        assert(s.take(4)[0] == reader.bytes@[p as int]);
        assert(s.take(4)[1] == reader.bytes@[p + 1]);
        assert(s.take(4)[2] == reader.bytes@[p + 2]);
        assert(s.take(4)[3] == reader.bytes@[p + 3]);
        assert(reader.rest() =~= s.skip(4));
    }
    Ok(())
}

pub fn read_u64(reader: &mut Reader, u: &mut u64) -> (r: Result<(), Error>)
    requires
        old(reader).wf(),
    ensures
        final(reader).wf(),
        final(reader).bytes@ == old(reader).bytes@,
        match parse_u64(old(reader).rest()) {
            Some((v, rest)) => r is Ok && *final(u) == v && final(reader).rest() == rest,
            None => r == Err::<(), Error>(Error::EndOfBuffer) && *final(u) == *old(u),
        },
{
    if reader.remaining() < 8 {
        return Err(Error::EndOfBuffer);
    }
    let ghost s = reader.rest();
    let mut hi: u32 = 0;
    let mut lo: u32 = 0;
    let _ = read_u32(reader, &mut hi);
    let ghost after_hi = reader.rest();
    let _ = read_u32(reader, &mut lo);
    *u = ((hi as u64) << 32u64) | (lo as u64);
    proof {
        assert(s.take(8).subrange(0, 4) =~= s.take(4));
        assert(s.take(8).subrange(4, 8) =~= after_hi.take(4));
        assert(reader.rest() =~= s.skip(8));
    }
    Ok(())
}

pub fn read_u128(reader: &mut Reader, u: &mut u128) -> (r: Result<(), Error>)
    requires
        old(reader).wf(),
    ensures
        final(reader).wf(),
        final(reader).bytes@ == old(reader).bytes@,
        match parse_u128(old(reader).rest()) {
            Some((v, rest)) => r is Ok && *final(u) == v && final(reader).rest() == rest,
            None => r == Err::<(), Error>(Error::EndOfBuffer) && *final(u) == *old(u),
        },
{
    if reader.remaining() < 16 {
        return Err(Error::EndOfBuffer);
    }
    let ghost s = reader.rest();
    let mut hi: u64 = 0;
    let mut lo: u64 = 0;
    let _ = read_u64(reader, &mut hi);
    let ghost after_hi = reader.rest();
    let _ = read_u64(reader, &mut lo);
    *u = ((hi as u128) << 64u128) | (lo as u128);
    proof {
        assert(s.take(16).subrange(0, 8) =~= s.take(8));
        assert(s.take(16).subrange(8, 16) =~= after_hi.take(8));
        assert(reader.rest() =~= s.skip(16));
    }
    Ok(())
}

/// Reads eight big-endian bytes as a `usize`; a value past `usize::MAX` is refused.
pub fn read_usize(reader: &mut Reader, u: &mut usize) -> (r: Result<(), Error>)
    requires
        old(reader).wf(),
    ensures
        final(reader).wf(),
        final(reader).bytes@ == old(reader).bytes@,
        match parse_u64(old(reader).rest()) {
            Some((v, rest)) => if v <= usize::MAX {
                r is Ok && *final(u) == v && final(reader).rest() == rest
            } else {
                r == Err::<(), Error>(Error::InvalidFormat)
            },
            None => r == Err::<(), Error>(Error::EndOfBuffer) && *final(u) == *old(u),
        },
{
    let mut v: u64 = 0;
    match read_u64(reader, &mut v) {
        Ok(_) => {
            if v > usize::MAX as u64 {
                return Err(Error::InvalidFormat);
            }
            *u = v as usize;
            Ok(())
        },
        Err(e) => Err(e),
    }
}

pub fn read_struct<U: Readable>(reader: &mut Reader, s: &mut U) -> (r: Result<(), Error>)
    requires
        old(reader).wf(),
    ensures
        final(reader).wf(),
        final(reader).bytes@ == old(reader).bytes@,
        match U::parse(old(reader).rest()) {
            Some((v, rest)) => r is Ok && final(s)@ == v && final(reader).rest() == rest,
            None => r matches Err(e) && codec_error(e) && *final(s) == *old(s),
        },
{
    match U::from_reader(reader) {
        Ok(v) => {
            *s = v;
            Ok(())
        },
        Err(e) => Err(e),
    }
}

pub fn read_vec_len(reader: &mut Reader, l: &mut usize) -> (r: Result<(), Error>)
    requires
        old(reader).wf(),
    ensures
        final(reader).wf(),
        final(reader).bytes@ == old(reader).bytes@,
        match parse_u32(old(reader).rest()) {
            Some((v, rest)) => r is Ok && *final(l) == v && final(reader).rest() == rest,
            None => r == Err::<(), Error>(Error::EndOfBuffer) && *final(l) == *old(l),
        },
{
    let mut n: u32 = 0;
    match read_u32(reader, &mut n) {
        Ok(_) => {
            *l = n as usize;
            Ok(())
        },
        Err(e) => Err(e),
    }
}

pub fn read_vec_struct<U: Readable>(reader: &mut Reader, v: &mut Vec<U>) -> (r: Result<(), Error>)
    requires
        old(reader).wf(),
    ensures
        final(reader).wf(),
        final(reader).bytes@ == old(reader).bytes@,
        match parse_vec::<U>(old(reader).rest()) {
            Some((xs, rest)) => r is Ok && views(final(v)@) == xs && final(reader).rest() == rest,
            None => r == Err::<(), Error>(Error::EndOfBuffer) && *final(v) == *old(v),
        },
{
    let mut len: usize = 0;
    if read_vec_len(reader, &mut len).is_err() {
        return Err(Error::EndOfBuffer);
    }
    let ghost r0 = reader.rest();
    let ghost whole = parse_items::<U>(len as nat, r0);
    let mut out: Vec<U> = Vec::new();
    let mut i: usize = 0;
    while i < len
        invariant
            i <= len,
            reader.wf(),
            reader.bytes@ == old(reader).bytes@,
            whole == parse_items::<U>(len as nat, r0),
            parse_vec::<U>(old(reader).rest()) == whole,
            whole == match parse_items::<U>((len - i) as nat, reader.rest()) {
                Some((xs, r2)) => Some((views(out@) + xs, r2)),
                None => None,
            },
        decreases len - i,
    {
        let ghost cur = reader.rest();
        let item = U::from_reader(reader);
        match item {
            Ok(x) => {
                proof {
                    assert(views(out@.push(x)) =~= views(out@).push(x@));
                    match parse_items::<U>((len - i - 1) as nat, reader.rest()) {
                        Some((xs, r2)) => {
                            assert(views(out@) + (seq![x@] + xs) =~= views(out@).push(x@) + xs);
                        },
                        None => {},
                    }
                }
                out.push(x);
                i = i + 1;
            },
            Err(_) => {
                return Err(Error::EndOfBuffer);
            },
        }
    }
    proof {
        assert(views(out@) + Seq::<U::V>::empty() =~= views(out@));
    }
    *v = out;
    Ok(())
}

pub fn read_vec_u32(reader: &mut Reader, v: &mut Vec<u32>) -> (r: Result<(), Error>)
    requires
        old(reader).wf(),
    ensures
        final(reader).wf(),
        final(reader).bytes@ == old(reader).bytes@,
        match parse_vec::<u32>(old(reader).rest()) {
            Some((xs, rest)) => r is Ok && views(final(v)@) == xs && final(reader).rest() == rest,
            None => r == Err::<(), Error>(Error::EndOfBuffer) && *final(v) == *old(v),
        },
{
    read_vec_struct(reader, v)
}

pub fn read_vec_u64(reader: &mut Reader, v: &mut Vec<u64>) -> (r: Result<(), Error>)
    requires
        old(reader).wf(),
    ensures
        final(reader).wf(),
        final(reader).bytes@ == old(reader).bytes@,
        match parse_vec::<u64>(old(reader).rest()) {
            Some((xs, rest)) => r is Ok && views(final(v)@) == xs && final(reader).rest() == rest,
            None => r == Err::<(), Error>(Error::EndOfBuffer) && *final(v) == *old(v),
        },
{
    read_vec_struct(reader, v)
}

pub fn read_vec_u128(reader: &mut Reader, v: &mut Vec<u128>) -> (r: Result<(), Error>)
    requires
        old(reader).wf(),
    ensures
        final(reader).wf(),
        final(reader).bytes@ == old(reader).bytes@,
        match parse_vec::<u128>(old(reader).rest()) {
            Some((xs, rest)) => r is Ok && views(final(v)@) == xs && final(reader).rest() == rest,
            None => r == Err::<(), Error>(Error::EndOfBuffer) && *final(v) == *old(v),
        },
{
    read_vec_struct(reader, v)
}

/// Reads a length-prefixed byte string.
pub fn read_bytes(reader: &mut Reader) -> (r: Result<Vec<u8>, Error>)
    requires
        old(reader).wf(),
    ensures
        final(reader).wf(),
        final(reader).bytes@ == old(reader).bytes@,
        match parse_bytes(old(reader).rest()) {
            Some((b, rest)) => r matches Ok(x) && x@ == b && final(reader).rest() == rest,
            None => r matches Err(e) && codec_error(e),
        },
{
    let mut len: usize = 0;
    if read_vec_len(reader, &mut len).is_err() {
        return Err(Error::EndOfBuffer);
    }
    if reader.remaining() < len {
        return Err(Error::InvalidFormat);
    }
    let ghost s = reader.rest();
    let _n = reader.bytes.len();
    let start = reader.pos;
    let mut out: Vec<u8> = Vec::new();
    let mut i: usize = 0;
    while i < len
        invariant
            i <= len,
            start + len <= _n,
            _n == reader.bytes@.len(),
            out@ == reader.bytes@.subrange(start as int, start + i),
        decreases len - i,
    {
        out.push(reader.bytes[start + i]);
        i = i + 1;
        assert(out@ =~= reader.bytes@.subrange(start as int, start + i));
    }
    reader.pos = start + len;
    proof {
        assert(out@ =~= s.take(len as int));
        assert(reader.rest() =~= s.skip(len as int));
    }
    Ok(out)
}

/// Relies on `String::from_utf8`: the bytes as text, or an error where they are not UTF-8.
#[verifier::external_body]
pub(crate) fn string_from_utf8(b: Vec<u8>) -> (r: Option<String>)
    ensures
        match r {
            Some(s) => valid_utf8(b@) && s@ == decode_utf8(b@),
            None => !valid_utf8(b@),
        },
{
    String::from_utf8(b).ok()
}

pub fn read_string(reader: &mut Reader, str: &mut String) -> (r: Result<(), Error>)
    requires
        old(reader).wf(),
    ensures
        final(reader).wf(),
        final(reader).bytes@ == old(reader).bytes@,
        match parse_bytes(old(reader).rest()) {
            Some((b, rest)) => if valid_utf8(b) {
                r is Ok && final(str)@ == decode_utf8(b) && final(reader).rest() == rest
            } else {
                r == Err::<(), Error>(Error::InvalidFormat) && *final(str) == *old(str)
            },
            None => r matches Err(e) && codec_error(e) && *final(str) == *old(str),
        },
{
    let b = match read_bytes(reader) {
        Ok(b) => b,
        Err(e) => return Err(e),
    };
    match string_from_utf8(b) {
        Some(s) => {
            *str = s;
            Ok(())
        },
        None => Err(Error::InvalidFormat),
    }
}

impl Readable for u32 {
    open spec fn parse(s: Seq<u8>) -> Option<(u32, Seq<u8>)> {
        parse_u32(s)
    }

    open spec fn fits(v: u32) -> bool {
        true
    }

    fn from_reader(reader: &mut Reader) -> (r: Result<u32, Error>) {
        let mut u: u32 = 0;
        match read_u32(reader, &mut u) {
            Ok(_) => Ok(u),
            Err(e) => Err(e),
        }
    }

    proof fn lemma_round_trip(v: u32, rest: Seq<u8>) {
        lemma_u32_round_trip(v, rest);
    }
}

impl Readable for u64 {
    open spec fn parse(s: Seq<u8>) -> Option<(u64, Seq<u8>)> {
        parse_u64(s)
    }

    open spec fn fits(v: u64) -> bool {
        true
    }

    fn from_reader(reader: &mut Reader) -> (r: Result<u64, Error>) {
        let mut u: u64 = 0;
        match read_u64(reader, &mut u) {
            Ok(_) => Ok(u),
            Err(e) => Err(e),
        }
    }

    proof fn lemma_round_trip(v: u64, rest: Seq<u8>) {
        lemma_u64_round_trip(v, rest);
    }
}

impl Readable for u128 {
    open spec fn parse(s: Seq<u8>) -> Option<(u128, Seq<u8>)> {
        parse_u128(s)
    }

    open spec fn fits(v: u128) -> bool {
        true
    }

    fn from_reader(reader: &mut Reader) -> (r: Result<u128, Error>) {
        let mut u: u128 = 0;
        match read_u128(reader, &mut u) {
            Ok(_) => Ok(u),
            Err(e) => Err(e),
        }
    }

    proof fn lemma_round_trip(v: u128, rest: Seq<u8>) {
        lemma_u128_round_trip(v, rest);
    }
}

} // verus!
