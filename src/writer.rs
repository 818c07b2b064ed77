use vstd::prelude::*;
use vstd::utf8::encode_utf8;

verus! {

/// The four bytes of `x`, most significant first.
pub open spec fn be_u32(x: u32) -> Seq<u8> {
    seq![(x >> 24u32) as u8, (x >> 16u32) as u8, (x >> 8u32) as u8, x as u8]
}

/// The eight bytes of `x`, most significant first.
pub open spec fn be_u64(x: u64) -> Seq<u8> {
    be_u32((x >> 32u64) as u32) + be_u32(x as u32)
}

/// The sixteen bytes of `x`, most significant first.
pub open spec fn be_u128(x: u128) -> Seq<u8> {
    be_u64((x >> 64u128) as u64) + be_u64(x as u64)
}

/// The length prefix written before a sequence of `n` items.
pub open spec fn len_prefix(n: nat) -> Seq<u8> {
    be_u32(n as u32)
}

/// The concatenation of `f` applied to each item, in order.
pub open spec fn encode_each<T>(s: Seq<T>, f: spec_fn(T) -> Seq<u8>) -> Seq<u8>
    decreases s.len(),
{
    if s.len() == 0 {
        seq![]
    } else {
        f(s[0]) + encode_each(s.skip(1), f)
    }
}

pub proof fn lemma_encode_each_push<T>(s: Seq<T>, x: T, f: spec_fn(T) -> Seq<u8>)
    ensures
        encode_each(s.push(x), f) == encode_each(s, f) + f(x),
    decreases s.len(),
{
    if s.len() == 0 {
        assert(s.push(x).skip(1) =~= seq![]);
        assert(encode_each(s.push(x).skip(1), f) == Seq::<u8>::empty());
        assert(encode_each(s.push(x), f) =~= f(x));
    } else {
        assert(s.push(x).skip(1) =~= s.skip(1).push(x));
        lemma_encode_each_push(s.skip(1), x, f);
        assert(s.push(x)[0] == s[0]);
        assert(encode_each(s.push(x), f) =~= encode_each(s, f) + f(x));
    }
}

/// A value with a canonical byte form.
pub trait Writable: View + Sized {
    /// The canonical bytes of a value with view `v`.
    spec fn encode(v: Self::V) -> Seq<u8>;

    fn to_writer(&self, writer: &mut Vec<u8>)
        ensures
            final(writer)@ == old(writer)@ + Self::encode(self@),
    ;
}

/// Bytes of a sequence of values, each in its canonical form, without a length prefix.
pub open spec fn encode_items<U: Writable>(s: Seq<U::V>) -> Seq<u8> {
    encode_each(s, |v: U::V| U::encode(v))
}

/// Bytes of a length-prefixed sequence of values.
pub open spec fn encode_vec<U: Writable>(s: Seq<U::V>) -> Seq<u8> {
    len_prefix(s.len()) + encode_items::<U>(s)
}

/// The views of the items of `v`.
pub open spec fn views<U: View>(v: Seq<U>) -> Seq<U::V> {
    v.map_values(|x: U| x@)
}

pub proof fn lemma_concat2(a: Seq<u8>, b: Seq<u8>, rest: Seq<u8>)
    ensures
        a + b + rest == a + (b + rest),
{
    assert(a + b + rest =~= a + (b + rest));
}

pub proof fn lemma_concat4(a: Seq<u8>, b: Seq<u8>, c: Seq<u8>, d: Seq<u8>, rest: Seq<u8>)
    ensures
        a + b + c + d + rest == a + (b + (c + (d + rest))),
{
    assert(a + b + c + d + rest =~= a + (b + (c + (d + rest))));
}

pub proof fn lemma_concat3(a: Seq<u8>, b: Seq<u8>, c: Seq<u8>, rest: Seq<u8>)
    ensures
        a + b + c + rest == a + (b + (c + rest)),
{
    assert(a + b + c + rest =~= a + (b + (c + rest)));
}

/// Bytes of a length-prefixed byte string.
pub open spec fn encode_bytes(b: Seq<u8>) -> Seq<u8> {
    len_prefix(b.len()) + b
}

pub fn write_u32(writer: &mut Vec<u8>, u: u32)
    ensures
        final(writer)@ == old(writer)@ + be_u32(u),
{
    writer.push((u >> 24u32) as u8);
    writer.push((u >> 16u32) as u8);
    writer.push((u >> 8u32) as u8);
    writer.push(u as u8);
    assert(writer@ =~= old(writer)@ + be_u32(u));
}

pub fn write_u64(writer: &mut Vec<u8>, u: u64)
    ensures
        final(writer)@ == old(writer)@ + be_u64(u),
{
    write_u32(writer, (u >> 32u64) as u32);
    write_u32(writer, u as u32);
    assert(writer@ =~= old(writer)@ + be_u64(u));
}

pub fn write_u128(writer: &mut Vec<u8>, u: u128)
    ensures
        final(writer)@ == old(writer)@ + be_u128(u),
{
    write_u64(writer, (u >> 64u128) as u64);
    write_u64(writer, u as u64);
    assert(writer@ =~= old(writer)@ + be_u128(u));
}

pub fn write_struct<U: Writable>(writer: &mut Vec<u8>, s: &U)
    ensures
        final(writer)@ == old(writer)@ + U::encode(s@),
{
    s.to_writer(writer);
}

pub fn write_vec_u32(writer: &mut Vec<u8>, v: &Vec<u32>)
    ensures
        final(writer)@ == old(writer)@ + encode_vec::<u32>(views(v@)),
{
    write_vec_struct(writer, v);
}

pub fn write_vec_u64(writer: &mut Vec<u8>, v: &Vec<u64>)
    ensures
        final(writer)@ == old(writer)@ + encode_vec::<u64>(views(v@)),
{
    write_vec_struct(writer, v);
}

pub fn write_vec_u128(writer: &mut Vec<u8>, v: &Vec<u128>)
    ensures
        final(writer)@ == old(writer)@ + encode_vec::<u128>(views(v@)),
{
    write_vec_struct(writer, v);
}

pub fn write_vec_struct<U: Writable>(writer: &mut Vec<u8>, v: &Vec<U>)
    ensures
        final(writer)@ == old(writer)@ + encode_vec::<U>(views(v@)),
{
    write_u32(writer, v.len() as u32);
    let ghost start = writer@;
    let mut i: usize = 0;
    while i < v.len()
        invariant
            i <= v@.len(),
            start == old(writer)@ + len_prefix(v@.len()),
            writer@ == start + encode_items::<U>(views(v@).take(i as int)),
        decreases v@.len() - i,
    {
        proof {
            lemma_encode_each_push(views(v@).take(i as int), v@[i as int]@, |x: U::V| U::encode(x));
            assert(views(v@).take(i as int).push(v@[i as int]@) =~= views(v@).take(i + 1));
        }
        write_struct(writer, &v[i]);
        i = i + 1;
    }
    assert(views(v@).take(i as int) =~= views(v@));
}

/// Writes `b` after its length.
pub fn write_bytes(writer: &mut Vec<u8>, b: &[u8])
    ensures
        final(writer)@ == old(writer)@ + encode_bytes(b@),
{
    write_u32(writer, b.len() as u32);
    let ghost start = writer@;
    let mut i: usize = 0;
    while i < b.len()
        invariant
            i <= b@.len(),
            start == old(writer)@ + len_prefix(b@.len()),
            writer@ == start + b@.take(i as int),
        decreases b@.len() - i,
    {
        writer.push(b[i]);
        i = i + 1;
        assert(writer@ =~= start + b@.take(i as int));
    }
    assert(b@.take(i as int) =~= b@);
}

pub fn write_string(writer: &mut Vec<u8>, s: String)
    ensures
        final(writer)@ == old(writer)@ + encode_bytes(encode_utf8(s@)),
{
    write_bytes(writer, s.as_str().as_bytes());
}

impl Writable for u32 {
    open spec fn encode(v: u32) -> Seq<u8> {
        be_u32(v)
    }

    fn to_writer(&self, writer: &mut Vec<u8>) {
        write_u32(writer, *self);
    }
}

impl Writable for u64 {
    open spec fn encode(v: u64) -> Seq<u8> {
        be_u64(v)
    }

    fn to_writer(&self, writer: &mut Vec<u8>) {
        write_u64(writer, *self);
    }
}

impl Writable for u128 {
    open spec fn encode(v: u128) -> Seq<u8> {
        be_u128(v)
    }

    fn to_writer(&self, writer: &mut Vec<u8>) {
        write_u128(writer, *self);
    }
}

} // verus!
