use vstd::prelude::*;
use vstd::utf8::encode_utf8;

use crate::error::Error;
use crate::reader::{lemma_bytes_round_trip, parse_bytes, read_bytes, Reader, Readable};
use crate::writer::{encode_bytes, write_bytes, Writable};

verus! {

/// The ASCII decimal digits of `n`, most significant first, without leading zeros.
pub open spec fn decimal_bytes(n: nat) -> Seq<u8>
    decreases n,
{
    if n < 10 {
        seq![(48 + n) as u8]
    } else {
        decimal_bytes(n / 10).push((48 + n % 10) as u8)
    }
}

/// Whether `b` is a non-empty run of ASCII decimal digits.
pub open spec fn is_digits(b: Seq<u8>) -> bool {
    b.len() > 0 && forall|i: int| 0 <= i < b.len() ==> 48 <= #[trigger] b[i] <= 57
}

/// The number that the ASCII digits `b` spell.
pub open spec fn digits_value(b: Seq<u8>) -> nat
    decreases b.len(),
{
    if b.len() == 0 {
        0
    } else {
        digits_value(b.drop_last()) * 10 + (b.last() - 48) as nat
    }
}

pub open spec fn pow10(k: nat) -> nat
    decreases k,
{
    if k == 0 {
        1
    } else {
        10 * pow10((k - 1) as nat)
    }
}

pub proof fn lemma_decimal_round_trip(n: nat)
    ensures
        is_digits(decimal_bytes(n)),
        digits_value(decimal_bytes(n)) == n,
    decreases n,
{
    let b = decimal_bytes(n);
    if n >= 10 {
        lemma_decimal_round_trip(n / 10);
        assert(b.drop_last() =~= decimal_bytes(n / 10));
        assert(b.last() == (48 + n % 10) as u8);
        assert((b.last() - 48) as nat == n % 10);
        assert((n / 10) * 10 + n % 10 == n);
    } else {
        assert(b.drop_last() =~= Seq::<u8>::empty());
        assert(b.last() == (48 + n) as u8);
        assert(digits_value(b.drop_last()) == 0);
    }
}

pub proof fn lemma_decimal_len(n: nat, k: nat)
    requires
        n < pow10(k),
        k >= 1,
    ensures
        decimal_bytes(n).len() <= k,
    decreases n,
{
    if n >= 10 {
        if k == 1 {
            assert(pow10(1) == 10) by {
                reveal_with_fuel(pow10, 2);
            }
        }
        assert(n / 10 < pow10((k - 1) as nat));
        lemma_decimal_len(n / 10, (k - 1) as nat);
    }
}

/// A prefix of a run of digits spells at most the whole.
pub proof fn lemma_digits_prefix(b: Seq<u8>, i: int)
    requires
        0 <= i <= b.len(),
        forall|j: int| 0 <= j < b.len() ==> 48 <= #[trigger] b[j] <= 57,
    ensures
        digits_value(b.take(i)) <= digits_value(b),
    decreases b.len(),
{
    if i < b.len() {
        assert(b.drop_last().take(i) =~= b.take(i));
        lemma_digits_prefix(b.drop_last(), i);
        assert(digits_value(b.drop_last()) <= digits_value(b)) by (nonlinear_arith)
            requires
                digits_value(b) == digits_value(b.drop_last()) * 10 + (b.last() - 48) as nat,
        ;
    } else {
        assert(b.take(i) =~= b);
    }
}

/// ASCII bytes read as characters encode back to themselves.
proof fn lemma_ascii_encode(b: Seq<u8>)
    requires
        forall|i: int| 0 <= i < b.len() ==> #[trigger] b[i] < 128,
    ensures
        encode_utf8(b.map_values(|x: u8| x as char)) == b,
    decreases b.len(),
{
    let chars = b.map_values(|x: u8| x as char);
    if b.len() > 0 {
        let rest = b.drop_first();
        assert(chars.drop_first() =~= rest.map_values(|x: u8| x as char));
        lemma_ascii_encode(rest);
        assert(b[0] < 128);
        assert((chars[0] as u32) == b[0] as u32);
        let c = b[0] as u32;
        assert(c < 128 ==> ((c & 0x7F) as u8) == c as u8) by (bit_vector);
        assert(vstd::utf8::encode_scalar(chars[0] as u32) =~= seq![b[0]]);
        assert(encode_utf8(chars) == vstd::utf8::encode_scalar(chars[0] as u32) + encode_utf8(
            chars.drop_first(),
        ));
        assert(encode_utf8(chars) =~= b);
    }
}

/// An amount of money: a whole number of units.
#[derive(Debug, Clone, Copy, PartialEq, Eq, Structural)]
pub struct Num {
    pub value: u128,
}

impl View for Num {
    type V = Num;

    open spec fn view(&self) -> Num {
        *self
    }
}

impl Num {
    pub fn from_u64(u: u64) -> (r: Num)
        ensures
            r.value == u,
    {
        Num { value: u as u128 }
    }

    pub fn zero() -> (r: Num)
        ensures
            r.value == 0,
    {
        Num { value: 0 }
    }

    /// The decimal form of the amount.
    pub fn to_string(&self) -> (r: String)
        ensures
            r@ == decimal_bytes(self.value as nat).map_values(|b: u8| b as char),
    {
        let mut digits: Vec<u8> = Vec::new();
        push_decimal(&mut digits, self.value);
        proof {
            let d = decimal_bytes(self.value as nat);
            assert(digits@ =~= d);
            lemma_decimal_round_trip(self.value as nat);
            assert forall|i: int| 0 <= i < d.len() implies #[trigger] d[i] < 128 by {
                assert(48 <= d[i] <= 57);
            }
            lemma_ascii_encode(d);
            vstd::utf8::encode_utf8_valid_utf8(d.map_values(|b: u8| b as char));
            vstd::utf8::encode_utf8_decode_utf8(d.map_values(|b: u8| b as char));
        }
        match crate::reader::string_from_utf8(digits) {
            Some(s) => s,
            None => String::new(),
        }
    }

    /// The sum, or `None` where it does not fit.
    pub fn checked_add(&self, other: &Num) -> (r: Option<Num>)
        ensures
            match r {
                Some(n) => n.value == self.value + other.value,
                None => self.value + other.value > u128::MAX,
            },
    {
        if self.value > u128::MAX - other.value {
            None
        } else {
            Some(Num { value: self.value + other.value })
        }
    }

    pub fn sub(&self, other: &Num) -> (r: Num)
        requires
            other.value <= self.value,
        ensures
            r.value == self.value - other.value,
    {
        Num { value: self.value - other.value }
    }

    pub fn to_bytes(&self) -> (r: Vec<u8>)
        ensures
            r@ == Self::encode(*self),
    {
        let mut bytes: Vec<u8> = Vec::new();
        self.to_writer(&mut bytes);
        assert(bytes@ =~= Self::encode(*self));
        bytes
    }

    pub fn from_bytes(bytes: &Vec<u8>) -> (r: Result<Num, Error>)
        ensures
            match Self::parse(bytes@) {
                Some((v, _)) => r == Ok::<Num, Error>(v),
                None => r matches Err(e) && crate::reader::codec_error(e),
            },
    {
        let mut reader = Reader::new(bytes.clone());
        Self::from_reader(&mut reader)
    }
}

/// Appends the decimal digits of `v`.
fn push_decimal(out: &mut Vec<u8>, v: u128)
    ensures
        final(out)@ == old(out)@ + decimal_bytes(v as nat),
    decreases v,
{
    if v >= 10 {
        push_decimal(out, v / 10);
    }
    out.push(48 + (v % 10) as u8);
    assert(out@ =~= old(out)@ + decimal_bytes(v as nat));
}

/// The value of the decimal digits `b`, or `None` where `b` is not digits or does not fit.
fn parse_decimal(b: &Vec<u8>) -> (r: Option<u128>)
    ensures
        match r {
            Some(v) => is_digits(b@) && v == digits_value(b@),
            None => !(is_digits(b@) && digits_value(b@) <= u128::MAX),
        },
{
    if b.len() == 0 {
        return None;
    }
    let mut v: u128 = 0;
    let mut i: usize = 0;
    while i < b.len()
        invariant
            i <= b@.len(),
            forall|j: int| 0 <= j < i ==> 48 <= #[trigger] b@[j] <= 57,
            v == digits_value(b@.take(i as int)),
        decreases b@.len() - i,
    {
        let c = b[i];
        if c < 48 || c > 57 {
            return None;
        }
        let d = (c - 48) as u128;
        assert(b@.take(i + 1).drop_last() =~= b@.take(i as int));
        if v > (u128::MAX - d) / 10 {
            proof {
                assert(digits_value(b@.take(i + 1)) > u128::MAX) by (nonlinear_arith)
                    requires
                        digits_value(b@.take(i + 1)) == v * 10 + d,
                        v > (u128::MAX - d) / 10,
                        d <= 9,
                ;
                if is_digits(b@) {
                    lemma_digits_prefix(b@, i + 1);
                }
            }
            return None;
        }
        v = v * 10 + d;
        i = i + 1;
    }
    assert(b@.take(i as int) =~= b@);
    Some(v)
}

impl Writable for Num {
    open spec fn encode(v: Num) -> Seq<u8> {
        encode_bytes(decimal_bytes(v.value as nat))
    }

    fn to_writer(&self, writer: &mut Vec<u8>) {
        let mut digits: Vec<u8> = Vec::new();
        push_decimal(&mut digits, self.value);
        assert(digits@ =~= decimal_bytes(self.value as nat));
        write_bytes(writer, digits.as_slice());
    }
}

impl Readable for Num {
    open spec fn parse(s: Seq<u8>) -> Option<(Num, Seq<u8>)> {
        match parse_bytes(s) {
            Some((b, r)) => if is_digits(b) && digits_value(b) <= u128::MAX {
                Some((Num { value: digits_value(b) as u128 }, r))
            } else {
                None
            },
            None => None,
        }
    }

    open spec fn fits(v: Num) -> bool {
        true
    }

    fn from_reader(reader: &mut Reader) -> (r: Result<Num, Error>) {
        let b = match read_bytes(reader) {
            Ok(b) => b,
            Err(_) => return Err(Error::InvalidFormat),
        };
        match parse_decimal(&b) {
            Some(v) => Ok(Num { value: v }),
            None => Err(Error::InvalidFormat),
        }
    }

    proof fn lemma_round_trip(v: Num, rest: Seq<u8>) {
        let b = decimal_bytes(v.value as nat);
        lemma_decimal_round_trip(v.value as nat);
        assert(v.value < pow10(39)) by {
            reveal_with_fuel(pow10, 40);
        }
        lemma_decimal_len(v.value as nat, 39);
        lemma_bytes_round_trip(b, rest);
    }
}

} // verus!
