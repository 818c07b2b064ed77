use vstd::prelude::*;

use crate::error::Error;
use crate::reader::{parse_u128, read_u128, Reader, Readable};
use crate::writer::{be_u128, write_u128, Writable};

verus! {

/// Relies on `std::time::SystemTime`: the time since the UNIX epoch, in whole seconds and the
/// milliseconds after them (a clock set before the epoch reads as the epoch).
#[verifier::external_body]
fn clock_since_epoch() -> (r: (u64, u32))
    ensures
        r.1 < 1000,
{
    match std::time::SystemTime::now().duration_since(std::time::UNIX_EPOCH) {
        Ok(d) => (d.as_secs(), d.subsec_millis()),
        Err(_) => (0, 0),
    }
}

/// A point in time: milliseconds since the UNIX epoch.
#[derive(Debug, Clone, Copy, PartialEq, Eq, Structural)]
pub struct Time {
    pub millis: u128,
}

impl View for Time {
    type V = Time;

    open spec fn view(&self) -> Time {
        *self
    }
}

impl Time {
    pub fn zero() -> (r: Time)
        ensures
            r.millis == 0,
    {
        Time { millis: 0 }
    }

    pub fn from_second(secs: u64) -> (r: Time)
        ensures
            r.millis == secs * 1000,
    {
        Time { millis: (secs as u128) * 1000 }
    }

    /// The current time of the system clock.
    pub fn now() -> (r: Time) {
        let (secs, subsec_millis) = clock_since_epoch();
        Time { millis: (secs as u128) * 1000 + (subsec_millis as u128) }
    }

    /// The whole seconds since the epoch.
    pub fn secs(&self) -> (r: u128)
        ensures
            r == self.millis / 1000,
    {
        self.millis / 1000
    }

    /// The milliseconds after the whole seconds.
    pub fn subsec_millis(&self) -> (r: u32)
        ensures
            r == self.millis % 1000,
    {
        (self.millis % 1000) as u32
    }

    pub fn to_u128(&self) -> (r: u128)
        ensures
            r == self.millis,
    {
        self.millis
    }

    pub fn from_u128(u: u128) -> (r: Time)
        ensures
            r.millis == u,
    {
        Time { millis: u }
    }

    /// The sixteen big-endian bytes of the milliseconds since the epoch.
    pub fn to_bytes(&self) -> (r: [u8; 16])
        ensures
            r@ == be_u128(self.millis),
    {
        let mut v: Vec<u8> = Vec::new();
        write_u128(&mut v, self.millis);
        let mut a: [u8; 16] = [0u8; 16];
        let mut i: usize = 0;
        while i < 16
            invariant
                i <= 16,
                v@.len() == 16,
                forall|j: int| 0 <= j < i ==> a@[j] == v@[j],
            decreases 16 - i,
        {
            a[i] = v[i];
            i = i + 1;
        }
        assert(a@ =~= v@);
        a
    }

    pub fn from_bytes(bytes: [u8; 16]) -> (r: Time)
        ensures
            r.millis == crate::reader::u128_of(bytes@),
    {
        let mut v: Vec<u8> = Vec::new();
        let mut i: usize = 0;
        while i < 16
            invariant
                i <= 16,
                bytes@.len() == 16,
                v@ == bytes@.take(i as int),
            decreases 16 - i,
        {
            v.push(bytes[i]);
            i = i + 1;
            assert(v@ =~= bytes@.take(i as int));
        }
        let mut reader = Reader::new(v);
        let mut u: u128 = 0;
        let _ = read_u128(&mut reader, &mut u);
        assert(bytes@.take(16) =~= bytes@);
        Time::from_u128(u)
    }
}

impl Writable for Time {
    open spec fn encode(v: Time) -> Seq<u8> {
        be_u128(v.millis)
    }

    fn to_writer(&self, writer: &mut Vec<u8>) {
        write_u128(writer, self.millis);
    }
}

impl Readable for Time {
    open spec fn parse(s: Seq<u8>) -> Option<(Time, Seq<u8>)> {
        match parse_u128(s) {
            Some((u, r)) => Some((Time { millis: u }, r)),
            None => None,
        }
    }

    open spec fn fits(v: Time) -> bool {
        true
    }

    fn from_reader(reader: &mut Reader) -> (r: Result<Time, Error>) {
        let mut u: u128 = 0;
        match read_u128(reader, &mut u) {
            Ok(_) => Ok(Time::from_u128(u)),
            Err(_) => Err(Error::InvalidFormat),
        }
    }

    proof fn lemma_round_trip(v: Time, rest: Seq<u8>) {
        crate::reader::lemma_u128_round_trip(v.millis, rest);
    }
}

} // verus!
