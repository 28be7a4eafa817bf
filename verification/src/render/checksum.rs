//! The two check values a PNG carries: CRC-32 over each chunk and Adler-32 over
//! the uncompressed image data.

use vstd::prelude::*;

verus! {

/// One step of the reflected CRC-32 division.
pub open spec fn crc_bit(c: u32) -> u32 {
    if c & 1 == 1 {
        (c >> 1) ^ 0xedb8_8320
    } else {
        c >> 1
    }
}

/// `n` division steps.
pub open spec fn crc_bits(c: u32, n: nat) -> u32
    decreases n,
{
    if n == 0 {
        c
    } else {
        crc_bit(crc_bits(c, (n - 1) as nat))
    }
}

/// The CRC register after `bytes` are fed to a register holding `c`.
pub open spec fn crc_feed(c: u32, bytes: Seq<u8>) -> u32
    decreases bytes.len(),
{
    if bytes.len() == 0 {
        c
    } else {
        crc_bits(crc_feed(c, bytes.drop_last()) ^ (bytes.last() as u32), 8)
    }
}

/// The CRC-32 of a byte string.
pub open spec fn crc32(bytes: Seq<u8>) -> u32 {
    !crc_feed(0xffff_ffff, bytes)
}

/// Feeding two runs one after the other is feeding them joined.
pub proof fn crc_feed_splits(c: u32, a: Seq<u8>, b: Seq<u8>)
    ensures
        crc_feed(crc_feed(c, a), b) == crc_feed(c, a + b),
    decreases b.len(),
{
    if b.len() == 0 {
        assert(a + b =~= a);
    } else {
        crc_feed_splits(c, a, b.drop_last());
        assert((a + b).drop_last() =~= a + b.drop_last());
    }
}

/// Running CRC-32, computed bitwise so there is no table to carry.
#[derive(Debug)]
pub struct Crc {
    register: u32,
}

impl Crc {
    /// What the register holds.
    pub closed spec fn register(&self) -> u32 {
        self.register
    }

    pub fn new() -> (crc: Self)
        ensures
            crc.register() == 0xffff_ffff,
    {
        Crc { register: 0xffff_ffff }
    }

    pub fn update(&mut self, bytes: &[u8])
        ensures
            final(self).register() == crc_feed(old(self).register(), bytes@),
    {
        let mut i: usize = 0;
        let ghost start = self.register;
        while i < bytes.len()
            invariant
                i <= bytes@.len(),
                self.register == crc_feed(start, bytes@.take(i as int)),
            decreases bytes@.len() - i,
        {
            let mut c: u32 = self.register ^ (bytes[i] as u32);
            let ghost fed = c;
            let mut k: u32 = 0;
            while k < 8
                invariant
                    k <= 8,
                    c == crc_bits(fed, k as nat),
                decreases 8 - k,
            {
                // The reflected CRC-32 polynomial.
                c = if c & 1 == 1 {
                    (c >> 1) ^ 0xedb8_8320
                } else {
                    c >> 1
                };
                k = k + 1;
            }
            self.register = c;
            assert(bytes@.take(i + 1).drop_last() =~= bytes@.take(i as int));
            i = i + 1;
        }
        assert(bytes@.take(i as int) =~= bytes@);
    }

    pub fn finish(self) -> (value: u32)
        ensures
            value == !self.register(),
    {
        !self.register
    }
}

/// The modulus Adler-32 reduces by: the largest prime below 2^16.
pub const ADLER_MOD: u32 = 65521;

/// The two Adler-32 sums over a byte string: the running sum of the bytes, and
/// the running sum of that sum.
pub open spec fn adler_sums(data: Seq<u8>) -> (nat, nat)
    decreases data.len(),
{
    if data.len() == 0 {
        (1, 0)
    } else {
        let (a, b) = adler_sums(data.drop_last());
        let a2 = (a + data.last() as nat) % 65521;
        (a2, (b + a2) % 65521)
    }
}

/// The Adler-32 of a byte string: the second sum above the first.
pub open spec fn adler(data: Seq<u8>) -> nat {
    adler_sums(data).1 * 65536 + adler_sums(data).0
}

proof fn adler_bound(b: int, k: int)
    by (nonlinear_arith)
    requires
        0 <= k <= 5552,
        2 * b <= 2 * 65520 + 2 * 65520 * k + 255 * (k * (k + 1)),
    ensures
        b <= 0xffff_ffff,
{
    assert(k * (k + 1) <= 5552 * 5553);
}

proof fn adler_growth(b: int, a: int, k: int)
    by (nonlinear_arith)
    requires
        0 <= k,
        a <= 65520 + 255 * (k + 1),
        2 * b <= 2 * 65520 + 2 * 65520 * k + 255 * (k * (k + 1)),
    ensures
        2 * (b + a) <= 2 * 65520 + 2 * 65520 * (k + 1) + 255 * ((k + 1) * (k + 2)),
{
}

pub fn adler32(data: &[u8]) -> (value: u32)
    ensures
        value == adler(data@),
{
    let mut a: u32 = 1;
    let mut b: u32 = 0;
    let mut i: usize = 0;
    while i < data.len()
        invariant
            i <= data@.len(),
            a < 65521,
            b < 65521,
            a == adler_sums(data@.take(i as int)).0,
            b == adler_sums(data@.take(i as int)).1,
        decreases data@.len() - i,
    {
        // Chunked so the accumulators cannot overflow before the reduction.
        let end: usize = if data.len() - i > 5552 {
            i + 5552
        } else {
            data.len()
        };
        let ghost begin = i;
        while i < end
            invariant
                begin <= i <= end <= data@.len(),
                end - begin <= 5552,
                a <= 65520 + 255 * (i - begin),
                2 * b <= 2 * 65520 + 2 * 65520 * (i - begin) + 255 * ((i - begin) * (i - begin + 1)),
                a as int % 65521 == adler_sums(data@.take(i as int)).0,
                b as int % 65521 == adler_sums(data@.take(i as int)).1,
            decreases end - i,
        {
            let ghost k = i - begin;
            let byte: u32 = data[i] as u32;
            a = a + byte;
            proof {
                adler_growth(b as int, a as int, k);
                adler_bound(b + a, k + 1);
                assert(data@.take(i + 1).drop_last() =~= data@.take(i as int));
            }
            b = b + a;
            i = i + 1;
        }
        a = a % ADLER_MOD;
        b = b % ADLER_MOD;
    }
    assert(data@.take(i as int) =~= data@);
    assert((b << 16) | a == b * 65536 + a) by (bit_vector)
        requires
            a < 65521,
            b < 65521,
    ;
    (b << 16) | a
}

/// A word's four bytes, most significant first.
pub open spec fn be32(v: u32) -> Seq<u8> {
    seq![(v >> 24) as u8, (v >> 16) as u8, (v >> 8) as u8, v as u8]
}

/// The word four bytes spell, most significant first.
pub open spec fn word_be(b0: u8, b1: u8, b2: u8, b3: u8) -> u32 {
    ((b0 as u32) << 24) | ((b1 as u32) << 16) | ((b2 as u32) << 8) | (b3 as u32)
}

/// Reading back a word's bytes gives the word.
pub proof fn word_be_reads_be32(v: u32)
    ensures
        word_be(be32(v)[0], be32(v)[1], be32(v)[2], be32(v)[3]) == v,
{
    assert((((v >> 24) as u8 as u32) << 24) | (((v >> 16) as u8 as u32) << 16) | (((v
        >> 8) as u8 as u32) << 8) | (v as u8 as u32) == v) by (bit_vector);
}

/// Append a word's bytes, most significant first.
pub fn push_be32(out: &mut Vec<u8>, v: u32)
    ensures
        final(out)@ == old(out)@ + be32(v),
{
    out.push((v >> 24) as u8);
    out.push((v >> 16) as u8);
    out.push((v >> 8) as u8);
    out.push(v as u8);
    assert(out@ =~= old(out)@ + be32(v));
}

/// The word at `at`, most significant byte first.
pub fn read_be32(bytes: &[u8], at: usize) -> (v: u32)
    requires
        at + 4 <= bytes@.len(),
    ensures
        v == word_be(
            bytes@[at as int],
            bytes@[at + 1],
            bytes@[at + 2],
            bytes@[at + 3],
        ),
{
    ((bytes[at] as u32) << 24) | ((bytes[at + 1] as u32) << 16) | ((bytes[at + 2] as u32) << 8) | (
    bytes[at + 3] as u32)
}

} // verus!
