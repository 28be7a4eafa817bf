//! Bit streams as deflate packs them: bytes filled from the least significant
//! bit, plain values least significant bit first, Huffman codes most
//! significant first.

use vstd::arithmetic::power2::*;
use vstd::prelude::*;

verus! {

/// Bit `i` of a byte, counted from the least significant.
pub open spec fn byte_bit(byte: u8, i: int) -> bool {
    (byte >> (i as u8)) & 1 == 1
}

/// The bits a run of bytes holds, in stream order.
pub open spec fn stream_bits(bytes: Seq<u8>) -> Seq<bool> {
    Seq::new(8 * bytes.len(), |i: int| byte_bit(bytes[i / 8], i % 8))
}

/// The low `n` bits of a value, least significant first.
pub open spec fn value_bits(value: u32, n: nat) -> Seq<bool> {
    Seq::new(n, |i: int| (value >> (i as u32)) & 1 == 1)
}

/// The low `n` bits of a code, most significant first.
pub open spec fn code_bits(code: u32, n: nat) -> Seq<bool> {
    Seq::new(n, |i: int| (code >> ((n - 1 - i) as u32)) & 1 == 1)
}

/// The number a run of bits spells, least significant first.
pub open spec fn bits_number(bits: Seq<bool>) -> nat
    decreases bits.len(),
{
    if bits.len() == 0 {
        0
    } else {
        bits_number(bits.drop_last()) + if bits.last() {
            pow2((bits.len() - 1) as nat)
        } else {
            0
        }
    }
}

/// The byte whose bits are the eight at `at`, absent ones read as zero.
pub open spec fn byte_from_bits(bits: Seq<bool>, at: int) -> u8 {
    let bit = |k: int|
        if at + k < bits.len() && bits[at + k] {
            1u8
        } else {
            0u8
        };
    bit(0) | (bit(1) << 1) | (bit(2) << 2) | (bit(3) << 3) | (bit(4) << 4) | (bit(5) << 5) | (bit(6)
        << 6) | (bit(7) << 7)
}

/// Bits packed into whole bytes, the last one padded with zeros.
pub open spec fn pack_bits(bits: Seq<bool>) -> Seq<u8> {
    Seq::new(((bits.len() + 7) / 8) as nat, |k: int| byte_from_bits(bits, 8 * k))
}

/// `bits` holds `part` at position `p`.
pub open spec fn holds_at(bits: Seq<bool>, p: int, part: Seq<bool>) -> bool {
    &&& 0 <= p
    &&& p + part.len() <= bits.len()
    &&& forall|i: int| 0 <= i < part.len() ==> bits[p + i] == #[trigger] part[i]
}

pub proof fn holds_at_splits(bits: Seq<bool>, p: int, a: Seq<bool>, b: Seq<bool>)
    requires
        holds_at(bits, p, a + b),
    ensures
        holds_at(bits, p, a),
        holds_at(bits, p + a.len(), b),
{
    assert forall|i: int| 0 <= i < a.len() implies bits[p + i] == #[trigger] a[i] by {
        assert((a + b)[i] == a[i]);
    }
    assert forall|i: int| 0 <= i < b.len() implies bits[p + a.len() + i] == #[trigger] b[i] by {
        assert((a + b)[a.len() + i] == b[i]);
    }
}

/// Eight given bits, as a byte, read back as those bits.
proof fn byte_of_eight(b0: bool, b1: bool, b2: bool, b3: bool, b4: bool, b5: bool, b6: bool, b7: bool, byte: u8)
    by (bit_vector)
    requires
        byte == (if b0 { 1u8 } else { 0u8 }) | ((if b1 { 1u8 } else { 0u8 }) << 1) | ((if b2 { 1u8 } else { 0u8 }) << 2)
            | ((if b3 { 1u8 } else { 0u8 }) << 3) | ((if b4 { 1u8 } else { 0u8 }) << 4) | ((if b5 { 1u8 } else { 0u8 })
            << 5) | ((if b6 { 1u8 } else { 0u8 }) << 6) | ((if b7 { 1u8 } else { 0u8 }) << 7),
    ensures
        ((byte >> 0) & 1 == 1) == b0,
        ((byte >> 1) & 1 == 1) == b1,
        ((byte >> 2) & 1 == 1) == b2,
        ((byte >> 3) & 1 == 1) == b3,
        ((byte >> 4) & 1 == 1) == b4,
        ((byte >> 5) & 1 == 1) == b5,
        ((byte >> 6) & 1 == 1) == b6,
        ((byte >> 7) & 1 == 1) == b7,
{
}

/// Two bytes with the same bits are the same byte.
proof fn byte_by_bits(x: u8, y: u8)
    by (bit_vector)
    requires
        (x >> 0) & 1 == (y >> 0) & 1,
        (x >> 1) & 1 == (y >> 1) & 1,
        (x >> 2) & 1 == (y >> 2) & 1,
        (x >> 3) & 1 == (y >> 3) & 1,
        (x >> 4) & 1 == (y >> 4) & 1,
        (x >> 5) & 1 == (y >> 5) & 1,
        (x >> 6) & 1 == (y >> 6) & 1,
        (x >> 7) & 1 == (y >> 7) & 1,
    ensures
        x == y,
{
}

proof fn bit_is_zero_or_one(x: u8)
    by (bit_vector)
    ensures
        forall|s: u8| s < 8 ==> #[trigger] (x >> s) & 1 == 0 || (x >> s) & 1 == 1,
{
}

/// A byte made from bits holds exactly those bits.
pub proof fn byte_from_bits_holds(bits: Seq<bool>, at: int, k: int)
    requires
        0 <= k < 8,
    ensures
        byte_bit(byte_from_bits(bits, at), k) == (at + k < bits.len() && bits[at + k]),
{
    let g = |j: int| at + j < bits.len() && bits[at + j];
    byte_of_eight(g(0), g(1), g(2), g(3), g(4), g(5), g(6), g(7), byte_from_bits(bits, at));
}

/// Packing bits into bytes and reading them back gives the bits, then the
/// padding.
pub proof fn packed_bits_read_back(bits: Seq<bool>)
    ensures
        stream_bits(pack_bits(bits)).len() == 8 * ((bits.len() + 7) / 8),
        holds_at(stream_bits(pack_bits(bits)), 0, bits),
{
    let s = stream_bits(pack_bits(bits));
    assert forall|i: int| 0 <= i < bits.len() implies s[0 + i] == #[trigger] bits[i] by {
        byte_from_bits_holds(bits, 8 * (i / 8), i % 8);
    }
}

/// Packed bits lead the stream of whatever bytes begin with them.
pub proof fn packed_bits_lead(bits: Seq<bool>, tail: Seq<u8>)
    ensures
        holds_at(stream_bits(pack_bits(bits) + tail), 0, bits),
{
    let packed = pack_bits(bits);
    packed_bits_read_back(bits);
    assert forall|i: int| 0 <= i < bits.len() implies stream_bits(packed + tail)[0 + i]
        == #[trigger] bits[i] by {
        assert((packed + tail)[i / 8] == packed[i / 8]);
        assert(stream_bits(packed)[0 + i] == bits[i]);
    }
}

/// Whole bytes whose stream begins with `bits`, and holds zeros after it within
/// the last byte, are the packing of `bits`.
pub proof fn packing_is_unique(bytes: Seq<u8>, bits: Seq<bool>)
    requires
        bytes.len() == (bits.len() + 7) / 8,
        forall|i: int|
            0 <= i < 8 * bytes.len() ==> #[trigger] stream_bits(bytes)[i] == (i < bits.len()
                && bits[i]),
    ensures
        bytes == pack_bits(bits),
{
    assert forall|k: int| 0 <= k < bytes.len() implies bytes[k] == #[trigger] pack_bits(bits)[k] by {
        let x = bytes[k];
        let y = byte_from_bits(bits, 8 * k);
        assert forall|j: int| 0 <= j < 8 implies byte_bit(x, j) == #[trigger] byte_bit(y, j) by {
            byte_from_bits_holds(bits, 8 * k, j);
            assert(stream_bits(bytes)[8 * k + j] == byte_bit(x, j));
        }
        bit_is_zero_or_one(x);
        bit_is_zero_or_one(y);
        assert(byte_bit(x, 0) == byte_bit(y, 0));
        assert(byte_bit(x, 1) == byte_bit(y, 1));
        assert(byte_bit(x, 2) == byte_bit(y, 2));
        assert(byte_bit(x, 3) == byte_bit(y, 3));
        assert(byte_bit(x, 4) == byte_bit(y, 4));
        assert(byte_bit(x, 5) == byte_bit(y, 5));
        assert(byte_bit(x, 6) == byte_bit(y, 6));
        assert(byte_bit(x, 7) == byte_bit(y, 7));
        byte_by_bits(x, y);
    }
    assert(bytes =~= pack_bits(bits));
}

/// Bits go out least significant first, except Huffman codes, which deflate
/// packs most significant first.
pub struct BitWriter {
    out: Vec<u8>,
    acc: u32,
    n: u32,
}

proof fn accumulate(acc: u32, n: u32, value: u32, count: u32, i: u32)
    by (bit_vector)
    requires
        n < 8,
        count <= 16,
        acc >> n == 0,
        i < n + count,
    ensures
        ((acc | ((value & (((1u32 << count) - 1) as u32)) << n)) >> i) & 1 == if i < n {
            (acc >> i) & 1
        } else {
            (value >> ((i - n) as u32)) & 1
        },
{
}

proof fn accumulate_top(acc: u32, n: u32, value: u32, count: u32)
    by (bit_vector)
    requires
        n < 8,
        count <= 16,
        acc >> n == 0,
    ensures
        (acc | ((value & (((1u32 << count) - 1) as u32)) << n)) >> ((n + count) as u32) == 0,
        (1u32 << count) >= 1,
{
}

proof fn flush(acc: u32, n: u32, i: u32)
    by (bit_vector)
    requires
        8 <= n < 24,
        acc >> n == 0,
        i < n,
    ensures
        i < 8 ==> (((acc as u8) >> (i as u8)) & 1 == 1) == ((acc >> i) & 1 == 1),
        i >= 8 ==> ((acc >> 8) >> ((i - 8) as u32)) & 1 == (acc >> i) & 1,
        (acc >> 8) >> ((n - 8) as u32) == 0,
{
}

proof fn flush_last(acc: u32, n: u32, i: u32)
    by (bit_vector)
    requires
        n < 8,
        acc >> n == 0,
        i < 8,
    ensures
        (((acc as u8) >> (i as u8)) & 1 == 1) == (i < n && (acc >> i) & 1 == 1),
{
}

impl BitWriter {
    /// Every bit written so far, those of the bytes it began with among them.
    pub closed spec fn written(&self) -> Seq<bool> {
        stream_bits(self.out@) + value_bits(self.acc, self.n as nat)
    }

    pub closed spec fn wf(&self) -> bool {
        self.n < 8 && self.acc >> self.n == 0
    }

    /// A writer that appends to `out`.
    pub fn new(out: Vec<u8>) -> (w: Self)
        ensures
            w.wf(),
            w.written() == stream_bits(out@),
    {
        assert(0u32 >> 0u32 == 0) by (bit_vector);
        let w = BitWriter { out, acc: 0, n: 0 };
        assert(w.written() =~= stream_bits(out@));
        w
    }

    /// Write the low `count` bits of `value`.
    pub fn bits(&mut self, value: u32, count: u32)
        requires
            old(self).wf(),
            count <= 16,
        ensures
            final(self).wf(),
            final(self).written() == old(self).written() + value_bits(value, count as nat),
    {
        let ghost before = self.written();
        let ghost n0 = self.n;
        let ghost acc0 = self.acc;
        let ghost out0 = self.out@;
        proof {
            accumulate_top(acc0, n0, value, count);
            assert(1u32 << count <= 65536) by (bit_vector)
                requires
                    count <= 16,
            ;
        }
        self.acc = self.acc | ((value & ((1u32 << count) - 1)) << self.n);
        self.n = self.n + count;
        proof {
            let now = self.written();
            assert forall|i: int| 0 <= i < now.len() implies now[i] == (before + value_bits(
                value,
                count as nat,
            ))[i] by {
                let j = i - 8 * out0.len();
                if j >= 0 {
                    accumulate(acc0, n0, value, count, j as u32);
                }
            }
            assert(now =~= before + value_bits(value, count as nat));
        }
        let ghost all = self.written();
        while self.n >= 8
            invariant
                self.n < 24,
                self.acc >> self.n == 0,
                self.written() == all,
            decreases self.n,
        {
            let ghost acc1 = self.acc;
            let ghost n1 = self.n;
            let ghost out1 = self.out@;
            self.out.push(self.acc as u8);
            self.acc = self.acc >> 8;
            self.n = self.n - 8;
            proof {
                flush(acc1, n1, 0);
                let now = self.written();
                assert forall|i: int| 0 <= i < now.len() implies now[i] == all[i] by {
                    let j = i - 8 * out1.len();
                    if j >= 0 {
                        flush(acc1, n1, j as u32);
                    } else {
                        assert(self.out@[i / 8] == out1[i / 8]);
                    }
                }
                assert(now =~= all);
            }
        }
    }

    /// Write a Huffman code, whose bits are defined most significant first.
    pub fn code(&mut self, code: u32, count: u32)
        requires
            old(self).wf(),
            count <= 16,
        ensures
            final(self).wf(),
            final(self).written() == old(self).written() + code_bits(code, count as nat),
    {
        let ghost before = self.written();
        let mut i: u32 = count;
        assert(code_bits(code, count as nat).take(0) =~= Seq::<bool>::empty());
        assert(before + code_bits(code, count as nat).take(0) =~= before);
        while i > 0
            invariant
                self.wf(),
                i <= count <= 16,
                self.written() == before + code_bits(code, count as nat).take(count - i),
            decreases i,
        {
            i = i - 1;
            let ghost prior = self.written();
            self.bits((code >> i) & 1, 1);
            proof {
                let all = code_bits(code, count as nat);
                assert(((code >> i) & 1) >> 0u32 & 1 == (code >> i) & 1) by (bit_vector);
                assert(value_bits((code >> i) & 1, 1) =~= seq![all[count - 1 - i]]);
                assert(all.take(count - i) =~= all.take(count - 1 - i).push(all[count - 1 - i]));
                assert(self.written() =~= before + all.take(count - i));
            }
        }
        assert(code_bits(code, count as nat).take(count - 0) =~= code_bits(code, count as nat));
    }

    /// Pad the last byte with zeros and hand the bytes over.
    pub fn finish(self) -> (bytes: Vec<u8>)
        requires
            self.wf(),
        ensures
            bytes@ == pack_bits(self.written()),
    {
        let ghost all = self.written();
        let ghost acc = self.acc;
        let ghost n = self.n;
        let ghost out0 = self.out@;
        let mut out = self.out;
        if self.n > 0 {
            out.push(self.acc as u8);
        }
        proof {
            assert forall|i: int| 0 <= i < 8 * out@.len() implies #[trigger] stream_bits(out@)[i] == (i
                < all.len() && all[i]) by {
                let j = i - 8 * out0.len();
                if j >= 0 {
                    flush_last(acc, n, j as u32);
                } else {
                    assert(out@[i / 8] == out0[i / 8]);
                }
            }
            packing_is_unique(out@, all);
        }
        out
    }
}

/// What reading `n` bits at `p` gives: the number they spell and the position
/// behind them, or nothing where the stream ends first.
pub open spec fn take_bits(bits: Seq<bool>, p: int, n: nat) -> Option<(nat, int)> {
    if p + n <= bits.len() {
        Some((bits_number(bits.subrange(p, p + n)), p + n))
    } else {
        None
    }
}

proof fn set_bit(out: u32, i: u32)
    by (bit_vector)
    requires
        i < 16,
        out < 1u32 << i,
    ensures
        out | (1u32 << i) == out + (1u32 << i),
        out | (0u32 << i) == out,
        out + (1u32 << i) < (1u32 << ((i + 1) as u32)),
        (1u32 << i) <= (1u32 << ((i + 1) as u32)),
{
}

/// A power of two is a shifted one.
pub proof fn pow2_is_shift(i: u32)
    requires
        i < 32,
    ensures
        1u32 << i == pow2(i as nat),
{
    vstd::bits::lemma_u32_pow2_no_overflow(i as nat);
    vstd::bits::lemma_u32_shl_is_mul(1, i);
}

proof fn mask_grows(v: u32, n: u32)
    by (bit_vector)
    requires
        n < 31,
    ensures
        v & (((1u32 << ((n + 1) as u32)) - 1) as u32) == (v & (((1u32 << n) - 1) as u32)) + if (v
            >> n) & 1 == 1 {
            1u32 << n
        } else {
            0u32
        },
{
}

/// The low bits of a value spell the value modulo a power of two.
proof fn value_bits_spell_masked(v: u32, n: u32)
    requires
        n < 31,
    ensures
        bits_number(value_bits(v, n as nat)) == v & (((1u32 << n) - 1) as u32),
    decreases n,
{
    if n == 0 {
        assert(v & (((1u32 << 0u32) - 1) as u32) == 0) by (bit_vector);
    } else {
        let m = (n - 1) as u32;
        value_bits_spell_masked(v, m);
        mask_grows(v, m);
        pow2_is_shift(m);
        assert(value_bits(v, n as nat).drop_last() =~= value_bits(v, m as nat));
    }
}

/// Where a stream holds a value's bits, reading them gives the value.
pub proof fn take_reads_value(bits: Seq<bool>, p: int, v: u32, n: u32)
    requires
        n < 31,
        v < 1u32 << n,
        holds_at(bits, p, value_bits(v, n as nat)),
    ensures
        take_bits(bits, p, n as nat) == Some((v as nat, p + n)),
{
    value_bits_spell_masked(v, n);
    assert(v & (((1u32 << n) - 1) as u32) == v) by (bit_vector)
        requires
            n < 31,
            v < 1u32 << n,
    ;
    assert(bits.subrange(p, p + n) =~= value_bits(v, n as nat));
}

/// A number of `n` bits is below the `n`th power of two.
pub proof fn bits_number_bound(bits: Seq<bool>)
    ensures
        bits_number(bits) < pow2(bits.len()),
    decreases bits.len(),
{
    if bits.len() == 0 {
        lemma2_to64();
    } else {
        bits_number_bound(bits.drop_last());
        lemma_pow2_unfold(bits.len());
    }
}

/// A little-endian bit reader over the deflate stream.
pub struct Bits<'a> {
    data: &'a [u8],
    byte: usize,
    bit: u32,
}

impl<'a> Bits<'a> {
    /// The bits being read.
    pub closed spec fn stream(&self) -> Seq<bool> {
        stream_bits(self.data@)
    }

    /// How many of them have been read.
    pub closed spec fn pos(&self) -> int {
        8 * self.byte + self.bit
    }

    pub closed spec fn wf(&self) -> bool {
        &&& self.bit < 8
        &&& self.byte <= self.data@.len()
        &&& self.byte == self.data@.len() ==> self.bit == 0
    }

    /// A position never lies past the end.
    pub proof fn pos_in_stream(&self)
        requires
            self.wf(),
        ensures
            0 <= self.pos() <= self.stream().len(),
    {
    }

    pub fn new(data: &'a [u8]) -> (bits: Self)
        ensures
            bits.wf(),
            bits.pos() == 0,
            bits.stream() == stream_bits(data@),
    {
        Bits { data, byte: 0, bit: 0 }
    }

    /// Read `n` bits, least significant first. `None` when the stream ends
    /// before them.
    pub fn take(&mut self, n: u32) -> (value: Option<u32>)
        requires
            old(self).wf(),
            n <= 16,
        ensures
            final(self).wf(),
            final(self).stream() == old(self).stream(),
            value is Some <==> take_bits(old(self).stream(), old(self).pos(), n as nat) is Some,
            value matches Some(v) ==> take_bits(old(self).stream(), old(self).pos(), n as nat)
                == Some((v as nat, final(self).pos())) && v < 65536,
    {
        let ghost bits = self.stream();
        let ghost p = self.pos();
        let mut out: u32 = 0;
        let mut i: u32 = 0;
        proof {
            assert(bits.subrange(p, p + 0) =~= Seq::<bool>::empty());
            assert(1u32 << 0u32 == 1) by (bit_vector);
        }
        while i < n
            invariant
                self.wf(),
                self.stream() == bits,
                self.pos() == p + i,
                bits == old(self).stream(),
                p == old(self).pos(),
                p >= 0,
                i <= n <= 16,
                out < 1u32 << i,
                out == bits_number(bits.subrange(p, p + i)),
            decreases n - i,
        {
            if self.byte >= self.data.len() {
                return None;
            }
            let byte: u8 = self.data[self.byte];
            let bit: u32 = ((byte >> (self.bit as u8)) & 1) as u32;
            proof {
                let at = p + i;
                assert(at / 8 == self.byte && at % 8 == self.bit);
                assert(bits[at] == byte_bit(byte, self.bit as int));
                let b = self.bit as u8;
                assert((byte >> b) & 1 == 0 || (byte >> b) & 1 == 1) by (bit_vector);
                set_bit(out, i);
                pow2_is_shift(i);
                assert(bits.subrange(p, at + 1).drop_last() =~= bits.subrange(p, at));
            }
            out = out | (bit << i);
            if self.bit == 7 {
                self.bit = 0;
                self.byte = self.byte + 1;
            } else {
                self.bit = self.bit + 1;
            }
            i = i + 1;
        }
        proof {
            self.pos_in_stream();
            assert(1u32 << n <= 65536) by (bit_vector)
                requires
                    n <= 16,
            ;
        }
        Some(out)
    }

    /// Discard the rest of the current byte, for stored blocks.
    pub fn align(&mut self)
        requires
            old(self).wf(),
        ensures
            final(self).wf(),
            final(self).stream() == old(self).stream(),
            final(self).pos() == (old(self).pos() + 7) / 8 * 8,
    {
        if self.bit != 0 {
            assert(self.data.len() == self.data@.len());
            self.bit = 0;
            self.byte = self.byte + 1;
        }
    }
}

} // verus!
