//! Decompression: canonical Huffman tables and the three kinds of deflate
//! block.

use crate::render::bits;
use crate::render::bits::Bits;
use vstd::arithmetic::power2::*;
use vstd::prelude::*;
use vstd::slice::slice_subrange;

verus! {

/// Base lengths and extra bits for the length symbols 257..=285.
pub const LENGTH_BASE: [u16; 29] = [
    3, 4, 5, 6, 7, 8, 9, 10, 11, 13, 15, 17, 19, 23, 27, 31, 35, 43, 51, 59, 67, 83, 99, 115, 131,
    163, 195, 227, 258,
];

pub const LENGTH_EXTRA: [u8; 29] = [
    0, 0, 0, 0, 0, 0, 0, 0, 1, 1, 1, 1, 2, 2, 2, 2, 3, 3, 3, 3, 4, 4, 4, 4, 5, 5, 5, 5, 0,
];

/// Base distances and extra bits for the distance symbols.
pub const DIST_BASE: [u16; 30] = [
    1, 2, 3, 4, 5, 7, 9, 13, 17, 25, 33, 49, 65, 97, 129, 193, 257, 385, 513, 769, 1025, 1537,
    2049, 3073, 4097, 6145, 8193, 12289, 16385, 24577,
];

pub const DIST_EXTRA: [u8; 30] = [
    0, 0, 0, 0, 1, 1, 2, 2, 3, 3, 4, 4, 5, 5, 6, 6, 7, 7, 8, 8, 9, 9, 10, 10, 11, 11, 12, 12, 13,
    13,
];

/// The order a dynamic block lists its code-length code in.
pub const ORDER: [usize; 19] = [
    16, 17, 18, 0, 8, 7, 9, 6, 10, 5, 11, 4, 12, 3, 13, 2, 14, 1, 15,
];

// --- Huffman codes ---------------------------------------------------------

/// How many of the first `n` symbols have a code of `l` bits.
pub open spec fn rank(lengths: Seq<u8>, l: int, n: int) -> int
    decreases n,
{
    if n <= 0 {
        0
    } else {
        rank(lengths, l, n - 1) + if lengths[n - 1] == l {
            1int
        } else {
            0
        }
    }
}

/// Among the first `n` symbols, the one that comes `k`th of those with a code
/// of `l` bits.
pub open spec fn nth_symbol(lengths: Seq<u8>, l: int, k: int, n: int) -> int
    decreases n,
{
    if n <= 0 {
        0
    } else if lengths[n - 1] == l && rank(lengths, l, n - 1) == k {
        n - 1
    } else {
        nth_symbol(lengths, l, k, n - 1)
    }
}

/// How many symbols have a code shorter than `l` bits.
pub open spec fn shorter(lengths: Seq<u8>, l: int, n: int) -> int
    decreases l,
{
    if l <= 1 {
        0
    } else {
        shorter(lengths, l - 1, n) + rank(lengths, l - 1, n)
    }
}

/// Reading one symbol of the canonical code `lengths` describes, with `l - 1`
/// bits read and `code` the next code's leading bits. A code of `l` bits stands
/// for a symbol when it falls inside that length's run, which begins at `first`.
pub open spec fn symbol_walk(
    lengths: Seq<u8>,
    bits: Seq<bool>,
    p: int,
    l: int,
    code: int,
    first: int,
) -> Option<(int, int)>
    decreases 16 - l,
{
    if l > 15 || p >= bits.len() {
        None
    } else {
        let c = code + if bits[p] {
            1int
        } else {
            0
        };
        let count = rank(lengths, l, lengths.len() as int);
        if c - first < count {
            Some((nth_symbol(lengths, l, c - first, lengths.len() as int), p + 1))
        } else {
            symbol_walk(lengths, bits, p + 1, l + 1, 2 * c, 2 * (first + count))
        }
    }
}

/// The symbol whose code stands at `p`, and the position behind it.
pub open spec fn decode_symbol(lengths: Seq<u8>, bits: Seq<bool>, p: int) -> Option<(int, int)> {
    symbol_walk(lengths, bits, p, 1, 0, 0)
}

pub proof fn rank_bounds(lengths: Seq<u8>, l: int, n: int)
    ensures
        0 <= rank(lengths, l, n),
        n >= 0 ==> rank(lengths, l, n) <= n,
    decreases n,
{
    if n > 0 {
        rank_bounds(lengths, l, n - 1);
    }
}

pub proof fn rank_monotone(lengths: Seq<u8>, l: int, m: int, n: int)
    requires
        m <= n,
    ensures
        rank(lengths, l, m) <= rank(lengths, l, n),
    decreases n - m,
{
    if m < n {
        rank_monotone(lengths, l, m, n - 1);
    }
}

/// A symbol is the one its length and rank name.
pub proof fn nth_symbol_is(lengths: Seq<u8>, l: int, s: int, n: int)
    requires
        0 <= s < n,
        lengths[s] == l,
    ensures
        nth_symbol(lengths, l, rank(lengths, l, s), n) == s,
    decreases n,
{
    if n - 1 != s {
        nth_symbol_is(lengths, l, s, n - 1);
        rank_monotone(lengths, l, s + 1, n - 1);
    }
}

/// Every rank below the count names a symbol.
pub proof fn nth_symbol_exists(lengths: Seq<u8>, l: int, k: int, n: int)
    requires
        0 <= k < rank(lengths, l, n),
    ensures
        0 <= nth_symbol(lengths, l, k, n) < n,
        lengths[nth_symbol(lengths, l, k, n)] == l,
        rank(lengths, l, nth_symbol(lengths, l, k, n)) == k,
    decreases n,
{
    if n > 0 && !(lengths[n - 1] == l && rank(lengths, l, n - 1) == k) {
        nth_symbol_exists(lengths, l, k, n - 1);
    }
}

/// A symbol code is at least one bit, and lies within the stream.
pub proof fn symbol_walk_advances(
    lengths: Seq<u8>,
    bits: Seq<bool>,
    p: int,
    l: int,
    code: int,
    first: int,
)
    requires
        first <= code,
    ensures
        symbol_walk(lengths, bits, p, l, code, first) matches Some((s, q)) ==> p < q <= bits.len()
            && 0 <= s < lengths.len(),
    decreases 16 - l,
{
    if l <= 15 && p < bits.len() {
        let c = code + if bits[p] {
            1int
        } else {
            0
        };
        let count = rank(lengths, l, lengths.len() as int);
        if c - first < count {
            nth_symbol_exists(lengths, l, c - first, lengths.len() as int);
        } else {
            symbol_walk_advances(lengths, bits, p + 1, l + 1, 2 * c, 2 * (first + count));
        }
    }
}

proof fn shorter_step(lengths: Seq<u8>, l: int, n: int)
    requires
        n > 0,
    ensures
        shorter(lengths, l, n) == shorter(lengths, l, n - 1) + if 1 <= lengths[n - 1] < l {
            1int
        } else {
            0
        },
    decreases l,
{
    if l > 1 {
        shorter_step(lengths, l - 1, n);
    }
}

proof fn shorter_bounded(lengths: Seq<u8>, l: int, n: int)
    requires
        n >= 0,
    ensures
        0 <= shorter(lengths, l, n) <= n,
    decreases n,
{
    if n > 0 {
        shorter_bounded(lengths, l, n - 1);
        shorter_step(lengths, l, n);
    } else {
        shorter_of_none(lengths, l);
    }
}

proof fn shorter_of_none(lengths: Seq<u8>, l: int)
    ensures
        shorter(lengths, l, 0) == 0,
    decreases l,
{
    if l > 1 {
        shorter_of_none(lengths, l - 1);
    }
}

proof fn shorter_ordered(lengths: Seq<u8>, a: int, b: int, n: int)
    requires
        1 <= a < b,
    ensures
        shorter(lengths, a, n) + rank(lengths, a, n) <= shorter(lengths, b, n),
    decreases b - a,
{
    if a + 1 < b {
        shorter_ordered(lengths, a, b - 1, n);
        rank_bounds(lengths, b - 1, n);
    }
}

/// Reading one bit gives one or zero.
proof fn one_bit(stream: Seq<bool>, p: int)
    requires
        0 <= p,
    ensures
        bits::take_bits(stream, p, 1) matches Some((v, q)) ==> v == if stream[p] {
            1nat
        } else {
            0
        },
{
    if p + 1 <= stream.len() {
        let one = stream.subrange(p, p + 1);
        assert(one.drop_last() =~= Seq::<bool>::empty());
        assert(bits::bits_number(one.drop_last()) == 0);
        lemma2_to64();
    }
}

proof fn lemma_pow2_within(n: nat)
    requires
        n <= 16,
    ensures
        pow2(n) <= 65536,
{
    lemma2_to64();
    if n < 16 {
        lemma_pow2_strictly_increases(n, 16);
    }
}

/// A canonical Huffman table: how many codes of each length, and the symbols in
/// canonical order.
pub struct Huffman {
    counts: [u16; 16],
    symbols: Vec<u16>,
    lengths: Ghost<Seq<u8>>,
}

/// Where a symbol stands in canonical order.
spec fn slot(lengths: Seq<u8>, s: int, n: int) -> int {
    shorter(lengths, lengths[s] as int, n) + rank(lengths, lengths[s] as int, s)
}

/// Different symbols stand in different places, all of them inside the table.
proof fn slots_differ(lengths: Seq<u8>, s: int, t: int, n: int)
    requires
        0 <= s < t < n,
        1 <= lengths[s] <= 15,
        1 <= lengths[t] <= 15,
    ensures
        slot(lengths, s, n) != slot(lengths, t, n),
{
    let a = lengths[s] as int;
    let b = lengths[t] as int;
    rank_monotone(lengths, a, s + 1, n);
    rank_monotone(lengths, b, t + 1, n);
    rank_bounds(lengths, a, s);
    rank_bounds(lengths, b, t);
    if a == b {
        rank_monotone(lengths, a, s + 1, t);
    } else if a < b {
        shorter_ordered(lengths, a, b, n);
    } else {
        shorter_ordered(lengths, b, a, n);
    }
}

proof fn slot_in_table(lengths: Seq<u8>, s: int, n: int)
    requires
        0 <= s < n,
        1 <= lengths[s] <= 15,
    ensures
        0 <= slot(lengths, s, n) < n,
{
    let a = lengths[s] as int;
    rank_monotone(lengths, a, s + 1, n);
    rank_bounds(lengths, a, s);
    shorter_bounded(lengths, a, n);
    shorter_bounded(lengths, a + 1, n);
}

impl Huffman {
    /// The code length of each symbol; length 0 means the symbol is unused.
    pub closed spec fn lengths(&self) -> Seq<u8> {
        self.lengths@
    }

    pub closed spec fn wf(&self) -> bool {
        let lengths = self.lengths@;
        let n = lengths.len() as int;
        &&& n <= 320
        &&& self.symbols@.len() == n
        &&& forall|s: int| 0 <= s < n ==> #[trigger] lengths[s] <= 15
        &&& forall|l: int| 1 <= l <= 15 ==> #[trigger] self.counts@[l] == rank(lengths, l, n)
        &&& forall|s: int|
            0 <= s < n && lengths[s] != 0 ==> self.symbols@[#[trigger] slot(lengths, s, n)] == s
    }

    /// Build from a code length per symbol; length 0 means the symbol is unused.
    pub fn new(lengths: &[u8]) -> (table: Self)
        requires
            lengths@.len() <= 320,
            forall|s: int| 0 <= s < lengths@.len() ==> #[trigger] lengths@[s] <= 15,
        ensures
            table.wf(),
            table.lengths() == lengths@,
    {
        let ghost n = lengths@.len() as int;
        let mut counts: [u16; 16] = [0u16;16];
        let mut i: usize = 0;
        while i < lengths.len()
            invariant
                i <= lengths@.len() <= 320,
                forall|s: int| 0 <= s < lengths@.len() ==> #[trigger] lengths@[s] <= 15,
                forall|l: int| 0 <= l <= 15 ==> #[trigger] counts@[l] == rank(lengths@, l, i as int),
            decreases lengths@.len() - i,
        {
            let l: usize = lengths[i] as usize;
            proof {
                rank_bounds(lengths@, l as int, i as int);
            }
            counts[l] = counts[l] + 1;
            i = i + 1;
        }
        counts[0] = 0;

        // Where each length's run of symbols begins in canonical order.
        let mut offsets: [u16; 16] = [0u16;16];
        let mut l: usize = 1;
        while l < 15
            invariant
                1 <= l <= 15,
                n == lengths@.len(),
                n <= 320,
                forall|k: int| 1 <= k <= 15 ==> #[trigger] counts@[k] == rank(lengths@, k, n),
                forall|k: int| 1 <= k <= l ==> #[trigger] offsets@[k] == shorter(lengths@, k, n),
            decreases 15 - l,
        {
            proof {
                shorter_bounded(lengths@, l + 1, n);
            }
            offsets[l + 1] = offsets[l] + counts[l];
            l = l + 1;
        }
        let mut symbols: Vec<u16> = vec![0u16; lengths.len()];
        let mut sym: usize = 0;
        while sym < lengths.len()
            invariant
                sym <= lengths@.len(),
                n == lengths@.len(),
                n <= 320,
                symbols@.len() == n,
                forall|s: int| 0 <= s < lengths@.len() ==> #[trigger] lengths@[s] <= 15,
                forall|k: int|
                    1 <= k <= 15 ==> #[trigger] offsets@[k] == shorter(lengths@, k, n) + rank(
                        lengths@,
                        k,
                        sym as int,
                    ),
                forall|s: int|
                    0 <= s < sym && lengths@[s] != 0 ==> symbols@[#[trigger] slot(lengths@, s, n)]
                        == s,
            decreases lengths@.len() - sym,
        {
            let l: usize = lengths[sym] as usize;
            if l != 0 {
                proof {
                    slot_in_table(lengths@, sym as int, n);
                    assert(offsets@[l as int] == slot(lengths@, sym as int, n));
                }
                let ghost before = symbols@;
                symbols[offsets[l] as usize] = sym as u16;
                offsets[l] = offsets[l] + 1;
                proof {
                    assert forall|s: int|
                        0 <= s < sym + 1 && lengths@[s] != 0 implies symbols@[#[trigger] slot(
                        lengths@,
                        s,
                        n,
                    )] == s by {
                        if s < sym {
                            slots_differ(lengths@, s, sym as int, n);
                            slot_in_table(lengths@, s, n);
                        }
                    }
                }
            }
            sym = sym + 1;
        }
        Huffman { counts, symbols, lengths: Ghost(lengths@) }
    }

    /// Walk the code bit by bit, widening until it falls inside a length's run.
    pub fn decode(&self, bits: &mut Bits) -> (symbol: Option<u16>)
        requires
            self.wf(),
            old(bits).wf(),
        ensures
            final(bits).wf(),
            final(bits).stream() == old(bits).stream(),
            symbol is Some <==> decode_symbol(self.lengths(), old(bits).stream(), old(bits).pos())
                is Some,
            symbol matches Some(s) ==> decode_symbol(
                self.lengths(),
                old(bits).stream(),
                old(bits).pos(),
            ) == Some((s as int, final(bits).pos())),
    {
        let ghost stream = bits.stream();
        let ghost lengths = self.lengths@;
        let ghost n = lengths.len() as int;
        let ghost whole = decode_symbol(lengths, stream, bits.pos());
        let mut code: i32 = 0;
        let mut first: i32 = 0;
        let mut index: i32 = 0;
        let mut len: usize = 1;
        proof {
            lemma2_to64();
        }
        while len < 16
            invariant
                self.wf(),
                bits.wf(),
                lengths == self.lengths@,
                n == lengths.len(),
                stream == bits.stream(),
                stream == old(bits).stream(),
                whole == decode_symbol(lengths, stream, old(bits).pos()),
                1 <= len <= 16,
                0 <= first <= code,
                code + 2 <= pow2(len as nat),
                0 <= index <= 320,
                index == shorter(lengths, len as int, n),
                whole == symbol_walk(lengths, stream, bits.pos(), len as int, code as int, first as int),
            decreases 16 - len,
        {
            proof {
                bits.pos_in_stream();
                shorter_bounded(lengths, len + 1, n);
                one_bit(stream, bits.pos());
                lemma_pow2_unfold((len + 1) as nat);
                lemma_pow2_within(len as nat);
            }
            let bit: u32 = match bits.take(1) {
                Some(b) => b,
                None => {
                    return None;
                },
            };
            code = code + bit as i32;
            let count: i32 = self.counts[len] as i32;
            proof {
                rank_bounds(lengths, len as int, n);
            }
            if code - first < count {
                proof {
                    let k = code - first;
                    nth_symbol_exists(lengths, len as int, k as int, n);
                    let s = nth_symbol(lengths, len as int, k as int, n);
                    slot_in_table(lengths, s, n);
                    assert(slot(lengths, s, n) == index + k);
                    assert(self.symbols@[slot(lengths, s, n)] == s);
                }
                return Some(self.symbols[(index + (code - first)) as usize]);
            }
            index = index + count;
            first = 2 * (first + count);
            code = 2 * code;
            len = len + 1;
        }
        None
    }
}

// --- Blocks ----------------------------------------------------------------

/// The literal/length code lengths deflate defines for fixed blocks.
pub open spec fn fixed_lit() -> Seq<u8> {
    Seq::new(
        288,
        |i: int|
            if i < 144 {
                8u8
            } else if i < 256 {
                9u8
            } else if i < 280 {
                7u8
            } else {
                8u8
            },
    )
}

/// The distance code lengths deflate defines for fixed blocks.
pub open spec fn fixed_dist() -> Seq<u8> {
    Seq::new(30, |i: int| 5u8)
}

/// `out` with `len` bytes more, each a copy of the one `back` before it, so a
/// run repeats as it grows.
pub open spec fn copy_back(out: Seq<u8>, back: int, len: nat) -> Seq<u8>
    decreases len,
{
    if len == 0 {
        out
    } else {
        let shorter = copy_back(out, back, (len - 1) as nat);
        shorter.push(shorter[shorter.len() - back])
    }
}

/// The rest of a match, once its length symbol has been read: how long it is,
/// how far back it reaches, and the position behind it.
pub open spec fn match_at(dist: Seq<u8>, bits: Seq<bool>, p: int, i: int) -> Option<(nat, nat, int)> {
    match bits::take_bits(bits, p, LENGTH_EXTRA@[i] as nat) {
        None => None,
        Some((le, q)) => match decode_symbol(dist, bits, q) {
            None => None,
            Some((d, r)) => if d >= 30 {
                None
            } else {
                match bits::take_bits(bits, r, DIST_EXTRA@[d] as nat) {
                    None => None,
                    Some((de, t)) => Some((LENGTH_BASE@[i] as nat + le, DIST_BASE@[d] as nat + de, t)),
                }
            },
        },
    }
}

/// What a Huffman-coded block at `p` makes of the output so far: literals
/// straight through, matches copied from what has already been produced, up to
/// the end-of-block symbol. Nothing once the output outgrows `limit`.
pub open spec fn block_at(
    lit: Seq<u8>,
    dist: Seq<u8>,
    bits: Seq<bool>,
    p: int,
    out: Seq<u8>,
    limit: nat,
) -> Option<(Seq<u8>, int)>
    decreases bits.len() - p,
{
    if out.len() > limit {
        None
    } else {
        match decode_symbol(lit, bits, p) {
            None => None,
            Some((sym, q)) => {
                proof {
                    symbol_walk_advances(lit, bits, p, 1, 0, 0);
                }
                if sym < 256 {
                    block_at(lit, dist, bits, q, out.push(sym as u8), limit)
                } else if sym == 256 {
                    Some((out, q))
                } else if sym <= 285 {
                    match match_at(dist, bits, q, sym - 257) {
                        None => None,
                        Some((len, back, t)) => {
                            proof {
                                match_advances(dist, bits, q, sym - 257);
                            }
                            if back > out.len() {
                                None
                            } else {
                                block_at(lit, dist, bits, t, copy_back(out, back as int, len), limit)
                            }
                        },
                    }
                } else {
                    None
                }
            },
        }
    }
}

pub proof fn match_advances(dist: Seq<u8>, bits: Seq<bool>, p: int, i: int)
    requires
        0 <= i < 29,
    ensures
        match_at(dist, bits, p, i) matches Some((len, back, t)) ==> p < t <= bits.len(),
{
    if let Some((le, q)) = bits::take_bits(bits, p, LENGTH_EXTRA@[i] as nat) {
        symbol_walk_advances(dist, bits, q, 1, 0, 0);
    }
}

/// The code-length code of a dynamic block: `count` three-bit lengths from `p`,
/// in the block's own order, the rest zero.
pub open spec fn code_lengths(bits: Seq<bool>, p: int, count: int) -> Seq<u8>
    decreases count,
{
    if count <= 0 {
        Seq::new(19, |i: int| 0u8)
    } else {
        code_lengths(bits, p, count - 1).update(
            ORDER@[count - 1] as int,
            bits::bits_number(bits.subrange(p + 3 * (count - 1), p + 3 * count)) as u8,
        )
    }
}

/// `lengths` with `n` copies of `v` behind it.
pub open spec fn repeated(lengths: Seq<u8>, v: u8, n: nat) -> Seq<u8> {
    lengths + Seq::new(n, |i: int| v)
}

/// The code lengths a dynamic block spells with its code-length code, which has
/// three ways to repeat one, up to `total` of them.
pub open spec fn run_lengths(
    table: Seq<u8>,
    bits: Seq<bool>,
    p: int,
    lengths: Seq<u8>,
    total: int,
) -> Option<(Seq<u8>, int)>
    decreases bits.len() - p,
{
    if lengths.len() >= total {
        if lengths.len() == total {
            Some((lengths, p))
        } else {
            None
        }
    } else {
        match decode_symbol(table, bits, p) {
            None => None,
            Some((sym, q)) => {
                proof {
                    symbol_walk_advances(table, bits, p, 1, 0, 0);
                }
                if sym <= 15 {
                    run_lengths(table, bits, q, lengths.push(sym as u8), total)
                } else if sym == 16 {
                    match bits::take_bits(bits, q, 2) {
                        Some((n, r)) if lengths.len() > 0 => run_lengths(
                            table,
                            bits,
                            r,
                            repeated(lengths, lengths.last(), 3 + n),
                            total,
                        ),
                        _ => None,
                    }
                } else if sym == 17 {
                    match bits::take_bits(bits, q, 3) {
                        Some((n, r)) => run_lengths(table, bits, r, repeated(lengths, 0, 3 + n), total),
                        None => None,
                    }
                } else if sym == 18 {
                    match bits::take_bits(bits, q, 7) {
                        Some((n, r)) => run_lengths(table, bits, r, repeated(lengths, 0, 11 + n), total),
                        None => None,
                    }
                } else {
                    None
                }
            },
        }
    }
}

/// The two tables a dynamic block carries at `p`, and the position behind them.
pub open spec fn dynamic_at(bits: Seq<bool>, p: int) -> Option<(Seq<u8>, Seq<u8>, int)> {
    if p + 14 > bits.len() {
        None
    } else {
        let hlit = bits::bits_number(bits.subrange(p, p + 5)) + 257;
        let hdist = bits::bits_number(bits.subrange(p + 5, p + 10)) + 1;
        let hclen = bits::bits_number(bits.subrange(p + 10, p + 14)) + 4;
        let at = p + 14 + 3 * hclen;
        if at > bits.len() {
            None
        } else {
            match run_lengths(
                code_lengths(bits, p + 14, hclen as int),
                bits,
                at,
                Seq::empty(),
                (hlit + hdist) as int,
            ) {
                None => None,
                Some((lengths, q)) => Some(
                    (
                        lengths.subrange(0, hlit as int),
                        lengths.subrange(hlit as int, lengths.len() as int),
                        q,
                    ),
                ),
            }
        }
    }
}

/// What a stored block at `p` makes of the output so far. It begins on a byte
/// boundary with its length, then the length's complement, which is skipped.
pub open spec fn stored_at(bits: Seq<bool>, p: int, out: Seq<u8>, limit: nat) -> Option<
    (Seq<u8>, int),
> {
    let at = (p + 7) / 8 * 8;
    if at + 32 > bits.len() {
        None
    } else {
        let len = bits::bits_number(bits.subrange(at, at + 8)) + 256 * bits::bits_number(
            bits.subrange(at + 8, at + 16),
        );
        let end = at + 32 + 8 * len;
        if out.len() + len > limit || end > bits.len() {
            None
        } else {
            Some((out + stored_bytes(bits, at + 32, len), end))
        }
    }
}

/// `n` whole bytes from `p`.
pub open spec fn stored_bytes(bits: Seq<bool>, p: int, n: nat) -> Seq<u8> {
    Seq::new(n, |k: int| bits::bits_number(bits.subrange(p + 8 * k, p + 8 * k + 8)) as u8)
}

/// What one block makes of the output so far, and the position behind it: two
/// bits name its kind.
pub open spec fn any_block_at(bits: Seq<bool>, p: int, out: Seq<u8>, limit: nat) -> Option<
    (Seq<u8>, int),
> {
    match bits::take_bits(bits, p, 2) {
        None => None,
        Some((kind, q)) => if kind == 0 {
            stored_at(bits, q, out, limit)
        } else if kind == 1 {
            block_at(fixed_lit(), fixed_dist(), bits, q, out, limit)
        } else if kind == 2 {
            match dynamic_at(bits, q) {
                None => None,
                Some((lit, dist, r)) => block_at(lit, dist, bits, r, out, limit),
            }
        } else {
            None
        },
    }
}

/// The output of the blocks from `p` on, behind `out`. Each block says in its
/// first bit whether it is the last.
pub open spec fn blocks_at(bits: Seq<bool>, p: int, out: Seq<u8>, limit: nat) -> Option<Seq<u8>>
    decreases bits.len() - p,
{
    match bits::take_bits(bits, p, 1) {
        None => None,
        Some((last, q)) => match any_block_at(bits, q, out, limit) {
            None => None,
            Some((more, r)) => {
                proof {
                    any_block_advances(bits, q, out, limit);
                }
                if last == 1 {
                    Some(more)
                } else {
                    blocks_at(bits, r, more, limit)
                }
            },
        },
    }
}

/// What a zlib stream decompresses to: the two-byte header skipped, then the
/// blocks. Nothing when the stream is malformed or outgrows `limit`.
pub open spec fn inflated(zlib: Seq<u8>, limit: nat) -> Option<Seq<u8>> {
    if zlib.len() < 2 {
        None
    } else {
        blocks_at(bits::stream_bits(zlib.subrange(2, zlib.len() as int)), 0, Seq::empty(), limit)
    }
}

pub proof fn block_advances(
    lit: Seq<u8>,
    dist: Seq<u8>,
    bits: Seq<bool>,
    p: int,
    out: Seq<u8>,
    limit: nat,
)
    ensures
        block_at(lit, dist, bits, p, out, limit) matches Some((more, q)) ==> p < q <= bits.len()
            && more.len() <= limit,
    decreases bits.len() - p,
{
    if out.len() <= limit {
        if let Some((sym, q)) = decode_symbol(lit, bits, p) {
            symbol_walk_advances(lit, bits, p, 1, 0, 0);
            if sym < 256 {
                block_advances(lit, dist, bits, q, out.push(sym as u8), limit);
            } else if 256 < sym <= 285 {
                match_advances(dist, bits, q, sym - 257);
                if let Some((len, back, t)) = match_at(dist, bits, q, sym - 257) {
                    block_advances(lit, dist, bits, t, copy_back(out, back as int, len), limit);
                }
            }
        }
    }
}

pub proof fn run_lengths_advance(
    table: Seq<u8>,
    bits: Seq<bool>,
    p: int,
    lengths: Seq<u8>,
    total: int,
)
    requires
        p <= bits.len(),
    ensures
        run_lengths(table, bits, p, lengths, total) matches Some((all, q)) ==> p <= q <= bits.len()
            && all.len() == total,
    decreases bits.len() - p,
{
    if lengths.len() < total {
        if let Some((sym, q)) = decode_symbol(table, bits, p) {
            symbol_walk_advances(table, bits, p, 1, 0, 0);
            if sym <= 15 {
                run_lengths_advance(table, bits, q, lengths.push(sym as u8), total);
            } else if sym == 16 {
                if let Some((n, r)) = bits::take_bits(bits, q, 2) {
                    run_lengths_advance(
                        table,
                        bits,
                        r,
                        repeated(lengths, lengths.last(), 3 + n),
                        total,
                    );
                }
            } else if sym == 17 {
                if let Some((n, r)) = bits::take_bits(bits, q, 3) {
                    run_lengths_advance(table, bits, r, repeated(lengths, 0, 3 + n), total);
                }
            } else if sym == 18 {
                if let Some((n, r)) = bits::take_bits(bits, q, 7) {
                    run_lengths_advance(table, bits, r, repeated(lengths, 0, 11 + n), total);
                }
            }
        }
    }
}

pub proof fn any_block_advances(bits: Seq<bool>, p: int, out: Seq<u8>, limit: nat)
    ensures
        any_block_at(bits, p, out, limit) matches Some((more, q)) ==> p < q <= bits.len()
            && more.len() <= limit,
{
    if let Some((kind, q)) = bits::take_bits(bits, p, 2) {
        if kind == 1 {
            block_advances(fixed_lit(), fixed_dist(), bits, q, out, limit);
        } else if kind == 2 {
            if let Some((lit, dist, r)) = dynamic_at(bits, q) {
                let hlit = bits::bits_number(bits.subrange(q, q + 5)) + 257;
                let hdist = bits::bits_number(bits.subrange(q + 5, q + 10)) + 1;
                let hclen = bits::bits_number(bits.subrange(q + 10, q + 14)) + 4;
                run_lengths_advance(
                    code_lengths(bits, q + 14, hclen as int),
                    bits,
                    q + 14 + 3 * hclen,
                    Seq::empty(),
                    (hlit + hdist) as int,
                );
                block_advances(lit, dist, bits, r, out, limit);
            }
        }
    }
}

/// Decompressing never gives more than the limit allows.
pub proof fn blocks_stay_within_limit(bits: Seq<bool>, p: int, out: Seq<u8>, limit: nat)
    ensures
        blocks_at(bits, p, out, limit) matches Some(all) ==> all.len() <= limit,
    decreases bits.len() - p,
{
    if let Some((last, q)) = bits::take_bits(bits, p, 1) {
        if let Some((more, r)) = any_block_at(bits, q, out, limit) {
            any_block_advances(bits, q, out, limit);
            if last != 1 {
                blocks_stay_within_limit(bits, r, more, limit);
            }
        }
    }
}

proof fn block_keeps_under_more(
    lit: Seq<u8>,
    dist: Seq<u8>,
    bits: Seq<bool>,
    p: int,
    out: Seq<u8>,
    limit: nat,
    more: nat,
)
    requires
        limit <= more,
        block_at(lit, dist, bits, p, out, limit) is Some,
    ensures
        block_at(lit, dist, bits, p, out, more) == block_at(lit, dist, bits, p, out, limit),
    decreases bits.len() - p,
{
    if let Some((sym, q)) = decode_symbol(lit, bits, p) {
        symbol_walk_advances(lit, bits, p, 1, 0, 0);
        if sym < 256 {
            block_keeps_under_more(lit, dist, bits, q, out.push(sym as u8), limit, more);
        } else if 256 < sym <= 285 {
            match_advances(dist, bits, q, sym - 257);
            if let Some((len, back, t)) = match_at(dist, bits, q, sym - 257) {
                block_keeps_under_more(
                    lit,
                    dist,
                    bits,
                    t,
                    copy_back(out, back as int, len),
                    limit,
                    more,
                );
            }
        }
    }
}

proof fn blocks_keep_under_more(bits: Seq<bool>, p: int, out: Seq<u8>, limit: nat, more: nat)
    requires
        limit <= more,
        blocks_at(bits, p, out, limit) is Some,
    ensures
        blocks_at(bits, p, out, more) == blocks_at(bits, p, out, limit),
    decreases bits.len() - p,
{
    if let Some((last, q)) = bits::take_bits(bits, p, 1) {
        if let Some((kind, r)) = bits::take_bits(bits, q, 2) {
            if kind == 1 {
                block_keeps_under_more(fixed_lit(), fixed_dist(), bits, r, out, limit, more);
            } else if kind == 2 {
                if let Some((lit, dist, t)) = dynamic_at(bits, r) {
                    block_keeps_under_more(lit, dist, bits, t, out, limit, more);
                }
            }
        }
        if let Some((next, r)) = any_block_at(bits, q, out, limit) {
            any_block_advances(bits, q, out, limit);
            if last != 1 {
                blocks_keep_under_more(bits, r, next, limit, more);
            }
        }
    }
}

/// A limit only ever refuses: a stream that decompresses within one limit
/// decompresses to the same bytes under any higher one.
pub proof fn a_higher_limit_changes_nothing(zlib: Seq<u8>, limit: nat, more: nat)
    requires
        limit <= more,
        inflated(zlib, limit) is Some,
    ensures
        inflated(zlib, more) == inflated(zlib, limit),
{
    let stream = bits::stream_bits(zlib.subrange(2, zlib.len() as int));
    blocks_keep_under_more(stream, 0, Seq::empty(), limit, more);
}

/// The literal/length and distance tables deflate defines for fixed blocks.
pub fn fixed_tables() -> (tables: (Huffman, Huffman))
    ensures
        tables.0.wf(),
        tables.1.wf(),
        tables.0.lengths() == fixed_lit(),
        tables.1.lengths() == fixed_dist(),
{
    let mut lengths: Vec<u8> = Vec::new();
    let mut i: usize = 0;
    while i < 288
        invariant
            i <= 288,
            lengths@ == fixed_lit().take(i as int),
        decreases 288 - i,
    {
        let l: u8 = if i < 144 {
            8
        } else if i < 256 {
            9
        } else if i < 280 {
            7
        } else {
            8
        };
        lengths.push(l);
        i = i + 1;
        assert(lengths@ =~= fixed_lit().take(i as int));
    }
    assert(lengths@ =~= fixed_lit());
    let dist: [u8; 30] = [5u8;30];
    assert(dist@ =~= fixed_dist());
    (Huffman::new(lengths.as_slice()), Huffman::new(&dist))
}

/// A number of `n` bits read from a stream is below `2^n`.
proof fn taken_bound(bits: Seq<bool>, p: int, n: nat)
    requires
        0 <= p,
    ensures
        bits::take_bits(bits, p, n) matches Some((v, q)) ==> v < pow2(n),
{
    if p + n <= bits.len() {
        bits::bits_number_bound(bits.subrange(p, p + n));
    }
}

proof fn code_lengths_small(bits: Seq<bool>, p: int, count: int)
    requires
        0 <= p,
        count <= 19,
        p + 3 * count <= bits.len(),
    ensures
        code_lengths(bits, p, count).len() == 19,
        forall|i: int| 0 <= i < 19 ==> #[trigger] code_lengths(bits, p, count)[i] <= 7,
    decreases count,
{
    if count > 0 {
        code_lengths_small(bits, p, count - 1);
        bits::bits_number_bound(bits.subrange(p + 3 * (count - 1), p + 3 * count));
        lemma2_to64();
    }
}

/// Read the code-length alphabet a dynamic block carries, then the two tables
/// it encodes.
pub fn dynamic_tables(bits: &mut Bits) -> (tables: Option<(Huffman, Huffman)>)
    requires
        old(bits).wf(),
    ensures
        final(bits).wf(),
        final(bits).stream() == old(bits).stream(),
        tables is Some <==> dynamic_at(old(bits).stream(), old(bits).pos()) is Some,
        tables matches Some((lit, dist)) ==> lit.wf() && dist.wf() && dynamic_at(
            old(bits).stream(),
            old(bits).pos(),
        ) == Some((lit.lengths(), dist.lengths(), final(bits).pos())),
{
    let ghost stream = bits.stream();
    let ghost p = bits.pos();
    proof {
        lemma2_to64();
        bits.pos_in_stream();
        taken_bound(stream, p, 5);
        taken_bound(stream, p + 5, 5);
        taken_bound(stream, p + 10, 4);
    }
    let hlit: usize = match bits.take(5) {
        Some(v) => v as usize + 257,
        None => {
            return None;
        },
    };
    let hdist: usize = match bits.take(5) {
        Some(v) => v as usize + 1,
        None => {
            return None;
        },
    };
    let hclen: usize = match bits.take(4) {
        Some(v) => v as usize + 4,
        None => {
            return None;
        },
    };
    let mut code_lens: Vec<u8> = vec![0u8; 19];
    let mut j: usize = 0;
    assert(code_lens@ =~= code_lengths(stream, p + 14, 0));
    while j < hclen
        invariant
            bits.wf(),
            bits.stream() == stream,
            stream == old(bits).stream(),
            p == old(bits).pos(),
            0 <= p,
            p + 14 <= stream.len(),
            hclen == bits::bits_number(stream.subrange(p + 10, p + 14)) + 4,
            j <= hclen <= 19,
            bits.pos() == p + 14 + 3 * j,
            code_lens@ == code_lengths(stream, p + 14, j as int),
        decreases hclen - j,
    {
        proof {
            bits.pos_in_stream();
            lemma2_to64();
            taken_bound(stream, p + 14 + 3 * j, 3);
            code_lengths_small(stream, p + 14, j as int);
        }
        match bits.take(3) {
            Some(v) => {
                assert(0 <= ORDER@[j as int] < 19);
                code_lens[ORDER[j]] = v as u8;
            },
            None => {
                return None;
            },
        }
        j = j + 1;
    }
    proof {
        bits.pos_in_stream();
        code_lengths_small(stream, p + 14, hclen as int);
    }
    let code_table = Huffman::new(code_lens.as_slice());

    // One run of lengths covering both tables, with three repeat encodings.
    let total: usize = hlit + hdist;
    let mut lengths: Vec<u8> = Vec::new();
    let ghost goal = run_lengths(code_lens@, stream, bits.pos(), Seq::empty(), total as int);
    while lengths.len() < total
        invariant
            bits.wf(),
            bits.stream() == stream,
            stream == old(bits).stream(),
            code_table.wf(),
            code_table.lengths() == code_lens@,
            total <= 320,
            lengths@.len() <= 480,
            forall|i: int| 0 <= i < lengths@.len() ==> #[trigger] lengths@[i] <= 15,
            goal == run_lengths(code_lens@, stream, bits.pos(), lengths@, total as int),
            goal is None ==> dynamic_at(stream, old(bits).pos()) is None,
        decreases stream.len() - bits.pos(),
    {
        proof {
            bits.pos_in_stream();
            symbol_walk_advances(code_lens@, stream, bits.pos(), 1, 0, 0);
        }
        let sym: u16 = match code_table.decode(bits) {
            Some(s) => s,
            None => {
                return None;
            },
        };
        let ghost q = bits.pos();
        proof {
            lemma2_to64();
            taken_bound(stream, q, 2);
            taken_bound(stream, q, 3);
            taken_bound(stream, q, 7);
        }
        if sym <= 15 {
            lengths.push(sym as u8);
        } else if sym <= 18 {
            let width: u32 = if sym == 16 {
                2
            } else if sym == 17 {
                3
            } else {
                7
            };
            if sym == 16 && lengths.len() == 0 {
                return None;
            }
            let v: u8 = if sym == 16 {
                lengths[lengths.len() - 1]
            } else {
                0
            };
            let n: u32 = match bits.take(width) {
                Some(n) => if sym == 18 {
                    11 + n
                } else {
                    3 + n
                },
                None => {
                    return None;
                },
            };
            let ghost before = lengths@;
            let mut k: u32 = 0;
            assert(repeated(before, v, 0) =~= before);
            while k < n
                invariant
                    k <= n <= 138,
                    v <= 15,
                    before.len() < total <= 320,
                    forall|i: int| 0 <= i < before.len() ==> #[trigger] before[i] <= 15,
                    lengths@ == repeated(before, v, k as nat),
                decreases n - k,
            {
                lengths.push(v);
                k = k + 1;
                assert(lengths@ =~= repeated(before, v, k as nat));
            }
        } else {
            return None;
        }
    }
    if lengths.len() > total {
        return None;
    }
    let lit = Huffman::new(slice_subrange(lengths.as_slice(), 0, hlit));
    let dist = Huffman::new(slice_subrange(lengths.as_slice(), hlit, lengths.len()));
    Some((lit, dist))
}

/// Emit one Huffman-coded block: literals straight through, matches copied from
/// what has already been produced. False when the block is malformed or
/// outgrows `limit`.
pub fn inflate_block(
    bits: &mut Bits,
    lit: &Huffman,
    dist: &Huffman,
    out: &mut Vec<u8>,
    limit: usize,
) -> (ok: bool)
    requires
        old(bits).wf(),
        lit.wf(),
        dist.wf(),
    ensures
        final(bits).wf(),
        final(bits).stream() == old(bits).stream(),
        ok <==> block_at(
            lit.lengths(),
            dist.lengths(),
            old(bits).stream(),
            old(bits).pos(),
            old(out)@,
            limit as nat,
        ) is Some,
        ok ==> block_at(
            lit.lengths(),
            dist.lengths(),
            old(bits).stream(),
            old(bits).pos(),
            old(out)@,
            limit as nat,
        ) == Some((final(out)@, final(bits).pos())),
{
    let ghost stream = bits.stream();
    let ghost goal = block_at(
        lit.lengths(),
        dist.lengths(),
        stream,
        bits.pos(),
        out@,
        limit as nat,
    );
    loop
        invariant
            bits.wf(),
            bits.stream() == stream,
            stream == old(bits).stream(),
            lit.wf(),
            dist.wf(),
            goal == block_at(
                lit.lengths(),
                dist.lengths(),
                old(bits).stream(),
                old(bits).pos(),
                old(out)@,
                limit as nat,
            ),
            goal == block_at(
                lit.lengths(),
                dist.lengths(),
                stream,
                bits.pos(),
                out@,
                limit as nat,
            ),
        decreases stream.len() - bits.pos(),
    {
        if out.len() > limit {
            return false;
        }
        proof {
            bits.pos_in_stream();
            symbol_walk_advances(lit.lengths(), stream, bits.pos(), 1, 0, 0);
        }
        let sym: u16 = match lit.decode(bits) {
            Some(s) => s,
            None => {
                return false;
            },
        };
        if sym < 256 {
            out.push(sym as u8);
        } else if sym == 256 {
            return true;
        } else if sym <= 285 {
            let i: usize = sym as usize - 257;
            proof {
                match_advances(dist.lengths(), stream, bits.pos(), i as int);
                extras_small();
            }
            let len: usize = match bits.take(LENGTH_EXTRA[i] as u32) {
                Some(v) => LENGTH_BASE[i] as usize + v as usize,
                None => {
                    return false;
                },
            };
            let d: usize = match dist.decode(bits) {
                Some(d) => d as usize,
                None => {
                    return false;
                },
            };
            if d >= 30 {
                return false;
            }
            let back: usize = match bits.take(DIST_EXTRA[d] as u32) {
                Some(v) => DIST_BASE[d] as usize + v as usize,
                None => {
                    return false;
                },
            };
            if back > out.len() {
                return false;
            }
            // Overlapping copies are legal and common: copy byte by byte so
            // a run repeats as it grows.
            assert(1 <= DIST_BASE@[d as int]) by {
                extras_small();
            }
            let ghost before = out@;
            let mut k: usize = 0;
            while k < len
                invariant
                    k <= len,
                    1 <= back <= before.len(),
                    out@.len() == before.len() + k,
                    out@ == copy_back(before, back as int, k as nat),
                decreases len - k,
            {
                let byte: u8 = out[out.len() - back];
                out.push(byte);
                k = k + 1;
            }
        } else {
            return false;
        }
    }
}

proof fn extras_small()
    ensures
        forall|i: int| 0 <= i < 29 ==> #[trigger] LENGTH_EXTRA@[i] <= 16,
        forall|i: int| 0 <= i < 30 ==> #[trigger] DIST_EXTRA@[i] <= 16,
        forall|i: int| 0 <= i < 30 ==> #[trigger] DIST_BASE@[i] >= 1,
{
}

/// Emit one stored block. False when the stream ends inside it or it outgrows
/// `limit`.
pub fn inflate_stored(bits: &mut Bits, out: &mut Vec<u8>, limit: usize) -> (ok: bool)
    requires
        old(bits).wf(),
        old(out)@.len() <= limit,
    ensures
        final(bits).wf(),
        final(bits).stream() == old(bits).stream(),
        ok <==> stored_at(old(bits).stream(), old(bits).pos(), old(out)@, limit as nat) is Some,
        ok ==> stored_at(old(bits).stream(), old(bits).pos(), old(out)@, limit as nat) == Some(
            (final(out)@, final(bits).pos()),
        ),
{
    let ghost stream = bits.stream();
    let ghost out0 = out@;
    bits.align();
    let ghost at = bits.pos();
    proof {
        bits.pos_in_stream();
        lemma2_to64();
        taken_bound(stream, at, 8);
        taken_bound(stream, at + 8, 8);
    }
    let lo: usize = match bits.take(8) {
        Some(v) => v as usize,
        None => {
            return false;
        },
    };
    let hi: usize = match bits.take(8) {
        Some(v) => v as usize,
        None => {
            return false;
        },
    };
    let len: usize = lo + 256 * hi;
    // Skip the complement; the chunk's check value already covers integrity.
    match bits.take(16) {
        Some(_) => {},
        None => {
            return false;
        },
    }
    if len > limit - out.len() {
        return false;
    }
    let mut k: usize = 0;
    assert(out0 + stored_bytes(stream, at + 32, 0) =~= out0);
    while k < len
        invariant
            bits.wf(),
            bits.stream() == stream,
            stream == old(bits).stream(),
            at == (old(bits).pos() + 7) / 8 * 8,
            at >= 0,
            at + 32 <= stream.len(),
            len == bits::bits_number(stream.subrange(at, at + 8)) + 256 * bits::bits_number(
                stream.subrange(at + 8, at + 16),
            ),
            k <= len,
            bits.pos() == at + 32 + 8 * k,
            out@ == out0 + stored_bytes(stream, at + 32, k as nat),
        decreases len - k,
    {
        proof {
            bits.pos_in_stream();
            lemma2_to64();
            taken_bound(stream, at + 32 + 8 * k, 8);
        }
        match bits.take(8) {
            Some(v) => out.push(v as u8),
            None => {
                return false;
            },
        }
        k = k + 1;
        assert(out@ =~= out0 + stored_bytes(stream, at + 32, k as nat));
    }
    proof {
        bits.pos_in_stream();
    }
    true
}

/// Decompress a zlib stream (the two-byte header, then deflate blocks) into at
/// most `limit` bytes, which is what the image header says it should produce.
/// A stream that keeps going past that is malformed, and following it would
/// let a small file ask for an unbounded allocation.
pub fn inflate(zlib: &[u8], limit: usize) -> (out: Option<Vec<u8>>)
    ensures
        out is Some <==> inflated(zlib@, limit as nat) is Some,
        out matches Some(bytes) ==> inflated(zlib@, limit as nat) == Some(bytes@) && bytes@.len()
            <= limit,
{
    if zlib.len() < 2 {
        return None;
    }
    let mut bits = Bits::new(slice_subrange(zlib, 2, zlib.len()));
    let mut out: Vec<u8> = Vec::new();
    let ghost stream = bits.stream();
    let ghost goal = inflated(zlib@, limit as nat);
    loop
        invariant
            bits.wf(),
            bits.stream() == stream,
            goal == inflated(zlib@, limit as nat),
            goal == blocks_at(stream, bits.pos(), out@, limit as nat),
            out@.len() <= limit,
        decreases stream.len() - bits.pos(),
    {
        let ghost before = out@;
        proof {
            bits.pos_in_stream();
        }
        let last: bool = match bits.take(1) {
            Some(v) => v == 1,
            None => {
                return None;
            },
        };
        let ghost q = bits.pos();
        proof {
            any_block_advances(stream, q, before, limit as nat);
        }
        let kind: u32 = match bits.take(2) {
            Some(v) => v,
            None => {
                return None;
            },
        };
        let ok: bool = if kind == 0 {
            inflate_stored(&mut bits, &mut out, limit)
        } else if kind == 1 {
            let (lit, dist) = fixed_tables();
            inflate_block(&mut bits, &lit, &dist, &mut out, limit)
        } else if kind == 2 {
            match dynamic_tables(&mut bits) {
                Some((lit, dist)) => inflate_block(&mut bits, &lit, &dist, &mut out, limit),
                None => false,
            }
        } else {
            false
        };
        if !ok {
            return None;
        }
        if last {
            return Some(out);
        }
    }
}

} // verus!
