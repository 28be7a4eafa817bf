//! Compression: greedy LZ77 written in deflate's fixed Huffman codes, and the
//! zlib stream around it.

use crate::render::bits;
use crate::render::bits::BitWriter;
use crate::render::checksum;
use crate::render::checksum::{adler32, push_be32};
use crate::render::inflate;
use crate::render::inflate::{DIST_BASE, DIST_EXTRA, LENGTH_BASE, LENGTH_EXTRA};
use vstd::arithmetic::power2::*;
use vstd::prelude::*;

verus! {

/// How far back a match can reach.
pub const WINDOW: usize = 32768;

pub const MIN_MATCH: usize = 3;

pub const MAX_MATCH: usize = 258;

/// How far back along a hash chain to look. Bounds the worst case on flat
/// images, where one hash can cover a very long run.
pub const MAX_CHAIN: usize = 32;

// --- The match finder --------------------------------------------------------

/// The hash of the three bytes at `i`.
pub open spec fn key_at(data: Seq<u8>, i: int) -> u32 {
    (((data[i] as u32) << 10) ^ ((data[i + 1] as u32) << 5) ^ (data[i + 2] as u32)) & 0x7fff
}

/// How many bytes at `j` and at `i` agree, from the `k`th on and up to `max`.
pub open spec fn agreement(data: Seq<u8>, j: int, i: int, k: int, max: int) -> int
    decreases max - k,
{
    if k < max && data[j + k] == data[i + k] {
        agreement(data, j, i, k + 1, max)
    } else {
        k
    }
}

/// The longest match that can begin at `i`.
pub open spec fn match_cap(data: Seq<u8>, i: int) -> int {
    if data.len() - i < MAX_MATCH {
        data.len() - i
    } else {
        MAX_MATCH as int
    }
}

/// Looking back from `j` for the bytes at `i`: of the nearest `MAX_CHAIN`
/// positions that share the hash and lie in the window, the longest match, the
/// nearest of equals. A match is its length and its distance.
pub open spec fn best_from(data: Seq<u8>, i: int, j: int, walked: int, best: (int, int)) -> (int, int)
    decreases j + 1,
{
    if j < 0 || walked >= MAX_CHAIN || i - j > WINDOW {
        best
    } else if key_at(data, j) != key_at(data, i) {
        best_from(data, i, j - 1, walked, best)
    } else {
        let len = agreement(data, j, i, 0, match_cap(data, i));
        best_from(
            data,
            i,
            j - 1,
            walked + 1,
            if len > best.0 {
                (len, i - j)
            } else {
                best
            },
        )
    }
}

/// The match the compressor takes at `i`, of length 0 where there is none.
pub open spec fn best_match(data: Seq<u8>, i: int) -> (int, int) {
    if i + MIN_MATCH <= data.len() {
        best_from(data, i, i - 1, 0, (0, 0))
    } else {
        (0, 0)
    }
}

/// The last position before `k` with the hash `key`, or -1.
spec fn last_with(data: Seq<u8>, k: int, key: u32) -> int
    decreases k,
{
    if k <= 0 {
        -1
    } else if key_at(data, k - 1) == key {
        k - 1
    } else {
        last_with(data, k - 1, key)
    }
}

proof fn last_with_bounds(data: Seq<u8>, k: int, key: u32)
    ensures
        -1 <= last_with(data, k, key),
        k >= 0 ==> last_with(data, k, key) < k || last_with(data, k, key) == -1,
        last_with(data, k, key) >= 0 ==> key_at(data, last_with(data, k, key)) == key,
    decreases k,
{
    if k > 0 && key_at(data, k - 1) != key {
        last_with_bounds(data, k - 1, key);
    }
}

/// Positions that do not share the hash change nothing, so the walk can step
/// straight to the last one that does.
proof fn walk_skips(data: Seq<u8>, i: int, j: int, walked: int, best: (int, int))
    requires
        -1 <= j < i,
    ensures
        ({
            let c = last_with(data, j + 1, key_at(data, i));
            &&& c < 0 || walked >= MAX_CHAIN || i - c > WINDOW ==> best_from(data, i, j, walked, best)
                == best
            &&& !(c < 0 || walked >= MAX_CHAIN || i - c > WINDOW) ==> best_from(
                data,
                i,
                j,
                walked,
                best,
            ) == best_from(data, i, c, walked, best)
        }),
    decreases j + 1,
{
    last_with_bounds(data, j + 1, key_at(data, i));
    if j >= 0 && key_at(data, j) != key_at(data, i) {
        walk_skips(data, i, j - 1, walked, best);
    }
}

proof fn agreement_bounds(data: Seq<u8>, j: int, i: int, k: int, max: int)
    requires
        k <= max,
    ensures
        k <= agreement(data, j, i, k, max) <= max,
        forall|x: int|
            k <= x < agreement(data, j, i, k, max) ==> #[trigger] data[i + x] == data[j + x],
    decreases max - k,
{
    if k < max && data[j + k] == data[i + k] {
        agreement_bounds(data, j, i, k + 1, max);
    }
}

/// A match of the greatest length is never improved on.
proof fn full_match_stands(data: Seq<u8>, i: int, j: int, walked: int, best: (int, int))
    requires
        best.0 == MAX_MATCH,
        0 <= i <= data.len(),
    ensures
        best_from(data, i, j, walked, best) == best,
    decreases j + 1,
{
    if !(j < 0 || walked >= MAX_CHAIN || i - j > WINDOW) {
        agreement_bounds(data, j, i, 0, match_cap(data, i));
        full_match_stands(data, i, j - 1, walked, best);
        full_match_stands(data, i, j - 1, walked + 1, best);
    }
}

/// A match repeats what lies its distance before it.
pub open spec fn is_match(data: Seq<u8>, i: int, m: (int, int)) -> bool {
    &&& 0 <= m.0 <= match_cap(data, i)
    &&& m.0 > 0 ==> 1 <= m.1 <= WINDOW && m.1 <= i
    &&& forall|x: int| 0 <= x < m.0 ==> #[trigger] data[i + x] == data[i - m.1 + x]
}

proof fn best_from_is_match(data: Seq<u8>, i: int, j: int, walked: int, best: (int, int))
    requires
        0 <= i <= data.len(),
        j < i,
        is_match(data, i, best),
    ensures
        is_match(data, i, best_from(data, i, j, walked, best)),
    decreases j + 1,
{
    if !(j < 0 || walked >= MAX_CHAIN || i - j > WINDOW) {
        if key_at(data, j) != key_at(data, i) {
            best_from_is_match(data, i, j - 1, walked, best);
        } else {
            let len = agreement(data, j, i, 0, match_cap(data, i));
            agreement_bounds(data, j, i, 0, match_cap(data, i));
            let better = if len > best.0 {
                (len, i - j)
            } else {
                best
            };
            assert(is_match(data, i, better));
            best_from_is_match(data, i, j - 1, walked + 1, better);
        }
    }
}

/// What the compressor takes at `i` is a match.
pub proof fn best_match_is_match(data: Seq<u8>, i: int)
    requires
        0 <= i <= data.len(),
    ensures
        is_match(data, i, best_match(data, i)),
{
    if i + MIN_MATCH <= data.len() {
        best_from_is_match(data, i, i - 1, 0, (0, 0));
    }
}

// --- The bits ----------------------------------------------------------------

/// A literal or length symbol in deflate's fixed code.
pub open spec fn symbol_bits(sym: int) -> Seq<bool> {
    if sym < 144 {
        bits::code_bits((0x30 + sym) as u32, 8)
    } else if sym < 256 {
        bits::code_bits((0x190 + sym - 144) as u32, 9)
    } else if sym < 280 {
        bits::code_bits((sym - 256) as u32, 7)
    } else {
        bits::code_bits((0xc0 + sym - 280) as u32, 8)
    }
}

/// The last of the first `n` entries of a rising table that is at most `v`, or
/// the first entry.
pub open spec fn last_at_most(table: Seq<u16>, v: int, n: int) -> int
    decreases n,
{
    if n <= 1 {
        0
    } else if table[n - 1] <= v {
        n - 1
    } else {
        last_at_most(table, v, n - 1)
    }
}

/// A match in the fixed code: the length symbol and its extra bits, then the
/// distance symbol and its own.
pub open spec fn match_bits(len: int, dist: int) -> Seq<bool> {
    let li = last_at_most(LENGTH_BASE@, len, 29);
    let di = last_at_most(DIST_BASE@, dist, 30);
    symbol_bits(257 + li) + (bits::value_bits(
        (len - LENGTH_BASE@[li]) as u32,
        LENGTH_EXTRA@[li] as nat,
    ) + (bits::code_bits(di as u32, 5) + bits::value_bits(
        (dist - DIST_BASE@[di]) as u32,
        DIST_EXTRA@[di] as nat,
    )))
}

/// The data from `i` on, compressed: at each position the best match when it is
/// long enough to pay, the byte itself otherwise, and the end-of-block symbol
/// behind the last.
pub open spec fn token_bits(data: Seq<u8>, i: int) -> Seq<bool>
    decreases data.len() - i,
{
    if !(0 <= i < data.len()) {
        symbol_bits(256)
    } else {
        let (len, dist) = best_match(data, i);
        proof {
            best_match_is_match(data, i);
        }
        if len >= MIN_MATCH {
            match_bits(len, dist) + token_bits(data, i + len)
        } else {
            symbol_bits(data[i] as int) + token_bits(data, i + 1)
        }
    }
}

/// The deflate stream of `data`: one final block in the fixed codes.
pub open spec fn deflated_bits(data: Seq<u8>) -> Seq<bool> {
    bits::value_bits(1, 1) + (bits::value_bits(1, 2) + token_bits(data, 0))
}

/// The zlib stream of `data`: the header, the deflate stream, and the check
/// value of the data.
pub open spec fn zlib_bytes(data: Seq<u8>) -> Seq<u8> {
    seq![0x78u8, 0x01u8] + bits::pack_bits(deflated_bits(data)) + checksum::be32(
        checksum::adler(data) as u32,
    )
}

// --- Reading it back ---------------------------------------------------------

proof fn fixed_lit_ranks(n: int)
    requires
        0 <= n <= 288,
    ensures
        forall|l: int| 1 <= l <= 6 ==> #[trigger] inflate::rank(inflate::fixed_lit(), l, n) == 0,
        inflate::rank(inflate::fixed_lit(), 7, n) == if n <= 256 {
            0
        } else if n <= 280 {
            n - 256
        } else {
            24
        },
        inflate::rank(inflate::fixed_lit(), 8, n) == if n <= 144 {
            n
        } else if n <= 280 {
            144
        } else {
            n - 136
        },
        inflate::rank(inflate::fixed_lit(), 9, n) == if n <= 144 {
            0
        } else if n <= 256 {
            n - 144
        } else {
            112
        },
    decreases n,
{
    if n > 0 {
        fixed_lit_ranks(n - 1);
        assert forall|l: int| 1 <= l <= 6 implies #[trigger] inflate::rank(inflate::fixed_lit(), l, n)
            == 0 by {
            assert(inflate::rank(inflate::fixed_lit(), l, n - 1) == 0);
        }
    }
}

proof fn fixed_dist_ranks(n: int)
    requires
        0 <= n <= 30,
    ensures
        forall|l: int| 1 <= l <= 4 ==> #[trigger] inflate::rank(inflate::fixed_dist(), l, n) == 0,
        inflate::rank(inflate::fixed_dist(), 5, n) == n,
    decreases n,
{
    if n > 0 {
        fixed_dist_ranks(n - 1);
        assert forall|l: int| 1 <= l <= 4 implies #[trigger] inflate::rank(
            inflate::fixed_dist(),
            l,
            n,
        ) == 0 by {
            assert(inflate::rank(inflate::fixed_dist(), l, n - 1) == 0);
        }
    }
}

proof fn shift_step(x: u32, k: u32)
    by (bit_vector)
    requires
        k < 31,
    ensures
        x >> k == 2 * (x >> ((k + 1) as u32)) + ((x >> k) & 1),
        (x >> k) & 1 == 0 || (x >> k) & 1 == 1,
{
}

/// While no code is as short as the bits read, the walk only gathers them.
proof fn walk_gathers(lengths: Seq<u8>, stream: Seq<bool>, p: int, code: u32, n: int, m: int)
    requires
        0 <= m < n <= 15,
        bits::holds_at(stream, p, bits::code_bits(code, n as nat)),
        code >> (n as u32) == 0,
        forall|l: int|
            1 <= l <= m ==> #[trigger] inflate::rank(lengths, l, lengths.len() as int) == 0,
    ensures
        inflate::decode_symbol(lengths, stream, p) == inflate::symbol_walk(
            lengths,
            stream,
            p + m,
            m + 1,
            2 * (code >> ((n - m) as u32)),
            0,
        ),
    decreases m,
{
    if m > 0 {
        walk_gathers(lengths, stream, p, code, n, m - 1);
        shift_step(code, (n - m) as u32);
        assert(stream[p + (m - 1)] == bits::code_bits(code, n as nat)[m - 1]);
        assert(inflate::rank(lengths, m, lengths.len() as int) == 0);
    }
}

/// Where a stream holds a symbol in the fixed code, decoding gives the symbol.
proof fn fixed_symbol_reads_back(stream: Seq<bool>, p: int, sym: int)
    requires
        0 <= sym < 288,
        bits::holds_at(stream, p, symbol_bits(sym)),
    ensures
        inflate::decode_symbol(inflate::fixed_lit(), stream, p) == Some(
            (sym, p + symbol_bits(sym).len()),
        ),
{
    let lengths = inflate::fixed_lit();
    fixed_lit_ranks(288);
    fixed_lit_ranks(sym);
    inflate::nth_symbol_is(lengths, lengths[sym] as int, sym, 288);
    if 256 <= sym < 280 {
        let code = (sym - 256) as u32;
        assert(code >> 7u32 == 0) by (bit_vector)
            requires
                code < 24,
        ;
        walk_gathers(lengths, stream, p, code, 7, 6);
        shift_step(code, 0);
        assert(code >> 0u32 == code) by (bit_vector);
        assert(stream[p + 6] == bits::code_bits(code, 7)[6]);
    } else if 144 <= sym < 256 {
        let code = (0x190 + sym - 144) as u32;
        assert(code >> 9u32 == 0) by (bit_vector)
            requires
                code < 512,
        ;
        walk_gathers(lengths, stream, p, code, 9, 6);
        shift_step(code, 0);
        shift_step(code, 1);
        shift_step(code, 2);
        assert(code >> 0u32 == code) by (bit_vector);
        assert(stream[p + 6] == bits::code_bits(code, 9)[6]);
        assert(stream[p + 7] == bits::code_bits(code, 9)[7]);
        assert(stream[p + 8] == bits::code_bits(code, 9)[8]);
        reveal_with_fuel(inflate::symbol_walk, 4);
    } else {
        let code = if sym < 144 {
            (0x30 + sym) as u32
        } else {
            (0xc0 + sym - 280) as u32
        };
        assert(code >> 8u32 == 0) by (bit_vector)
            requires
                code < 256,
        ;
        walk_gathers(lengths, stream, p, code, 8, 6);
        shift_step(code, 0);
        shift_step(code, 1);
        assert(code >> 0u32 == code) by (bit_vector);
        assert(stream[p + 6] == bits::code_bits(code, 8)[6]);
        assert(stream[p + 7] == bits::code_bits(code, 8)[7]);
        reveal_with_fuel(inflate::symbol_walk, 3);
    }
}

/// Where a stream holds a distance symbol in the fixed code, decoding gives it.
proof fn fixed_distance_reads_back(stream: Seq<bool>, p: int, d: int)
    requires
        0 <= d < 30,
        bits::holds_at(stream, p, bits::code_bits(d as u32, 5)),
    ensures
        inflate::decode_symbol(inflate::fixed_dist(), stream, p) == Some((d, p + 5)),
{
    let lengths = inflate::fixed_dist();
    let code = d as u32;
    fixed_dist_ranks(30);
    fixed_dist_ranks(d);
    inflate::nth_symbol_is(lengths, 5, d, 30);
    assert(code >> 5u32 == 0) by (bit_vector)
        requires
            code < 30,
    ;
    walk_gathers(lengths, stream, p, code, 5, 4);
    shift_step(code, 0);
    assert(code >> 0u32 == code) by (bit_vector);
    assert(stream[p + 4] == bits::code_bits(code, 5)[4]);
}

proof fn last_at_most_holds(table: Seq<u16>, v: int, n: int)
    requires
        1 <= n <= table.len(),
        table[0] <= v,
    ensures
        0 <= last_at_most(table, v, n) < n,
        table[last_at_most(table, v, n)] <= v,
        last_at_most(table, v, n) + 1 < n ==> v < table[last_at_most(table, v, n) + 1],
    decreases n,
{
    if n > 1 && table[n - 1] > v {
        last_at_most_holds(table, v, n - 1);
    }
}

/// Each length or distance symbol spans as many values as its extra bits count.
proof fn symbols_span()
    ensures
        forall|i: int|
            0 <= i < 28 ==> #[trigger] LENGTH_BASE@[i + 1] - LENGTH_BASE@[i] <= pow2(
                LENGTH_EXTRA@[i] as nat,
            ),
        forall|i: int|
            0 <= i < 29 ==> #[trigger] DIST_BASE@[i + 1] - DIST_BASE@[i] <= pow2(
                DIST_EXTRA@[i] as nat,
            ),
        pow2(DIST_EXTRA@[29] as nat) == 8192,
        pow2(LENGTH_EXTRA@[28] as nat) == 1,
{
    lemma2_to64();
}

/// Where a stream holds a match in the fixed code, decoding gives the match.
proof fn match_reads_back(stream: Seq<bool>, p: int, len: int, dist: int)
    requires
        MIN_MATCH <= len <= MAX_MATCH,
        1 <= dist <= WINDOW,
        bits::holds_at(stream, p, match_bits(len, dist)),
    ensures
        ({
            let li = last_at_most(LENGTH_BASE@, len, 29);
            let q = p + symbol_bits(257 + li).len();
            &&& 0 <= li < 29
            &&& inflate::decode_symbol(inflate::fixed_lit(), stream, p) == Some((257 + li, q))
            &&& inflate::match_at(inflate::fixed_dist(), stream, q, li) == Some(
                (len as nat, dist as nat, p + match_bits(len, dist).len()),
            )
        }),
{
    let li = last_at_most(LENGTH_BASE@, len, 29);
    let di = last_at_most(DIST_BASE@, dist, 30);
    last_at_most_holds(LENGTH_BASE@, len, 29);
    last_at_most_holds(DIST_BASE@, dist, 30);
    symbols_span();
    let le = (len - LENGTH_BASE@[li]) as u32;
    let de = (dist - DIST_BASE@[di]) as u32;
    let len_width = LENGTH_EXTRA@[li] as u32;
    let dist_width = DIST_EXTRA@[di] as u32;
    let tail3 = bits::value_bits(de, dist_width as nat);
    let tail2 = bits::code_bits(di as u32, 5) + tail3;
    let tail1 = bits::value_bits(le, len_width as nat) + tail2;
    let sym = symbol_bits(257 + li);
    bits::holds_at_splits(stream, p, sym, tail1);
    let q = p + sym.len();
    bits::holds_at_splits(stream, q, bits::value_bits(le, len_width as nat), tail2);
    let r = q + len_width;
    bits::holds_at_splits(stream, r, bits::code_bits(di as u32, 5), tail3);
    fixed_symbol_reads_back(stream, p, 257 + li);
    assert(len_width <= 5 && dist_width <= 13);
    bits::pow2_is_shift(len_width);
    bits::pow2_is_shift(dist_width);
    if li < 28 {
        assert(LENGTH_BASE@[li + 1] - LENGTH_BASE@[li] <= pow2(LENGTH_EXTRA@[li] as nat));
    }
    if di < 29 {
        assert(DIST_BASE@[di + 1] - DIST_BASE@[di] <= pow2(DIST_EXTRA@[di] as nat));
    }
    bits::take_reads_value(stream, q, le, len_width);
    fixed_distance_reads_back(stream, r, di);
    bits::take_reads_value(stream, r + 5, de, dist_width);
}

/// Copying a match's bytes from its distance back extends the data already
/// there.
proof fn copy_extends(data: Seq<u8>, i: int, dist: int, len: nat)
    requires
        1 <= dist <= i,
        i + len <= data.len(),
        forall|x: int| 0 <= x < len ==> #[trigger] data[i + x] == data[i - dist + x],
    ensures
        inflate::copy_back(data.take(i), dist, len) == data.take(i + len),
    decreases len,
{
    if len > 0 {
        copy_extends(data, i, dist, (len - 1) as nat);
        assert(data[i + (len - 1)] == data[i - dist + (len - 1)]);
        assert(inflate::copy_back(data.take(i), dist, len) =~= data.take(i + len));
    }
}

/// Where a stream holds the data from `i` on, decoding the block behind what
/// came before gives all of it.
proof fn tokens_read_back(data: Seq<u8>, i: int, stream: Seq<bool>, p: int, limit: nat)
    requires
        0 <= i <= data.len() <= limit,
        bits::holds_at(stream, p, token_bits(data, i)),
    ensures
        inflate::block_at(
            inflate::fixed_lit(),
            inflate::fixed_dist(),
            stream,
            p,
            data.take(i),
            limit,
        ) == Some((data, p + token_bits(data, i).len())),
    decreases data.len() - i,
{
    if i >= data.len() {
        fixed_symbol_reads_back(stream, p, 256);
        assert(data.take(i) =~= data);
    } else {
        let (len, dist) = best_match(data, i);
        best_match_is_match(data, i);
        if len >= MIN_MATCH {
            bits::holds_at_splits(stream, p, match_bits(len, dist), token_bits(data, i + len));
            match_reads_back(stream, p, len, dist);
            copy_extends(data, i, dist, len as nat);
            tokens_read_back(data, i + len, stream, p + match_bits(len, dist).len(), limit);
        } else {
            let sym = data[i] as int;
            bits::holds_at_splits(stream, p, symbol_bits(sym), token_bits(data, i + 1));
            fixed_symbol_reads_back(stream, p, sym);
            assert(data.take(i).push(data[i]) =~= data.take(i + 1));
            tokens_read_back(data, i + 1, stream, p + symbol_bits(sym).len(), limit);
        }
    }
}

/// The bytes behind the zlib header hold the deflate stream.
proof fn zlib_holds_stream(data: Seq<u8>)
    ensures
        ({
            let zlib = zlib_bytes(data);
            bits::holds_at(
                bits::stream_bits(zlib.subrange(2, zlib.len() as int)),
                0,
                deflated_bits(data),
            )
        }),
{
    let zlib = zlib_bytes(data);
    let check = checksum::be32(checksum::adler(data) as u32);
    assert(zlib.subrange(2, zlib.len() as int) =~= bits::pack_bits(deflated_bits(data)) + check);
    bits::packed_bits_lead(deflated_bits(data), check);
}

/// Decompressing what was compressed gives the data back, whenever the limit
/// leaves room for it.
pub proof fn inflate_undoes_zlib(data: Seq<u8>, limit: nat)
    requires
        data.len() <= limit,
    ensures
        inflate::inflated(zlib_bytes(data), limit) == Some(data),
{
    let zlib = zlib_bytes(data);
    let stream = bits::stream_bits(zlib.subrange(2, zlib.len() as int));
    zlib_holds_stream(data);
    let tokens = token_bits(data, 0);
    let kind = bits::value_bits(1, 2);
    bits::holds_at_splits(stream, 0, bits::value_bits(1, 1), kind + tokens);
    bits::holds_at_splits(stream, 1, kind, tokens);
    assert(1u32 < 1u32 << 1u32) by (bit_vector);
    assert(1u32 < 1u32 << 2u32) by (bit_vector);
    bits::take_reads_value(stream, 0, 1, 1);
    bits::take_reads_value(stream, 1, 1, 2);
    assert(data.take(0) =~= Seq::<u8>::empty());
    tokens_read_back(data, 0, stream, 3, limit);
    final_block_ends(stream, data, (3 + tokens.len()) as int, limit);
}

/// A stream of more data than the limit allows gives nothing, not a part of it.
pub proof fn data_over_the_limit_gives_nothing(data: Seq<u8>, limit: nat)
    requires
        data.len() > limit,
    ensures
        inflate::inflated(zlib_bytes(data), limit) is None,
{
    let zlib = zlib_bytes(data);
    if inflate::inflated(zlib, limit) is Some {
        inflate::a_higher_limit_changes_nothing(zlib, limit, data.len());
        inflate_undoes_zlib(data, data.len());
        inflate::blocks_stay_within_limit(
            bits::stream_bits(zlib.subrange(2, zlib.len() as int)),
            0,
            Seq::empty(),
            limit,
        );
    }
}

/// A final block in the fixed codes is all the output there is.
proof fn final_block_ends(stream: Seq<bool>, out: Seq<u8>, end: int, limit: nat)
    requires
        bits::take_bits(stream, 0, 1) == Some((1nat, 1int)),
        bits::take_bits(stream, 1, 2) == Some((1nat, 3int)),
        inflate::block_at(
            inflate::fixed_lit(),
            inflate::fixed_dist(),
            stream,
            3,
            Seq::empty(),
            limit,
        ) == Some((out, end)),
    ensures
        inflate::blocks_at(stream, 0, Seq::empty(), limit) == Some(out),
{
    assert(inflate::any_block_at(stream, 1, Seq::empty(), limit) == Some((out, end)));
}

// --- How long it gets ----------------------------------------------------------

proof fn token_bits_length(data: Seq<u8>, i: int)
    requires
        0 <= i <= data.len(),
    ensures
        token_bits(data, i).len() <= 9 * (data.len() - i) + 7,
    decreases data.len() - i,
{
    if i < data.len() {
        let (len, dist) = best_match(data, i);
        best_match_is_match(data, i);
        if len >= MIN_MATCH {
            last_at_most_holds(LENGTH_BASE@, len, 29);
            last_at_most_holds(DIST_BASE@, dist, 30);
            if len == 3 {
                assert(LENGTH_BASE@[0] == 3 && LENGTH_BASE@[1] == 4);
                let li = last_at_most(LENGTH_BASE@, len, 29);
                assert(li == 0) by {
                    assert(forall|k: int| 1 <= k < 29 ==> #[trigger] LENGTH_BASE@[k] > 3);
                }
            }
            token_bits_length(data, i + len);
        } else {
            token_bits_length(data, i + 1);
        }
    }
}

/// The stream is never longer than nine bits a byte and a few bytes around
/// them.
pub proof fn zlib_length(data: Seq<u8>)
    ensures
        8 * zlib_bytes(data).len() <= 9 * data.len() + 72,
{
    token_bits_length(data, 0);
}

// --- The compressor --------------------------------------------------------------

/// Emit one literal or length symbol in deflate's fixed code.
pub fn fixed_symbol(w: &mut BitWriter, sym: u16)
    requires
        old(w).wf(),
        sym < 288,
    ensures
        final(w).wf(),
        final(w).written() == old(w).written() + symbol_bits(sym as int),
{
    if sym <= 143 {
        w.code(0x30 + sym as u32, 8);
    } else if sym <= 255 {
        w.code(0x190 + sym as u32 - 144, 9);
    } else if sym <= 279 {
        w.code(sym as u32 - 256, 7);
    } else {
        w.code(0xc0 + sym as u32 - 280, 8);
    }
}

/// Where a rising table's last entry at most `v` stands.
fn rposition_at_most(table: &[u16], v: usize) -> (at: usize)
    requires
        table@.len() >= 1,
    ensures
        at == last_at_most(table@, v as int, table@.len() as int),
        at < table@.len(),
{
    let mut n: usize = table.len();
    while n > 1 && table[n - 1] as usize > v
        invariant
            1 <= n <= table@.len(),
            last_at_most(table@, v as int, table@.len() as int) == last_at_most(
                table@,
                v as int,
                n as int,
            ),
        decreases n,
    {
        n = n - 1;
    }
    n - 1
}

fn hash(data: &[u8], i: usize) -> (h: usize)
    requires
        i + 3 <= data@.len(),
    ensures
        h == key_at(data@, i as int),
        h < 32768,
{
    let h: u32 = (((data[i] as u32) << 10) ^ ((data[i + 1] as u32) << 5) ^ (data[i + 2] as u32))
        & 0x7fff;
    let ghost whole = (((data@[i as int] as u32) << 10) ^ ((data@[i + 1] as u32) << 5) ^ (data@[i
        + 2] as u32));
    assert(whole & 0x7fff < 32768) by (bit_vector);
    h as usize
}

/// `v` names position `x`, or none when there is none.
spec fn names(v: usize, x: int) -> bool {
    if x < 0 {
        v == usize::MAX
    } else {
        v == x
    }
}

/// How many of the positions before `i` begin three bytes of data.
spec fn indexable(data: Seq<u8>, i: int) -> int {
    if i + 2 <= data.len() {
        i
    } else if data.len() >= 2 {
        data.len() - 2
    } else {
        0
    }
}

/// The chains after the positions before `k` have been indexed: each head names
/// the last position with its hash, each link the one before it.
spec fn chained(data: Seq<u8>, heads: Seq<usize>, prev: Seq<usize>, k: int) -> bool {
    &&& heads.len() == 32768
    &&& prev.len() >= data.len()
    &&& 0 <= k
    &&& forall|h: u32| h < 32768 ==> names(#[trigger] heads[h as int], last_with(data, k, h))
    &&& forall|j: int|
        0 <= j < k ==> names(#[trigger] prev[j], last_with(data, j, key_at(data, j)))
}

/// Index the three bytes at `k`, the next position in line.
fn index_position(data: &[u8], heads: &mut Vec<usize>, prev: &mut Vec<usize>, k: usize)
    requires
        k + 3 <= data@.len(),
        chained(data@, old(heads)@, old(prev)@, k as int),
    ensures
        chained(data@, final(heads)@, final(prev)@, k + 1),
{
    let h: usize = hash(data, k);
    prev[k] = heads[h];
    heads[h] = k;
    proof {
        assert forall|x: u32| x < 32768 implies names(
            #[trigger] heads@[x as int],
            last_with(data@, k + 1, x),
        ) by {
            assert(names(old(heads)@[x as int], last_with(data@, k as int, x)));
        }
        assert(names(old(heads)@[h as int], last_with(data@, k as int, h as u32)));
        assert forall|j: int| 0 <= j < k + 1 implies names(
            #[trigger] prev@[j],
            last_with(data@, j, key_at(data@, j)),
        ) by {
            if j < k {
                assert(names(old(prev)@[j], last_with(data@, j, key_at(data@, j))));
            }
        }
    }
}

/// The best match at `i` along the hash chain.
fn find_match(data: &[u8], heads: &Vec<usize>, prev: &Vec<usize>, i: usize) -> (m: (usize, usize))
    requires
        i + 3 <= data@.len(),
        chained(data@, heads@, prev@, i as int),
    ensures
        (m.0 as int, m.1 as int) == best_match(data@, i as int),
{
    let mut best_len: usize = 0;
    let mut best_dist: usize = 0;
    let h: usize = hash(data, i);
    let mut candidate: usize = heads[h];
    let mut walked: usize = 0;
    let ghost goal = best_match(data@, i as int);
    let ghost key = key_at(data@, i as int);
    let ghost mut j = i - 1;
    proof {
        assert(names(heads@[h as int], last_with(data@, i as int, h as u32)));
        last_with_bounds(data@, i as int, key);
        walk_skips(data@, i as int, i - 1, 0, (0, 0));
        assert(data.len() == data@.len());
    }
    while candidate != usize::MAX && walked < MAX_CHAIN
        invariant_except_break
            goal == best_from(
                data@,
                i as int,
                j,
                walked as int,
                (best_len as int, best_dist as int),
            ),
            candidate == usize::MAX || walked >= MAX_CHAIN ==> goal == (
                best_len as int,
                best_dist as int,
            ),
        invariant
            i + 3 <= data@.len(),
            chained(data@, heads@, prev@, i as int),
            goal == best_match(data@, i as int),
            key == key_at(data@, i as int),
            -1 <= j < i,
            names(candidate, last_with(data@, j + 1, key)),
        ensures
            goal == (best_len as int, best_dist as int),
        decreases j + 1,
    {
        proof {
            last_with_bounds(data@, j + 1, key);
            walk_skips(data@, i as int, j, walked as int, (best_len as int, best_dist as int));
            assert(data.len() == data@.len());
        }
        let dist: usize = i - candidate;
        if dist > WINDOW {
            break;
        }
        let max: usize = if data.len() - i < MAX_MATCH {
            data.len() - i
        } else {
            MAX_MATCH
        };
        let mut len: usize = 0;
        while len < max && data[candidate + len] == data[i + len]
            invariant
                candidate < i,
                len <= max,
                i + max <= data.len(),
                data.len() == data@.len(),
                agreement(data@, candidate as int, i as int, 0, max as int) == agreement(
                    data@,
                    candidate as int,
                    i as int,
                    len as int,
                    max as int,
                ),
            decreases max - len,
        {
            len = len + 1;
        }
        let ghost best = (best_len as int, best_dist as int);
        if len > best_len {
            best_len = len;
            best_dist = dist;
            if len == MAX_MATCH {
                proof {
                    full_match_stands(
                        data@,
                        i as int,
                        candidate - 1,
                        walked + 1,
                        (best_len as int, best_dist as int),
                    );
                }
                break;
            }
        }
        proof {
            assert(names(
                prev@[candidate as int],
                last_with(data@, candidate as int, key_at(data@, candidate as int)),
            ));
            j = candidate - 1;
        }
        candidate = prev[candidate];
        walked = walked + 1;
        proof {
            last_with_bounds(data@, j + 1, key);
            walk_skips(data@, i as int, j, walked as int, (best_len as int, best_dist as int));
        }
    }
    (best_len, best_dist)
}

/// Emit one match in the fixed code.
fn emit_match(w: &mut BitWriter, len: usize, dist: usize)
    requires
        old(w).wf(),
        MIN_MATCH <= len <= MAX_MATCH,
        1 <= dist <= WINDOW,
    ensures
        final(w).wf(),
        final(w).written() == old(w).written() + match_bits(len as int, dist as int),
{
    let ghost before = w.written();
    let li: usize = rposition_at_most(&LENGTH_BASE, len);
    let di: usize = rposition_at_most(&DIST_BASE, dist);
    proof {
        last_at_most_holds(LENGTH_BASE@, len as int, 29);
        last_at_most_holds(DIST_BASE@, dist as int, 30);
        assert(LENGTH_EXTRA@[li as int] <= 5 && DIST_EXTRA@[di as int] <= 13);
    }
    fixed_symbol(w, 257 + li as u16);
    w.bits((len - LENGTH_BASE[li] as usize) as u32, LENGTH_EXTRA[li] as u32);
    w.code(di as u32, 5);
    w.bits((dist - DIST_BASE[di] as usize) as u32, DIST_EXTRA[di] as u32);
    assert(w.written() =~= before + match_bits(len as int, dist as int));
}

/// Greedy LZ77 over a hash of the next three bytes, emitted in the fixed code.
pub fn deflate_fixed(data: &[u8], w: &mut BitWriter)
    requires
        old(w).wf(),
    ensures
        final(w).wf(),
        final(w).written() == old(w).written() + token_bits(data@, 0),
{
    let mut heads: Vec<usize> = vec![usize::MAX; 32768];
    let mut prev: Vec<usize> = vec![
        usize::MAX;
        if data.len() > 0 {
            data.len()
        } else {
            1
        }
    ];
    let ghost whole = w.written() + token_bits(data@, 0);
    let mut i: usize = 0;
    while i < data.len()
        invariant
            i <= data@.len(),
            w.wf(),
            chained(data@, heads@, prev@, indexable(data@, i as int)),
            w.written() + token_bits(data@, i as int) == whole,
        decreases data@.len() - i,
    {
        let ghost before = w.written();
        let ghost start = i as int;
        let mut best_len: usize = 0;
        let mut best_dist: usize = 0;
        proof {
            best_match_is_match(data@, i as int);
        }
        if data.len() - i >= MIN_MATCH {
            let (len, dist) = find_match(data, &heads, &prev, i);
            best_len = len;
            best_dist = dist;
            index_position(data, &mut heads, &mut prev, i);
        }
        if best_len >= MIN_MATCH {
            emit_match(w, best_len, best_dist);
            // Index the bytes the match covered so later matches can find them.
            let mut k: usize = i + 1;
            let end: usize = i + best_len;
            while k < end && data.len() - k >= MIN_MATCH
                invariant
                    i < k <= end <= data@.len(),
                    chained(data@, heads@, prev@, indexable(data@, k as int)),
                decreases end - k,
            {
                index_position(data, &mut heads, &mut prev, k);
                k = k + 1;
            }
            assert(indexable(data@, k as int) == indexable(data@, end as int));
            i = end;
            assert(w.written() + token_bits(data@, i as int) =~= before + (match_bits(
                best_len as int,
                best_dist as int,
            ) + token_bits(data@, i as int)));
        } else {
            let sym: u8 = data[i];
            fixed_symbol(w, sym as u16);
            i = i + 1;
            assert(w.written() + token_bits(data@, i as int) =~= before + (symbol_bits(sym as int)
                + token_bits(data@, i as int)));
        }
    }
    fixed_symbol(w, 256);
}

/// Whole bytes in front of packed bits stay as they are.
proof fn header_stays(header: Seq<u8>, tail: Seq<bool>)
    ensures
        bits::pack_bits(bits::stream_bits(header) + tail) == header + bits::pack_bits(tail),
{
    let bytes = header + bits::pack_bits(tail);
    let all = bits::stream_bits(header) + tail;
    assert forall|i: int| 0 <= i < 8 * bytes.len() implies #[trigger] bits::stream_bits(bytes)[i] == (i
        < all.len() && all[i]) by {
        let k = i - 8 * header.len();
        if k >= 0 {
            assert(bytes[i / 8] == bits::pack_bits(tail)[k / 8]);
            assert(k % 8 == i % 8);
            bits::byte_from_bits_holds(tail, 8 * (k / 8), k % 8);
        } else {
            assert(bytes[i / 8] == header[i / 8]);
        }
    }
    bits::packing_is_unique(bytes, all);
}

/// Wrap `data` in a zlib stream: one fixed-Huffman deflate block over an LZ77
/// pass, then the Adler checksum.
pub fn zlib(data: &[u8]) -> (out: Vec<u8>)
    ensures
        out@ == zlib_bytes(data@),
{
    // CMF 0x78 (deflate, 32K window) and FLG 0x01, whose check bits make the
    // pair a multiple of 31.
    let header: Vec<u8> = vec![0x78u8, 0x01u8];
    let ghost head = header@;
    let mut w = BitWriter::new(header);
    w.bits(1, 1);  // final block
    w.bits(1, 2);  // fixed Huffman codes
    deflate_fixed(data, &mut w);
    proof {
        assert(w.written() =~= bits::stream_bits(head) + deflated_bits(data@));
        header_stays(head, deflated_bits(data@));
        assert(head =~= seq![0x78u8, 0x01u8]);
    }
    let mut out: Vec<u8> = w.finish();
    push_be32(&mut out, adler32(data));
    out
}

} // verus!
