//! What a compressed stream's bits mean, whoever wrote it.

use crate::render::bits;
use crate::render::inflate;
use crate::render::inflate::{DIST_BASE, DIST_EXTRA, LENGTH_BASE, LENGTH_EXTRA, ORDER};
use vstd::arithmetic::power2::*;
use vstd::prelude::*;

verus! {

// --- Codes ----------------------------------------------------------------------------------

/// The number some bits spell, the first the most significant.
pub open spec fn spelled(stream: Seq<bool>, p: int, n: int) -> int
    decreases n,
{
    if n <= 0 {
        0
    } else {
        2 * spelled(stream, p, n - 1) + if stream[p + n - 1] {
            1int
        } else {
            0
        }
    }
}

/// How many symbols before `n` have a code of `l` bits.
pub open spec fn before(lengths: Seq<u8>, l: int, n: int) -> nat {
    lengths.take(n).filter(|x: u8| x == l).len()
}

proof fn before_counts(lengths: Seq<u8>, l: int, n: int)
    requires
        0 <= n <= lengths.len(),
    ensures
        before(lengths, l, n) == inflate::rank(lengths, l, n),
    decreases n,
{
    reveal(Seq::filter);
    if n > 0 {
        before_counts(lengths, l, n - 1);
        assert(lengths.take(n).drop_last() =~= lengths.take(n - 1));
    }
}

/// The first code of `l` bits: the one behind the last shorter code, with zeros put
/// behind it.
pub open spec fn first_code(lengths: Seq<u8>, l: int) -> int
    decreases l,
{
    if l <= 1 {
        0
    } else {
        2 * (first_code(lengths, l - 1) + before(lengths, l - 1, lengths.len() as int))
    }
}

/// Whether the bits from `p` up to `q` are a symbol's code: codes of one length count up
/// from the first, in the order of their symbols.
pub open spec fn coded(lengths: Seq<u8>, stream: Seq<bool>, p: int, s: int, q: int) -> bool {
    &&& 0 <= s < lengths.len()
    &&& 1 <= lengths[s] <= 15
    &&& 0 <= p
    &&& q == p + lengths[s]
    &&& q <= stream.len()
    &&& spelled(stream, p, lengths[s] as int) == first_code(lengths, lengths[s] as int) + before(
        lengths,
        lengths[s] as int,
        s,
    )
}

/// A code that falls short of the next length's first stays short of it.
proof fn short_stays_short(lengths: Seq<u8>, stream: Seq<bool>, p: int, l: int, m: int)
    requires
        1 <= l < m,
        spelled(stream, p, l) < first_code(lengths, l) + before(
            lengths,
            l,
            lengths.len() as int,
        ),
    ensures
        spelled(stream, p, m) < first_code(lengths, m),
    decreases m - l,
{
    if m > l + 1 {
        short_stays_short(lengths, stream, p, l, m - 1);
    }
}

proof fn walk_finds(lengths: Seq<u8>, stream: Seq<bool>, p: int, s: int, q: int, l: int)
    requires
        coded(lengths, stream, p, s, q),
        1 <= l <= lengths[s],
    ensures
        inflate::symbol_walk(
            lengths,
            stream,
            p + l - 1,
            l,
            2 * spelled(stream, p, l - 1),
            first_code(lengths, l),
        ) == Some((s, q)),
    decreases lengths[s] - l,
{
    let n = lengths.len() as int;
    let own = lengths[s] as int;
    before_counts(lengths, own, s);
    before_counts(lengths, l, n);
    inflate::rank_bounds(lengths, own, s);
    if l < own {
        if spelled(stream, p, l) < first_code(lengths, l) + before(lengths, l, n) {
            short_stays_short(lengths, stream, p, l, own);
        }
        walk_finds(lengths, stream, p, s, q, l + 1);
    } else {
        inflate::nth_symbol_is(lengths, own, s, n);
        inflate::rank_monotone(lengths, own, s + 1, n);
    }
}

/// A symbol is read back from its code, whatever the lengths of the code are.
pub proof fn symbols_are_read_back(lengths: Seq<u8>, stream: Seq<bool>, p: int, s: int, q: int)
    requires
        coded(lengths, stream, p, s, q),
    ensures
        inflate::decode_symbol(lengths, stream, p) == Some((s, q)),
{
    walk_finds(lengths, stream, p, s, q, 1);
}

// --- Tables ---------------------------------------------------------------------------------

/// Every length from the shortest to the longest has its symbol and no other: each
/// symbol's lengths begin where those of the one before it end. The longest has one of
/// its own.
pub proof fn lengths_leave_no_gap(i: int)
    requires
        0 <= i < 28,
    ensures
        LENGTH_BASE@[0] == 3,
        LENGTH_BASE@[28] == 258,
        LENGTH_EXTRA@[28] == 0,
        i < 27 ==> LENGTH_BASE@[i + 1] == LENGTH_BASE@[i] + pow2(LENGTH_EXTRA@[i] as nat),
        LENGTH_EXTRA@[i] == if i < 8 {
            0
        } else {
            i / 4 - 1
        },
        LENGTH_BASE@[27] + pow2(LENGTH_EXTRA@[27] as nat) == 259,
{
    lemma2_to64();
    assert(i == 0 || i == 1 || i == 2 || i == 3 || i == 4 || i == 5 || i == 6 || i == 7 || i == 8 || i
        == 9 || i == 10 || i == 11 || i == 12 || i == 13 || i == 14 || i == 15 || i == 16 || i == 17
        || i == 18 || i == 19 || i == 20 || i == 21 || i == 22 || i == 23 || i == 24 || i == 25 || i
        == 26 || i == 27);
}

/// The same of distances, which run to the whole window.
pub proof fn distances_leave_no_gap(i: int)
    requires
        0 <= i < 30,
    ensures
        DIST_BASE@[0] == 1,
        i < 29 ==> DIST_BASE@[i + 1] == DIST_BASE@[i] + pow2(DIST_EXTRA@[i] as nat),
        DIST_EXTRA@[i] == if i < 2 {
            0
        } else {
            i / 2 - 1
        },
        DIST_BASE@[29] + pow2(DIST_EXTRA@[29] as nat) == 32769,
{
    lemma2_to64();
    assert(i == 0 || i == 1 || i == 2 || i == 3 || i == 4 || i == 5 || i == 6 || i == 7 || i == 8 || i
        == 9 || i == 10 || i == 11 || i == 12 || i == 13 || i == 14 || i == 15 || i == 16 || i == 17
        || i == 18 || i == 19 || i == 20 || i == 21 || i == 22 || i == 23 || i == 24 || i == 25 || i
        == 26 || i == 27 || i == 28 || i == 29);
}

/// The code-length code is listed from the middle out, behind its three runs and zero.
pub proof fn code_lengths_go_from_the_middle_out(j: int)
    requires
        0 <= j < 8,
    ensures
        ORDER@[0] == 16,
        ORDER@[1] == 17,
        ORDER@[2] == 18,
        ORDER@[3] == 0,
        ORDER@[4 + 2 * j] == 8 + j,
        j < 7 ==> ORDER@[5 + 2 * j] == 7 - j,
{
    assert(j == 0 || j == 1 || j == 2 || j == 3 || j == 4 || j == 5 || j == 6 || j == 7);
}

// --- Blocks ---------------------------------------------------------------------------------

/// What a coded block is made of: bytes, and copies of what came `back` bytes before.
pub enum Item {
    Byte(u8),
    Copy { len: nat, back: nat },
}

/// The number of `n` bits from `p`, the first the least significant.
pub open spec fn number(stream: Seq<bool>, p: int, n: int) -> nat {
    bits::bits_number(stream.subrange(p, p + n))
}

/// Whether the bits from `p` up to `q` are a copy's: its length's symbol and extra bits,
/// then its distance's.
pub open spec fn copy_coded(
    lit: Seq<u8>,
    dist: Seq<u8>,
    stream: Seq<bool>,
    p: int,
    len: nat,
    back: nat,
    q: int,
    i: int,
    a: int,
    d: int,
    b: int,
) -> bool {
    &&& 0 <= i < 29
    &&& 0 <= d < 30
    &&& coded(lit, stream, p, 257 + i, a)
    &&& a + LENGTH_EXTRA@[i] <= stream.len()
    &&& len == LENGTH_BASE@[i] + number(stream, a, LENGTH_EXTRA@[i] as int)
    &&& coded(dist, stream, a + LENGTH_EXTRA@[i], d, b)
    &&& q == b + DIST_EXTRA@[d]
    &&& q <= stream.len()
    &&& back == DIST_BASE@[d] + number(stream, b, DIST_EXTRA@[d] as int)
}

pub open spec fn item_coded(
    lit: Seq<u8>,
    dist: Seq<u8>,
    stream: Seq<bool>,
    p: int,
    item: Item,
    q: int,
) -> bool {
    match item {
        Item::Byte(b) => coded(lit, stream, p, b as int, q),
        Item::Copy { len, back } => exists|i: int, a: int, d: int, b: int|
            #[trigger] copy_coded(lit, dist, stream, p, len, back, q, i, a, d, b),
    }
}

/// Whether `after` is `out` with an item behind it: a copy repeats what stands `back`
/// bytes before, byte by byte.
pub open spec fn put_out(out: Seq<u8>, item: Item, after: Seq<u8>) -> bool {
    match item {
        Item::Byte(b) => after == out.push(b),
        Item::Copy { len, back } => {
            &&& 1 <= back <= out.len()
            &&& after.len() == out.len() + len
            &&& after.take(out.len() as int) == out
            &&& forall|i: int|
                out.len() <= i < after.len() ==> #[trigger] after[i] == after[i - back]
        },
    }
}

proof fn copies_repeat(out: Seq<u8>, back: int, len: nat, after: Seq<u8>, n: nat)
    requires
        1 <= back <= out.len(),
        after.len() == out.len() + len,
        after.take(out.len() as int) == out,
        forall|i: int| out.len() <= i < after.len() ==> #[trigger] after[i] == after[i - back],
        n <= len,
    ensures
        inflate::copy_back(out, back, n) == after.take((out.len() + n) as int),
    decreases n,
{
    if n > 0 {
        copies_repeat(out, back, len, after, (n - 1) as nat);
        let shorter = inflate::copy_back(out, back, (n - 1) as nat);
        let i = (out.len() + n - 1) as int;
        assert(after[i] == after[i - back]);
        assert(shorter[i - back] == after[i - back]);
        assert(inflate::copy_back(out, back, n) =~= after.take(i + 1));
    }
}

/// A coded block gives what its items put out, one behind the other, up to its end.
pub proof fn a_coded_block_gives_its_items(
    lit: Seq<u8>,
    dist: Seq<u8>,
    stream: Seq<bool>,
    items: Seq<Item>,
    at: Seq<int>,
    outs: Seq<Seq<u8>>,
    end: int,
    limit: nat,
    k: int,
)
    requires
        at.len() == items.len() + 1,
        outs.len() == items.len() + 1,
        0 <= k <= items.len(),
        forall|j: int|
            0 <= j < items.len() ==> item_coded(
                lit,
                dist,
                stream,
                at[j],
                #[trigger] items[j],
                at[j + 1],
            ) && put_out(outs[j], items[j], outs[j + 1]),
        coded(lit, stream, at.last(), 256, end),
        forall|j: int| 0 <= j < outs.len() ==> (#[trigger] outs[j]).len() <= limit,
    ensures
        inflate::block_at(lit, dist, stream, at[k], outs[k], limit) == Some((outs.last(), end)),
    decreases items.len() - k,
{
    if k == items.len() {
        symbols_are_read_back(lit, stream, at[k], 256, end);
        assert(outs[k].len() <= limit);
    } else {
        a_coded_block_gives_its_items(lit, dist, stream, items, at, outs, end, limit, k + 1);
        let item = items[k];
        assert(item_coded(lit, dist, stream, at[k], items[k], at[k + 1]));
        assert(outs[k].len() <= limit);
        match item {
            Item::Byte(b) => {
                symbols_are_read_back(lit, stream, at[k], b as int, at[k + 1]);
            },
            Item::Copy { len, back } => {
                let (i, a, d, b) = choose|i: int, a: int, d: int, b: int|
                    #[trigger] copy_coded(
                        lit,
                        dist,
                        stream,
                        at[k],
                        len,
                        back,
                        at[k + 1],
                        i,
                        a,
                        d,
                        b,
                    );
                symbols_are_read_back(lit, stream, at[k], 257 + i, a);
                symbols_are_read_back(dist, stream, a + LENGTH_EXTRA@[i], d, b);
                assert(inflate::match_at(dist, stream, a, i) == Some((len, back, at[k + 1])));
                copies_repeat(outs[k], back as int, len, outs[k + 1], len);
                assert(outs[k + 1].take((outs[k].len() + len) as int) =~= outs[k + 1]);
            },
        }
    }
}

// --- A block's own codes --------------------------------------------------------------------

/// How a block lists its codes' lengths: one by one, the last again a few times, or zeros.
pub enum Run {
    Length(u8),
    Again(nat),
    Zeros(nat),
}

/// Whether the bits from `p` up to `q` list a run, and `next` is the list with it.
pub open spec fn run_listed(
    table: Seq<u8>,
    stream: Seq<bool>,
    p: int,
    run: Run,
    q: int,
    list: Seq<u8>,
    next: Seq<u8>,
) -> bool {
    match run {
        Run::Length(v) => v <= 15 && coded(table, stream, p, v as int, q) && next == list.push(v),
        Run::Again(n) => {
            &&& 3 <= n <= 6
            &&& list.len() > 0
            &&& q <= stream.len()
            &&& coded(table, stream, p, 16, q - 2)
            &&& number(stream, q - 2, 2) == n - 3
            &&& next == list + Seq::new(n, |i: int| list.last())
        },
        Run::Zeros(n) => {
            &&& q <= stream.len()
            &&& next == list + Seq::new(n, |i: int| 0u8)
            &&& if n <= 10 {
                3 <= n && coded(table, stream, p, 17, q - 3) && number(stream, q - 3, 3) == n - 3
            } else {
                n <= 138 && coded(table, stream, p, 18, q - 7) && number(stream, q - 7, 7) == n
                    - 11
            }
        },
    }
}

/// The lengths a block lists are read back, however it lists them.
pub proof fn listed_lengths_are_read_back(
    table: Seq<u8>,
    stream: Seq<bool>,
    runs: Seq<Run>,
    at: Seq<int>,
    lists: Seq<Seq<u8>>,
    k: int,
)
    requires
        at.len() == runs.len() + 1,
        lists.len() == runs.len() + 1,
        0 <= k <= runs.len(),
        forall|j: int|
            0 <= j < runs.len() ==> run_listed(
                table,
                stream,
                at[j],
                #[trigger] runs[j],
                at[j + 1],
                lists[j],
                lists[j + 1],
            ),
    ensures
        inflate::run_lengths(
            table,
            stream,
            at[k],
            lists[k],
            lists.last().len() as int,
        ) == Some((lists.last(), at.last())),
        lists[k].len() <= lists.last().len(),
    decreases runs.len() - k,
{
    if k < runs.len() {
        listed_lengths_are_read_back(table, stream, runs, at, lists, k + 1);
        assert(run_listed(table, stream, at[k], runs[k], at[k + 1], lists[k], lists[k + 1]));
        let q = at[k + 1];
        match runs[k] {
            Run::Length(v) => {
                symbols_are_read_back(table, stream, at[k], v as int, q);
            },
            Run::Again(n) => {
                symbols_are_read_back(table, stream, at[k], 16, q - 2);
                assert(inflate::repeated(lists[k], lists[k].last(), n) =~= lists[k + 1]);
            },
            Run::Zeros(n) => {
                assert(inflate::repeated(lists[k], 0, n) =~= lists[k + 1]);
                if n <= 10 {
                    symbols_are_read_back(table, stream, at[k], 17, q - 3);
                } else {
                    symbols_are_read_back(table, stream, at[k], 18, q - 7);
                }
            },
        }
    }
}

/// Whether the bits from `p` give the lengths of the code that lists a block's codes:
/// three bits for each of the first `count`, in their order, and none for the others.
pub open spec fn table_listed(stream: Seq<bool>, p: int, count: int, table: Seq<u8>) -> bool {
    &&& table.len() == 19
    &&& forall|j: int|
        0 <= j < count ==> table[(#[trigger] ORDER@[j]) as int] == number(
            stream,
            p + 3 * j,
            3,
        )
    &&& forall|j: int| count <= j < 19 ==> table[(#[trigger] ORDER@[j]) as int] == 0
}

proof fn order_names_all(i: int) -> (j: int)
    requires
        0 <= i < 19,
    ensures
        0 <= j < 19,
        ORDER@[j] == i,
{
    if i >= 16 {
        i - 16
    } else if i == 0 {
        3
    } else if i >= 8 {
        let j = 4 + 2 * (i - 8);
        assert(i == 8 || i == 9 || i == 10 || i == 11 || i == 12 || i == 13 || i == 14 || i == 15);
        j
    } else {
        let j = 5 + 2 * (7 - i);
        assert(i == 1 || i == 2 || i == 3 || i == 4 || i == 5 || i == 6 || i == 7);
        j
    }
}

proof fn order_names_each_once(a: int, b: int)
    requires
        0 <= a < 19,
        0 <= b < 19,
        a != b,
    ensures
        ORDER@[a] != ORDER@[b],
        ORDER@[a] < 19,
{
    assert(a == 0 || a == 1 || a == 2 || a == 3 || a == 4 || a == 5 || a == 6 || a == 7 || a == 8 || a
        == 9 || a == 10 || a == 11 || a == 12 || a == 13 || a == 14 || a == 15 || a == 16 || a == 17
        || a == 18);
    assert(b == 0 || b == 1 || b == 2 || b == 3 || b == 4 || b == 5 || b == 6 || b == 7 || b == 8 || b
        == 9 || b == 10 || b == 11 || b == 12 || b == 13 || b == 14 || b == 15 || b == 16 || b == 17
        || b == 18);
}

proof fn table_so_far(stream: Seq<bool>, p: int, count: int, table: Seq<u8>, c: int)
    requires
        table_listed(stream, p, count, table),
        0 <= c <= count <= 19,
    ensures
        inflate::code_lengths(stream, p, c).len() == 19,
        forall|j: int|
            0 <= j < c ==> inflate::code_lengths(stream, p, c)[(#[trigger] ORDER@[j]) as int]
                == table[ORDER@[j] as int],
        forall|j: int|
            c <= j < 19 ==> inflate::code_lengths(stream, p, c)[(#[trigger] ORDER@[j]) as int] == 0,
    decreases c,
{
    assert forall|j: int| 0 <= j < 19 implies (#[trigger] ORDER@[j]) < 19 by {
        order_names_each_once(j, if j == 0 {
            1
        } else {
            0
        });
    }
    if c > 0 {
        table_so_far(stream, p, count, table, c - 1);
        let last = ORDER@[c - 1];
        assert(table[last as int] == number(stream, p + 3 * (c - 1), 3));
        assert forall|j: int| 0 <= j < 19 && j != c - 1 implies (#[trigger] ORDER@[j]) != last by {
            order_names_each_once(j, c - 1);
        }
    }
}

/// Whether the bits from `p` up to `q` give a block its own codes.
pub open spec fn own_codes_by(
    stream: Seq<bool>,
    p: int,
    lit: Seq<u8>,
    dist: Seq<u8>,
    q: int,
    count: int,
    table: Seq<u8>,
    runs: Seq<Run>,
    at: Seq<int>,
    lists: Seq<Seq<u8>>,
) -> bool {
    &&& 0 <= p
    &&& count <= 19
    &&& number(stream, p, 5) == lit.len() - 257
    &&& number(stream, p + 5, 5) == dist.len() - 1
    &&& number(stream, p + 10, 4) == count - 4
    &&& table_listed(stream, p + 14, count, table)
    &&& at.len() == runs.len() + 1
    &&& lists.len() == runs.len() + 1
    &&& p + 14 + 3 * count <= stream.len()
    &&& at[0] == p + 14 + 3 * count
    &&& at.last() == q
    &&& lists[0] == Seq::<u8>::empty()
    &&& lists.last() == lit + dist
    &&& forall|j: int|
        0 <= j < runs.len() ==> run_listed(
            table,
            stream,
            at[j],
            #[trigger] runs[j],
            at[j + 1],
            lists[j],
            lists[j + 1],
        )
}

/// A block's own codes are read back from what it says of them.
pub proof fn own_codes_are_read_back(
    stream: Seq<bool>,
    p: int,
    lit: Seq<u8>,
    dist: Seq<u8>,
    q: int,
    count: int,
    table: Seq<u8>,
    runs: Seq<Run>,
    at: Seq<int>,
    lists: Seq<Seq<u8>>,
)
    requires
        own_codes_by(stream, p, lit, dist, q, count, table, runs, at, lists),
    ensures
        inflate::dynamic_at(stream, p) == Some((lit, dist, q)),
{
    table_so_far(stream, p + 14, count, table, count);
    let read = inflate::code_lengths(stream, p + 14, count);
    assert forall|i: int| 0 <= i < 19 implies read[i] == table[i] by {
        let j = order_names_all(i);
        assert(ORDER@[j] == i);
    }
    assert(read =~= table);
    listed_lengths_are_read_back(table, stream, runs, at, lists, 0);
    let all = lit + dist;
    assert(all.subrange(0, lit.len() as int) =~= lit);
    assert(all.subrange(lit.len() as int, all.len() as int) =~= dist);
}

// --- Streams --------------------------------------------------------------------------------

/// Whether the bits from `p` up to `q` are coded items and the end behind them.
pub open spec fn items_coded(
    lit: Seq<u8>,
    dist: Seq<u8>,
    stream: Seq<bool>,
    p: int,
    out: Seq<u8>,
    after: Seq<u8>,
    q: int,
    items: Seq<Item>,
    at: Seq<int>,
    outs: Seq<Seq<u8>>,
) -> bool {
    &&& at.len() == items.len() + 1
    &&& outs.len() == items.len() + 1
    &&& at[0] == p
    &&& outs[0] == out
    &&& outs.last() == after
    &&& coded(lit, stream, at.last(), 256, q)
    &&& forall|j: int|
        0 <= j < items.len() ==> item_coded(lit, dist, stream, at[j], #[trigger] items[j], at[j + 1])
            && put_out(outs[j], items[j], outs[j + 1])
}

/// Whether bytes are stored as they are: from the next whole byte, behind their count and
/// its complement.
pub open spec fn stored(
    stream: Seq<bool>,
    p: int,
    out: Seq<u8>,
    after: Seq<u8>,
    q: int,
    a: int,
    data: Seq<u8>,
) -> bool {
    &&& a % 8 == 0
    &&& p <= a < p + 8
    &&& q == a + 32 + 8 * data.len()
    &&& q <= stream.len()
    &&& data.len() == number(stream, a, 8) + 256 * number(stream, a + 8, 8)
    &&& forall|k: int| 0 <= k < data.len() ==> #[trigger] data[k] == number(stream, a + 32 + 8 * k, 8)
    &&& after == out + data
}

/// The code that needs no telling: eight bits for a literal below 144 and for the longest
/// lengths, nine for the other literals, seven for the rest; five for a distance.
pub open spec fn agreed_on(lit: Seq<u8>, dist: Seq<u8>) -> bool {
    &&& lit.len() == 288
    &&& dist.len() == 30
    &&& forall|i: int| 0 <= i < 144 ==> #[trigger] lit[i] == 8
    &&& forall|i: int| 144 <= i < 256 ==> #[trigger] lit[i] == 9
    &&& forall|i: int| 256 <= i < 280 ==> #[trigger] lit[i] == 7
    &&& forall|i: int| 280 <= i < 288 ==> #[trigger] lit[i] == 8
    &&& forall|i: int| 0 <= i < 30 ==> #[trigger] dist[i] == 5
}

/// A block, as a writer knows it.
pub enum Block {
    Stored { a: int, data: Seq<u8> },
    Coded {
        own: Option<Codes>,
        lit: Seq<u8>,
        dist: Seq<u8>,
        p: int,
        items: Seq<Item>,
        at: Seq<int>,
        outs: Seq<Seq<u8>>,
    },
}

/// How a block lists its own codes.
pub struct Codes {
    pub count: int,
    pub table: Seq<u8>,
    pub runs: Seq<Run>,
    pub at: Seq<int>,
    pub lists: Seq<Seq<u8>>,
}

/// Whether the bits from `p` up to `q` are a block's: its kind in two bits, and what the
/// kind asks for.
pub open spec fn written(
    stream: Seq<bool>,
    p: int,
    block: Block,
    out: Seq<u8>,
    after: Seq<u8>,
    q: int,
) -> bool {
    &&& 0 <= p
    &&& p + 2 <= stream.len()
    &&& match block {
        Block::Stored { a, data } => number(stream, p, 2) == 0 && stored(
            stream,
            p + 2,
            out,
            after,
            q,
            a,
            data,
        ),
        Block::Coded { own, lit, dist, p: start, items, at, outs } => {
            &&& items_coded(lit, dist, stream, start, out, after, q, items, at, outs)
            &&& match own {
                None => number(stream, p, 2) == 1 && start == p + 2 && agreed_on(lit, dist),
                Some(c) => number(stream, p, 2) == 2 && own_codes_by(
                    stream,
                    p + 2,
                    lit,
                    dist,
                    start,
                    c.count,
                    c.table,
                    c.runs,
                    c.at,
                    c.lists,
                ),
            }
        },
    }
}

proof fn items_only_add(items: Seq<Item>, outs: Seq<Seq<u8>>, k: int)
    requires
        outs.len() == items.len() + 1,
        0 <= k <= items.len(),
        forall|j: int|
            0 <= j < items.len() ==> put_out(outs[j], #[trigger] items[j], outs[j + 1]),
    ensures
        outs[k].len() <= outs.last().len(),
    decreases items.len() - k,
{
    if k < items.len() {
        items_only_add(items, outs, k + 1);
        assert(put_out(outs[k], items[k], outs[k + 1]));
    }
}

/// A block gives what its writer put in it, whichever of the three kinds it is.
pub proof fn a_block_gives_what_was_put_in_it(
    stream: Seq<bool>,
    p: int,
    block: Block,
    out: Seq<u8>,
    after: Seq<u8>,
    q: int,
    limit: nat,
)
    requires
        written(stream, p, block, out, after, q),
        after.len() <= limit,
    ensures
        inflate::any_block_at(stream, p, out, limit) == Some((after, q)),
        out.len() <= after.len(),
{
    match block {
        Block::Stored { a, data } => {
            assert(((p + 2) + 7) / 8 * 8 == a);
            assert(inflate::stored_bytes(stream, a + 32, data.len()) =~= data);
        },
        Block::Coded { own, lit, dist, p: start, items, at, outs } => {
            assert forall|j: int| 0 <= j < outs.len() implies (#[trigger] outs[j]).len() <= limit by {
                items_only_add(items, outs, j);
            }
            items_only_add(items, outs, 0);
            a_coded_block_gives_its_items(lit, dist, stream, items, at, outs, q, limit, 0);
            match own {
                None => {
                    assert(lit =~= inflate::fixed_lit());
                    assert(dist =~= inflate::fixed_dist());
                },
                Some(c) => {
                    own_codes_are_read_back(
                        stream,
                        p + 2,
                        lit,
                        dist,
                        start,
                        c.count,
                        c.table,
                        c.runs,
                        c.at,
                        c.lists,
                    );
                },
            }
        },
    }
}

/// Whether a stream is these blocks, each behind a bit that tells the last from the others.
pub open spec fn made_of(
    stream: Seq<bool>,
    blocks: Seq<Block>,
    at: Seq<int>,
    outs: Seq<Seq<u8>>,
) -> bool {
    &&& blocks.len() >= 1
    &&& at.len() == blocks.len() + 1
    &&& outs.len() == blocks.len() + 1
    &&& at[0] == 0
    &&& outs[0] == Seq::<u8>::empty()
    &&& forall|j: int|
        0 <= j < blocks.len() ==> stream[at[j]] == (j == blocks.len() - 1) && 0 <= at[j] && written(
            stream,
            at[j] + 1,
            #[trigger] blocks[j],
            outs[j],
            outs[j + 1],
            at[j + 1],
        )
}

proof fn blocks_only_add(
    stream: Seq<bool>,
    blocks: Seq<Block>,
    at: Seq<int>,
    outs: Seq<Seq<u8>>,
    k: int,
)
    requires
        made_of(stream, blocks, at, outs),
        0 <= k <= blocks.len(),
    ensures
        outs[k].len() <= outs.last().len(),
    decreases blocks.len() - k,
{
    if k < blocks.len() {
        blocks_only_add(stream, blocks, at, outs, k + 1);
        assert(written(stream, at[k] + 1, blocks[k], outs[k], outs[k + 1], at[k + 1]));
        a_block_gives_what_was_put_in_it(
            stream,
            at[k] + 1,
            blocks[k],
            outs[k],
            outs[k + 1],
            at[k + 1],
            outs[k + 1].len(),
        );
    }
}

proof fn blocks_give_theirs(
    stream: Seq<bool>,
    blocks: Seq<Block>,
    at: Seq<int>,
    outs: Seq<Seq<u8>>,
    limit: nat,
    k: int,
)
    requires
        made_of(stream, blocks, at, outs),
        outs.last().len() <= limit,
        0 <= k < blocks.len(),
    ensures
        inflate::blocks_at(stream, at[k], outs[k], limit) == Some(outs.last()),
    decreases blocks.len() - k,
{
    blocks_only_add(stream, blocks, at, outs, k + 1);
    assert(written(stream, at[k] + 1, blocks[k], outs[k], outs[k + 1], at[k + 1]));
    a_block_gives_what_was_put_in_it(
        stream,
        at[k] + 1,
        blocks[k],
        outs[k],
        outs[k + 1],
        at[k + 1],
        limit,
    );
    let bit = stream.subrange(at[k], at[k] + 1);
    assert(bit.drop_last() =~= Seq::<bool>::empty());
    assert(bits::bits_number(bit.drop_last()) == 0);
    lemma2_to64();
    assert(bits::bits_number(bit) == if stream[at[k]] {
        1nat
    } else {
        0nat
    });
    if k + 1 < blocks.len() {
        blocks_give_theirs(stream, blocks, at, outs, limit, k + 1);
    }
}

/// A file's compressed bytes give back what was put in their blocks, in order, whoever
/// wrote them and in whatever kinds of block.
pub proof fn a_stream_gives_what_was_put_in_it(
    zlib: Seq<u8>,
    blocks: Seq<Block>,
    at: Seq<int>,
    outs: Seq<Seq<u8>>,
    limit: nat,
)
    requires
        zlib.len() >= 2,
        made_of(bits::stream_bits(zlib.skip(2)), blocks, at, outs),
        outs.last().len() <= limit,
    ensures
        inflate::inflated(zlib, limit) == Some(outs.last()),
{
    assert(zlib.skip(2) =~= zlib.subrange(2, zlib.len() as int));
    blocks_give_theirs(bits::stream_bits(zlib.skip(2)), blocks, at, outs, limit, 0);
}

/// The number some bits spell grows by a bit's weight, which doubles from one to the next.
pub proof fn a_bit_weighs_twice_the_one_before(stream: Seq<bool>, p: int, n: int)
    requires
        0 <= p,
        0 <= n,
        p + n < stream.len(),
    ensures
        number(stream, p, 0) == 0,
        number(stream, p, n + 1) == number(stream, p, n) + if stream[p + n] {
            pow2(n as nat)
        } else {
            0
        },
{
    let bit = stream.subrange(p, p + n + 1);
    assert(bit.drop_last() =~= stream.subrange(p, p + n));
    assert(stream.subrange(p, p + 0) =~= Seq::<bool>::empty());
}

/// A byte's eight bits spell the byte.
pub proof fn eight_bits_spell_a_byte(bytes: Seq<u8>, i: int)
    requires
        0 <= i < bytes.len(),
    ensures
        number(bits::stream_bits(bytes), 8 * i, 8) == bytes[i],
{
    let x = bytes[i];
    let stream = bits::stream_bits(bytes);
    let part = bits::value_bits(x as u32, 8);
    assert forall|k: int| 0 <= k < 8 implies stream[8 * i + k] == #[trigger] part[k] by {
        let (narrow, wide) = (k as u8, k as u32);
        assert((x >> narrow) & 1 == 1 <==> ((x as u32) >> wide) & 1 == 1) by (bit_vector)
            requires
                narrow < 8,
                wide == narrow as u32,
        ;
    }
    assert((x as u32) < 1u32 << 8u32) by (bit_vector);
    bits::take_reads_value(stream, 8 * i, x as u32, 8);
}

} // verus!
