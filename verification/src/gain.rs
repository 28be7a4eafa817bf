//! Arithmetic on gains, rounded as single precision rounds it.

use crate::domain::{Gain, MAX_VOLUME};
use crate::single;
use crate::single::{cut_of, exponent_of, to_single, unit_of};
use vstd::prelude::*;

verus! {

/// The bits of a number too large to count.
pub const INFINITE: u32 = 0x7f80_0000;

/// The bits of what is no number.
pub const NO_NUMBER: u32 = 0x7fc0_0000;

/// Whether bits stand for no number at all.
pub open spec fn is_none(g: Gain) -> bool {
    g.bits % 0x8000_0000 > INFINITE
}

/// Whether bits carry a minus sign.
pub open spec fn negative(g: Gain) -> bool {
    g.bits >= 0x8000_0000
}

/// A number without its sign.
pub open spec fn magnitude(g: Gain) -> Gain {
    Gain { bits: g.bits % 0x8000_0000 }
}

/// A number that has none, given a sign.
pub open spec fn signed(g: Gain, negative: bool) -> Gain {
    if negative {
        Gain { bits: (g.bits % 0x8000_0000 + 0x8000_0000) as u32 }
    } else {
        g
    }
}

/// Whether bits stand for a number that is less than nothing.
pub open spec fn below_nothing(g: Gain) -> bool {
    0x8000_0000 < g.bits <= 0xff80_0000
}

/// Whether a number is above another that is not below nothing.
pub open spec fn above(g: Gain, bits: u32) -> bool {
    bits < g.bits <= INFINITE
}

/// Where a number stands among the others. Both zeros stand in one place.
pub open spec fn place(g: Gain) -> int {
    if negative(g) {
        -(magnitude(g).bits as int)
    } else {
        g.bits as int
    }
}

/// Whether a number is greater than another. What is no number is never greater,
/// and nothing is greater than it.
pub open spec fn greater(a: Gain, b: Gain) -> bool {
    !is_none(a) && !is_none(b) && place(a) > place(b)
}

/// A gain's significant bits, as a whole number.
pub open spec fn mantissa(g: Gain) -> nat {
    if g.bits / 0x80_0000 == 0 {
        g.bits as nat
    } else {
        (0x80_0000 + g.bits % 0x80_0000) as nat
    }
}

/// What a gain's significant bits are counted in: two to this power less 150.
pub open spec fn power(g: Gain) -> int {
    if g.bits / 0x80_0000 == 0 {
        1
    } else {
        (g.bits / 0x80_0000) as int
    }
}

/// `n` over two to the power `k`, rounded to a whole number, ties to even.
pub open spec fn halves(n: nat, k: nat) -> nat {
    let u = single::doubled(1, k);
    let q = n / u;
    let r = n % u;
    if 2 * r > u || (2 * r == u && q % 2 == 1) {
        q + 1
    } else {
        q
    }
}

/// The gain nearest to `n`, counted in two to the minus `scale`: with 24
/// significant bits, or with as many as fit where it is too small for that.
pub open spec fn nearest(n: nat, scale: int) -> Gain {
    let fine = n * 0x100_0000;
    let top = 126 + single::exponent(fine) - scale;
    if n == 0 {
        Gain { bits: 0 }
    } else if top >= 255 {
        Gain { bits: INFINITE }
    } else if top >= 1 {
        Gain { bits: single::bits_of(single::single(fine), scale + 24) as u32 }
    } else {
        Gain { bits: halves(fine, (scale - 125) as nat) as u32 }
    }
}

/// The product of two gains.
#[verifier::opaque]
pub open spec fn product(a: Gain, b: Gain) -> Gain {
    let (x, y) = (magnitude(a), magnitude(b));
    let minus = negative(a) != negative(b);
    if is_none(a) || is_none(b) {
        Gain { bits: NO_NUMBER }
    } else if x.bits == INFINITE || y.bits == INFINITE {
        if x.bits == 0 || y.bits == 0 {
            Gain { bits: NO_NUMBER }
        } else {
            signed(Gain { bits: INFINITE }, minus)
        }
    } else {
        signed(nearest(mantissa(x) * mantissa(y), 300 - power(x) - power(y)), minus)
    }
}

/// The quotient of two gains.
#[verifier::opaque]
pub open spec fn quotient(a: Gain, b: Gain) -> Gain {
    let (x, y) = (magnitude(a), magnitude(b));
    let minus = negative(a) != negative(b);
    if is_none(a) || is_none(b) || (x.bits == INFINITE && y.bits == INFINITE) || (x.bits == 0
        && y.bits == 0) {
        Gain { bits: NO_NUMBER }
    } else if x.bits == INFINITE || y.bits == 0 {
        signed(Gain { bits: INFINITE }, minus)
    } else if y.bits == INFINITE {
        signed(Gain { bits: 0 }, minus)
    } else {
        signed(
            nearest(
                single::cut(mantissa(x) * 0x1_0000_0000_0000_0000, mantissa(y)),
                65 - power(x) + power(y),
            ),
            minus,
        )
    }
}

/// A slider's cubic gain as the linear one the sound server takes.
pub open spec fn cubed(g: Gain) -> Gain {
    product(product(g, g), g)
}

/// Brought between nothing and the loudest; what is no number stays as it is.
pub open spec fn limited(g: Gain) -> Gain {
    if below_nothing(g) {
        Gain { bits: 0 }
    } else if above(g, MAX_VOLUME) {
        Gain { bits: MAX_VOLUME }
    } else {
        g
    }
}

pub(crate) fn mantissa_of(g: Gain) -> (m: u128)
    ensures
        m == mantissa(g),
        m < 0x100_0000,
{
    if g.bits / 0x80_0000 == 0 {
        g.bits as u128
    } else {
        (0x80_0000 + g.bits % 0x80_0000) as u128
    }
}

pub(crate) fn power_of(g: Gain) -> (p: i32)
    ensures
        p == power(g),
        1 <= p < 512,
{
    if g.bits / 0x80_0000 == 0 {
        1
    } else {
        (g.bits / 0x80_0000) as i32
    }
}

pub(crate) proof fn power_of_64()
    ensures
        single::doubled(1, 64) == 0x1_0000_0000_0000_0000nat,
        single::doubled(1, 65) == 0x2_0000_0000_0000_0000nat,
{
    assert(single::doubled(1, 4) == 0x10nat) by {
        reveal_with_fuel(single::doubled, 5);
    }
    powers_add(4, 4, 0x10, 0x10);
    powers_add(8, 8, 0x100, 0x100);
    powers_add(16, 16, 0x1_0000, 0x1_0000);
    powers_add(32, 32, 0x1_0000_0000, 0x1_0000_0000);
}

proof fn power_of_116()
    ensures
        single::doubled(1, 116) == 0x10_0000_0000_0000_0000_0000_0000_0000nat,
{
    assert(single::doubled(1, 4) == 0x10nat) by {
        reveal_with_fuel(single::doubled, 5);
    }
    powers_add(4, 4, 0x10, 0x10);
    powers_add(8, 8, 0x100, 0x100);
    powers_add(16, 16, 0x1_0000, 0x1_0000);
    powers_add(32, 32, 0x1_0000_0000, 0x1_0000_0000);
    powers_add(32, 16, 0x1_0000_0000, 0x1_0000);
    powers_add(48, 4, 0x1_0000_0000_0000, 0x10);
    powers_add(64, 52, 0x1_0000_0000_0000_0000, 0x10_0000_0000_0000);
}

proof fn large_powers(k: nat)
    ensures
        single::doubled(1, 116) == 0x10_0000_0000_0000_0000_0000_0000_0000nat,
        1 <= single::doubled(1, k),
        k <= 116 ==> single::doubled(1, k) <= single::doubled(1, 116),
        k >= 116 ==> single::doubled(1, 116) <= single::doubled(1, k),
{
    single::doubled_bound(1, 1, k);
    power_of_116();
    if k <= 116 {
        single::doubled_more(1, k, 116);
    } else {
        single::doubled_more(1, 116, k);
    }
}

pub(crate) fn two_to(k: u32) -> (v: u128)
    requires
        k <= 116,
    ensures
        v == single::doubled(1, k as nat),
        1 <= v <= 0x10_0000_0000_0000_0000_0000_0000_0000,
    decreases k,
{
    proof {
        large_powers(k as nat);
    }
    if k == 0 {
        1
    } else {
        2 * two_to(k - 1)
    }
}

fn halves_of(n: u128, k: u32) -> (v: u128)
    requires
        n <= 0x4_0000_0000_0000_0000_0000_0000_0000,
    ensures
        v == halves(n as nat, k as nat),
{
    proof {
        large_powers(k as nat);
    }
    if k > 116 {
        assert(n as nat / single::doubled(1, k as nat) == 0) by (nonlinear_arith)
            requires
                n < single::doubled(1, k as nat),
        ;
        assert(n as nat % single::doubled(1, k as nat) == n) by (nonlinear_arith)
            requires
                n < single::doubled(1, k as nat),
        ;
        return 0;
    }
    let u: u128 = two_to(k);
    let q: u128 = n / u;
    let r: u128 = n % u;
    assert(q <= n && r < u) by (nonlinear_arith)
        requires
            u >= 1,
            q == n / u,
            r == n % u,
    ;
    if 2 * r > u || (2 * r == u && q % 2 == 1) {
        q + 1
    } else {
        q
    }
}

/// A number with more than 24 significant bits rounds to one with 24.
proof fn single_is_normal(n: nat)
    requires
        n >= 0x100_0000,
    ensures
        ({
            let s = single::single(n);
            0x80_0000 <= s / single::unit(s) < 0x100_0000 && single::unit(s) >= 1
        }),
{
    single::unit_bounds(n);
    let u = single::unit(n);
    let s = single::single(n);
    let q = n / u;
    assert(0x80_0000 <= q < 0x100_0000) by (nonlinear_arith)
        requires
            u >= 1,
            q == n / u,
            0x80_0000 * u <= n,
            n < 0x100_0000 * u,
    ;
    assert(s >= 0x100_0000) by (nonlinear_arith)
        requires
            s == q * u || s == (q + 1) * u,
            q >= 0x80_0000,
            u >= 2,
    ;
    single::unit_bounds(s);
    let v = single::unit(s);
    assert(0x80_0000 <= s / v < 0x100_0000) by (nonlinear_arith)
        requires
            v >= 1,
            0x80_0000 * v <= s,
            s < 0x100_0000 * v,
    ;
}

pub(crate) fn nearest_to(n: u128, scale: i32) -> (g: Gain)
    requires
        n <= 0x400_0000_0000_0000_0000_0000,
        -1024 <= scale <= 1024,
    ensures
        g == nearest(n as nat, scale as int),
{
    if n == 0 {
        return Gain { bits: 0 };
    }
    let fine: u128 = n * 0x100_0000;
    let top: i32 = 126 + exponent_of(fine) as i32 - scale;
    if top >= 255 {
        return Gain { bits: INFINITE };
    }
    if top < 1 {
        return Gain { bits: halves_of(fine, (scale - 125) as u32) as u32 };
    }
    let s: u128 = to_single(fine);
    proof {
        single_is_normal(fine as nat);
        single::single_at_most_double(fine as nat);
    }
    let e: i64 = exponent_of(s) as i64;
    let m: i64 = (s / unit_of(s)) as i64;
    let bits: i64 = (126 + e - scale as i64) * 0x80_0000 + (m - 0x80_0000);
    Gain { bits: bits as u32 }
}

/// Give a number a sign.
pub(crate) fn with_sign(g: Gain, negative: bool) -> (v: Gain)
    ensures
        v == signed(g, negative),
{
    if negative {
        Gain { bits: g.bits % 0x8000_0000 + 0x8000_0000 }
    } else {
        g
    }
}

/// Multiply two gains.
pub fn times(a: Gain, b: Gain) -> (g: Gain)
    ensures
        g == product(a, b),
{
    reveal(product);
    let x = Gain { bits: a.bits % 0x8000_0000 };
    let y = Gain { bits: b.bits % 0x8000_0000 };
    let minus = (a.bits >= 0x8000_0000) != (b.bits >= 0x8000_0000);
    if x.bits > INFINITE || y.bits > INFINITE {
        return Gain { bits: NO_NUMBER };
    }
    if x.bits == INFINITE || y.bits == INFINITE {
        if x.bits == 0 || y.bits == 0 {
            return Gain { bits: NO_NUMBER };
        }
        return with_sign(Gain { bits: INFINITE }, minus);
    }
    let (m, n): (u128, u128) = (mantissa_of(x), mantissa_of(y));
    assert(m * n <= 0x100_0000 * 0x100_0000) by (nonlinear_arith)
        requires
            m <= 0x100_0000,
            n <= 0x100_0000,
    ;
    with_sign(nearest_to(m * n, 300 - power_of(x) - power_of(y)), minus)
}

/// Divide a gain by another.
pub fn over(a: Gain, b: Gain) -> (g: Gain)
    ensures
        g == quotient(a, b),
{
    reveal(quotient);
    let x = Gain { bits: a.bits % 0x8000_0000 };
    let y = Gain { bits: b.bits % 0x8000_0000 };
    let minus = (a.bits >= 0x8000_0000) != (b.bits >= 0x8000_0000);
    if x.bits > INFINITE || y.bits > INFINITE || (x.bits == INFINITE && y.bits == INFINITE) || (
    x.bits == 0 && y.bits == 0) {
        return Gain { bits: NO_NUMBER };
    }
    if x.bits == INFINITE || y.bits == 0 {
        return with_sign(Gain { bits: INFINITE }, minus);
    }
    if y.bits == INFINITE {
        return with_sign(Gain { bits: 0 }, minus);
    }
    let (m, n): (u128, u128) = (mantissa_of(x), mantissa_of(y));
    assert(n > 0);
    let c: u128 = cut_of(m * 0x1_0000_0000_0000_0000, n);
    with_sign(nearest_to(c, 65 - power_of(x) + power_of(y)), minus)
}

/// A slider's cubic gain as the linear one the sound server takes.
pub fn cubic_to_linear(g: Gain) -> (v: Gain)
    ensures
        v == cubed(g),
{
    times(times(g, g), g)
}

/// Bring a gain between nothing and the loudest.
pub fn limit(g: Gain) -> (v: Gain)
    ensures
        v == limited(g),
{
    if g.bits > 0x8000_0000 && g.bits <= 0xff80_0000 {
        Gain { bits: 0 }
    } else if is_above(g, MAX_VOLUME) {
        Gain { bits: MAX_VOLUME }
    } else {
        g
    }
}

/// Whether a number is above another that is not below nothing.
pub fn is_above(g: Gain, bits: u32) -> (yes: bool)
    ensures
        yes == above(g, bits),
{
    bits < g.bits && g.bits <= INFINITE
}

fn place_of(g: Gain) -> (p: i64)
    ensures
        p == place(g),
{
    if g.bits >= 0x8000_0000 {
        -((g.bits - 0x8000_0000) as i64)
    } else {
        g.bits as i64
    }
}

/// Whether a number is greater than another.
pub fn is_greater(a: Gain, b: Gain) -> (yes: bool)
    ensures
        yes == greater(a, b),
{
    a.bits % 0x8000_0000 <= INFINITE && b.bits % 0x8000_0000 <= INFINITE && place_of(a) > place_of(
        b,
    )
}

/// The bits of unity.
pub const UNITY: u32 = 0x3f80_0000;

/// A gain with all its significant bits: nothing at all, or neither too small for
/// them nor infinite.
pub open spec fn whole(g: Gain) -> bool {
    g.bits == 0 || 0x80_0000 <= g.bits < INFINITE
}

proof fn doubled_parts(m: nat, k: nat)
    requires
        0x80_0000 <= m < 0x100_0000,
    ensures
        single::exponent(single::doubled(m, k)) == k,
        single::unit(single::doubled(m, k)) == single::doubled(1, k),
        single::doubled(1, k) >= 1,
        single::doubled(m, k) / single::doubled(1, k) == m,
        k > 0 ==> single::doubled(m, k) >= 0x100_0000,
    decreases k,
{
    single::doubled_is_times(m, k);
    single::doubled_bound(1, 1, k);
    let u = single::doubled(1, k);
    assert(m * u / u == m) by (nonlinear_arith)
        requires
            u >= 1,
    ;
    if k > 0 {
        doubled_parts(m, (k - 1) as nat);
        single::doubled_bound(m, m, (k - 1) as nat);
        assert(single::doubled(m, k) / 2 == single::doubled(m, (k - 1) as nat));
    }
}

proof fn powers_add(a: nat, b: nat, x: nat, y: nat)
    requires
        single::doubled(1, a) == x,
        single::doubled(1, b) == y,
    ensures
        single::doubled(1, a + b) == x * y,
{
    single::doubled_on(1, a, b);
    single::doubled_is_times(x, b);
}

proof fn some_powers()
    ensures
        single::doubled(1, 47) == 0x8000_0000_0000nat,
        single::doubled(1, 66) == 0x4_0000_0000_0000_0000nat,
{
    assert(single::doubled(1, 7) == 0x80nat && single::doubled(1, 8) == 0x100nat) by {
        reveal_with_fuel(single::doubled, 9);
    }
    assert(single::doubled(1, 2) == 4nat) by {
        reveal_with_fuel(single::doubled, 3);
    }
    powers_add(8, 8, 0x100, 0x100);
    powers_add(16, 16, 0x1_0000, 0x1_0000);
    powers_add(32, 8, 0x1_0000_0000, 0x100);
    powers_add(40, 7, 0x100_0000_0000, 0x80);
    powers_add(32, 32, 0x1_0000_0000, 0x1_0000_0000);
    powers_add(64, 2, 0x1_0000_0000_0000_0000, 4);
}

/// Multiplying by unity changes nothing, and a gain over itself is unity.
pub proof fn unity_is_neutral(g: Gain)
    requires
        whole(g),
    ensures
        product(g, Gain { bits: UNITY }) == g,
        g.bits > 0 ==> quotient(g, g) == (Gain { bits: UNITY }),
{
    reveal(product);
    reveal(quotient);
    let one = Gain { bits: UNITY };
    assert(mantissa(one) == 0x80_0000 && power(one) == 127);
    let m = mantissa(g);
    some_powers();
    if g.bits == 0 {
        assert(m * 0x80_0000 == 0);
    } else {
        let n = m * 0x80_0000;
        single::doubled_is_times(m, 47);
        doubled_parts(m, 47);
        single::exact_doubled(m, 47);
        assert(n * 0x100_0000 == m * 0x8000_0000_0000) by (nonlinear_arith)
            requires
                n == m * 0x80_0000,
        ;
        assert(n * 0x100_0000 == single::doubled(m, 47));
        let c = single::cut(m * 0x1_0000_0000_0000_0000, m);
        assert(c == 0x2_0000_0000_0000_0000) by (nonlinear_arith)
            requires
                m > 0,
                c == 2 * ((m * 0x1_0000_0000_0000_0000) / m) + if (m * 0x1_0000_0000_0000_0000) % m
                    != 0 {
                    1int
                } else {
                    0int
                },
        ;
        single::doubled_is_times(0x80_0000, 66);
        doubled_parts(0x80_0000, 66);
        single::exact_doubled(0x80_0000, 66);
        assert(c * 0x100_0000 == single::doubled(0x80_0000, 66));
    }
}

// --- Units of a level -----------------------------------------------------------------------

/// A gain so many times over.
#[verifier::opaque]
pub open spec fn multiplied(g: Gain, n: nat) -> Gain {
    nearest(mantissa(g) * n, 150 - power(g))
}

/// How far a number reaches into the unit behind `i`, in 255ths to the nearest: into
/// none it falls short of, and all the way into one it passes.
pub open spec fn reach(g: Gain, i: nat) -> int {
    if power(g) > 150 {
        255
    } else {
        let places = (150 - power(g)) as nat;
        let one = single::doubled(1, places);
        let n = mantissa(g) - i * one;
        if n <= 0 {
            0
        } else if n >= one {
            255
        } else {
            single::halved(single::single((255 * n) as nat), places) as int
        }
    }
}

/// Multiply a gain by a whole number.
pub fn repeated(g: Gain, n: u32) -> (v: Gain)
    ensures
        v == multiplied(g, n as nat),
{
    reveal(multiplied);
    let m: u128 = mantissa_of(g);
    assert(m * n <= 0x100_0000 * 0x1_0000_0000) by (nonlinear_arith)
        requires
            m <= 0x100_0000,
            n <= 0x1_0000_0000,
    ;
    nearest_to(m * n as u128, 150 - power_of(g))
}

/// Less than a unit is no more than all of its 255ths.
proof fn full_units(n: nat, one: nat)
    requires
        n < one,
        n < 0x100_0000,
    ensures
        (2 * single::single(255 * n) + one) / (2 * one) <= 255,
        single::single(255 * n) <= 0x2_0000_0000,
{
    let x = 255 * n;
    let s = single::single(x);
    single::single_bounds(x);
    single::unit_bounds(x);
    single::single_at_most_double(x);
    assert(2 * s < 511 * one);
    assert((2 * s + one) / (2 * one) <= 255) by (nonlinear_arith)
        requires
            2 * s < 511 * one,
            one > 0,
    ;
}

/// How far a number reaches into the unit behind `i`.
pub fn reached(g: Gain, i: u32) -> (v: u8)
    ensures
        v == reach(g, i as nat),
{
    let p: i32 = power_of(g);
    if p > 150 {
        return 255;
    }
    let places: u32 = (150 - p) as u32;
    let m: u128 = mantissa_of(g);
    let ghost one = single::doubled(1, places as nat);
    proof {
        large_powers(places as nat);
        single::doubled_bound(1, 1, places as nat);
    }
    if places > 24 {
        proof {
            single::doubled_more(1, 24, places as nat);
            assert(single::doubled(1, 24) == 0x100_0000nat) by {
                reveal_with_fuel(single::doubled, 25);
            }
        }
        if i > 0 {
            assert(m - i * one <= 0) by (nonlinear_arith)
                requires
                    m < one,
                    i >= 1,
            ;
            return 0;
        }
    } else {
        proof {
            single::doubled_more(1, places as nat, 24);
            assert(single::doubled(1, 24) == 0x100_0000nat) by {
                reveal_with_fuel(single::doubled, 25);
            }
        }
    }
    assert(i == 0 ==> i * one == 0) by (nonlinear_arith);
    if places > 116 {
        // Too little to show.
        proof {
            let s = single::single((255 * m) as nat);
            single::single_at_most_double((255 * m) as nat);
            assert((2 * s + one) / (2 * one) == 0) by (nonlinear_arith)
                requires
                    2 * s < one,
                    0 <= s,
            ;
        }
        return 0;
    }
    let unit: u128 = two_to(places);
    let behind: u128 = if i == 0 {
        0
    } else {
        assert(i * unit <= 0x1_0000_0000 * 0x100_0000) by (nonlinear_arith)
            requires
                i <= 0x1_0000_0000,
                unit <= 0x100_0000,
        ;
        i as u128 * unit
    };
    if m <= behind {
        return 0;
    }
    let n: u128 = m - behind;
    if n >= unit {
        return 255;
    }
    let s: u128 = to_single(255 * n);
    let v: u128 = (2 * s + unit) / (2 * unit);
    proof {
        full_units(n as nat, unit as nat);
    }
    v as u8
}

} // verus!
