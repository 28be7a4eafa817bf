//! Single-precision arithmetic on non-negative numbers, done on integers.
//!
//! Faders, scrollbars and meters place things with 24-bit significands. Here the
//! numbers are integers in a unit fine enough to be exact, and every operation
//! rounds to 24 significant bits, to the nearest and on a tie to the even one.

use crate::domain::Gain;
use vstd::prelude::*;

verus! {

/// Two to the 24th: the first number a significand cannot hold.
pub const SIGNIFICAND: u128 = 0x100_0000;

/// Two to the 65th: quotients are counted in its inverse.
pub const FINE: u128 = 0x2_0000_0000_0000_0000;

/// The spacing of single-precision numbers around `n`.
pub open spec fn unit(n: nat) -> nat
    decreases n,
{
    if n < 0x100_0000 {
        1
    } else {
        2 * unit(n / 2)
    }
}

/// `n` rounded to 24 significant bits.
pub open spec fn single(n: nat) -> nat {
    let u = unit(n);
    let q = n / u;
    let r = n % u;
    if 2 * r > u || (2 * r == u && q % 2 == 1) {
        (q + 1) * u
    } else {
        q * u
    }
}

/// `n / d` in half units, the last one telling whether anything was cut off.
pub open spec fn cut(n: nat, d: nat) -> nat {
    2 * (n / d) + if n % d != 0 {
        1nat
    } else {
        0nat
    }
}

/// The quotient of two whole numbers, in `FINE`ths.
pub open spec fn quotient(a: nat, b: nat) -> nat {
    single(cut(single(a) * 0x1_0000_0000_0000_0000, single(b)))
}

/// A whole number times a fraction in `FINE`ths, in `FINE`ths.
pub open spec fn scaled(n: nat, fraction: nat) -> nat {
    single(single(n) * fraction)
}

/// A number in `FINE`ths, rounded to a whole one, halves up.
pub open spec fn rounded(n: nat) -> nat {
    (n + 0x1_0000_0000_0000_0000) / 0x2_0000_0000_0000_0000
}

/// A number in `FINE`ths, cut to a whole one.
pub open spec fn whole(n: nat) -> nat {
    n / 0x2_0000_0000_0000_0000
}

/// The spacing around a number is between its 24th and its 23rd significant bit.
pub(crate) proof fn unit_bounds(n: nat)
    ensures
        unit(n) >= 1,
        n < 0x100_0000 * unit(n),
        n >= 0x100_0000 ==> 0x80_0000 * unit(n) <= n,
        n >= 0x100_0000 ==> unit(n) >= 2,
    decreases n,
{
    if n >= 0x100_0000 {
        unit_bounds(n / 2);
    }
}

/// Rounding stays within a unit of the number and never passes a power of two
/// that bounds it.
pub proof fn single_bounds(n: nat)
    ensures
        single(n) <= n + unit(n),
        n <= single(n) + unit(n),
        n < 0x100_0000 ==> single(n) == n,
        n >= 0x100_0000 ==> unit(n) <= n,
{
    unit_bounds(n);
    let u = unit(n);
    let q = n / u;
    let r = n % u;
    assert(n == q * u + r && 0 <= r < u) by (nonlinear_arith)
        requires
            u >= 1,
            q == n / u,
            r == n % u,
    ;
    assert((q + 1) * u == q * u + u) by (nonlinear_arith);
}

pub(crate) fn unit_of(n: u128) -> (u: u128)
    ensures
        u == unit(n as nat),
    decreases n,
{
    proof {
        unit_bounds(n as nat);
    }
    if n < SIGNIFICAND {
        1
    } else {
        2 * unit_of(n / 2)
    }
}

/// Round to 24 significant bits.
pub fn to_single(n: u128) -> (s: u128)
    requires
        2 * n <= u128::MAX,
    ensures
        s == single(n as nat),
        s <= 2 * n,
{
    proof {
        unit_bounds(n as nat);
        single_bounds(n as nat);
    }
    let u: u128 = unit_of(n);
    let q: u128 = n / u;
    let r: u128 = n % u;
    assert(n == q * u + r) by (nonlinear_arith)
        requires
            u >= 1,
            q == n / u,
            r == n % u,
    ;
    assert((q + 1) * u == q * u + u) by (nonlinear_arith);
    if r > u - r || (r == u - r && q % 2 == 1) {
        (q + 1) * u
    } else {
        q * u
    }
}

/// Twice what rounding leaves is never less than what there was, and what there
/// was twice never less than what rounding leaves.
pub(crate) proof fn single_at_most_double(n: nat)
    ensures
        single(n) <= 2 * n,
        n > 0 ==> single(n) > 0,
        n <= 2 * single(n),
{
    single_bounds(n);
    unit_bounds(n);
    if n >= 0x100_0000 {
        let u = unit(n);
        let q = n / u;
        assert(q >= 0x80_0000) by (nonlinear_arith)
            requires
                u >= 1,
                q == n / u,
                0x80_0000 * u <= n,
        ;
        assert(q * u >= u) by (nonlinear_arith)
            requires
                q >= 1,
                u >= 1,
        ;
        assert((q + 1) * u == q * u + u) by (nonlinear_arith);
        assert(n < q * u + u) by (nonlinear_arith)
            requires
                u >= 1,
                q == n / u,
        ;
    }
}

pub(crate) fn cut_of(n: u128, d: u128) -> (c: u128)
    requires
        d > 0,
        2 * n + 1 <= u128::MAX,
    ensures
        c == cut(n as nat, d as nat),
        c <= 2 * n + 1,
{
    assert(n / d <= n) by (nonlinear_arith)
        requires
            d > 0,
    ;
    2 * (n / d) + if n % d != 0 {
        1
    } else {
        0
    }
}

/// The quotient of two whole numbers, in `FINE`ths.
pub fn quotient_of(a: u32, b: u32) -> (q: u128)
    requires
        0 < b,
        a <= 0x1000_0000,
    ensures
        q == quotient(a as nat, b as nat),
        q <= 0x8000_0000_0000_0000_0000_0002,
{
    proof {
        single_at_most_double(a as nat);
        single_at_most_double(b as nat);
    }
    let x: u128 = to_single(a as u128) * 0x1_0000_0000_0000_0000;
    let c: u128 = cut_of(x, to_single(b as u128));
    proof {
        single_at_most_double(c as nat);
    }
    to_single(c)
}

/// A whole number times a fraction, rounded to a whole number.
pub fn rounded_of(n: u32, fraction: u128) -> (v: u128)
    requires
        n <= 0x1000_0000,
        fraction <= 0x8000_0000_0000_0000_0000_0002,
    ensures
        v == rounded(scaled(n as nat, fraction as nat)),
{
    let s: u128 = scaled_by(n, fraction);
    (s + 0x1_0000_0000_0000_0000) / FINE
}

fn scaled_by(n: u32, fraction: u128) -> (v: u128)
    requires
        n <= 0x1000_0000,
        fraction <= 0x8000_0000_0000_0000_0000_0002,
    ensures
        v == scaled(n as nat, fraction as nat),
        v <= 0x4000_0000 * 0x8000_0000_0000_0000_0000_0002,
{
    proof {
        single_at_most_double(n as nat);
    }
    let m: u128 = to_single(n as u128);
    assert(m * fraction <= 0x2000_0000 * 0x8000_0000_0000_0000_0000_0002) by (nonlinear_arith)
        requires
            m <= 0x2000_0000,
            fraction <= 0x8000_0000_0000_0000_0000_0002,
    ;
    to_single(m * fraction)
}

/// `n` times `a / b`, rounded to a whole number.
pub open spec fn share(n: nat, a: nat, b: nat) -> nat {
    rounded(scaled(n, quotient(a, b)))
}

/// `n` times `a / b`, rounded to a whole number; the largest `i32` where that is
/// more.
pub fn share_of(n: u32, a: u32, b: u32) -> (v: i32)
    requires
        n <= 0x1000_0000,
        a <= 0x1000_0000,
        0 < b,
    ensures
        0 <= v,
        share(n as nat, a as nat, b as nat) <= i32::MAX ==> v == share(
            n as nat,
            a as nat,
            b as nat,
        ),
        share(n as nat, a as nat, b as nat) > i32::MAX ==> v == i32::MAX,
{
    let r: u128 = rounded_of(n, quotient_of(a, b));
    if r > 0x7fff_ffff {
        i32::MAX
    } else {
        r as i32
    }
}

// --- Gains ---------------------------------------------------------------------------

/// `n` doubled `times` times.
pub open spec fn doubled(n: nat, times: nat) -> nat
    decreases times,
{
    if times == 0 {
        n
    } else {
        2 * doubled(n, (times - 1) as nat)
    }
}

pub(crate) proof fn doubled_bound(n: nat, m: nat, times: nat)
    requires
        n <= m,
    ensures
        doubled(n, times) <= doubled(m, times),
        doubled(n, times) >= n,
    decreases times,
{
    if times > 0 {
        doubled_bound(n, m, (times - 1) as nat);
    }
}

pub(crate) proof fn doubled_more(n: nat, a: nat, b: nat)
    requires
        a <= b,
    ensures
        doubled(n, a) <= doubled(n, b),
    decreases b,
{
    if a < b {
        doubled_more(n, a, (b - 1) as nat);
    }
}

pub(crate) proof fn doubled_on(n: nat, a: nat, b: nat)
    ensures
        doubled(n, a + b) == doubled(doubled(n, a), b),
    decreases b,
{
    if b > 0 {
        doubled_on(n, a, (b - 1) as nat);
    }
}

proof fn largest_doubled()
    ensures
        doubled(0xff_ffff, 41) < 0x2_0000_0000_0000_0000,
{
    doubled_on(0xff_ffff, 20, 21);
    assert(doubled(0xff_ffff, 20) == 0xff_ffff * 0x10_0000) by {
        reveal_with_fuel(doubled, 21);
    }
    assert(doubled(0xff_ffff * 0x10_0000, 21) < 0x2_0000_0000_0000_0000) by {
        reveal_with_fuel(doubled, 22);
    }
}

/// A number that single precision holds, doubled, is one it holds.
pub(crate) proof fn exact_doubled(n: nat, times: nat)
    requires
        n <= 0x100_0000,
    ensures
        single(doubled(n, times)) == doubled(n, times),
        doubled(n, times) % unit(doubled(n, times)) == 0,
    decreases times,
{
    let m = doubled(n, times);
    let u = unit(m);
    unit_bounds(m);
    if times == 0 {
        reveal_with_fuel(unit, 2);
    } else {
        let before = doubled(n, (times - 1) as nat);
        exact_doubled(n, (times - 1) as nat);
        unit_bounds(before);
        if m >= 0x100_0000 {
            let half = unit(before);
            assert(m / 2 == before);
            let q = before / half;
            assert(before == q * half) by (nonlinear_arith)
                requires
                    half >= 1,
                    before % half == 0,
                    q == before / half,
            ;
            assert(2 * before == q * (2 * half) && (q * (2 * half)) % (2 * half) == 0)
                by (nonlinear_arith)
                requires
                    half >= 1,
                    before == q * half,
            ;
        }
    }
    assert(m % u == 0);
    assert((m / u) * u == m) by (nonlinear_arith)
        requires
            u >= 1,
            m % u == 0,
    ;
}

pub(crate) proof fn doubled_is_times(n: nat, times: nat)
    ensures
        doubled(n, times) == n * doubled(1, times),
    decreases times,
{
    if times > 0 {
        doubled_is_times(n, (times - 1) as nat);
        let d = doubled(1, (times - 1) as nat);
        assert(2 * (n * d) == n * (2 * d)) by (nonlinear_arith);
    } else {
        assert(n * 1 == n) by (nonlinear_arith);
    }
}

proof fn fine_doubled()
    ensures
        doubled(1, 65) == 0x2_0000_0000_0000_0000,
{
    doubled_on(1, 32, 33);
    assert(doubled(1, 32) == 0x1_0000_0000) by {
        reveal_with_fuel(doubled, 33);
    }
    assert(doubled(0x1_0000_0000, 33) == 0x2_0000_0000_0000_0000) by {
        reveal_with_fuel(doubled, 34);
    }
}

/// The whole of a number that single precision holds is that number, and none of
/// it is nothing.
pub proof fn shares_run_from_nothing_to_all(n: nat, a: nat)
    requires
        n <= 0x100_0000,
        0 < a,
    ensures
        share(n, a, a) == n,
        share(n, 0, a) == 0,
{
    let s = single(a);
    single_at_most_double(a);
    assert((s * 0x1_0000_0000_0000_0000) / s == 0x1_0000_0000_0000_0000 && (s
        * 0x1_0000_0000_0000_0000) % s == 0) by (nonlinear_arith)
        requires
            s > 0,
    ;
    fine_doubled();
    exact_doubled(1, 65);
    exact_doubled(n, 0);
    doubled_is_times(n, 65);
    exact_doubled(n, 65);
    assert(quotient(a, a) == 0x2_0000_0000_0000_0000);
    assert(scaled(n, 0x2_0000_0000_0000_0000) == n * 0x2_0000_0000_0000_0000);
    assert((0 * 0x1_0000_0000_0000_0000) as nat == 0);
    assert(0nat / s == 0 && 0nat % s == 0) by (nonlinear_arith)
        requires
            s > 0,
    ;
    single_bounds(0);
    assert(quotient(0, a) == 0);
    assert(single(n) * 0 == 0) by (nonlinear_arith);
}

fn doubled_by(n: u128, times: u32) -> (v: u128)
    requires
        n < 0x100_0000,
        times <= 41,
    ensures
        v == doubled(n as nat, times as nat),
        v < 0x2_0000_0000_0000_0000,
    decreases times,
{
    proof {
        doubled_bound(n as nat, 0xff_ffff, times as nat);
        doubled_more(0xff_ffff, times as nat, 41);
        largest_doubled();
    }
    if times == 0 {
        n
    } else {
        2 * doubled_by(n, times - 1)
    }
}

/// How far up its travel a gain puts a fader, in `FINE`ths: the gain over the
/// loudest one, all the way at that and beyond. Gains under two to the minus
/// fortieth move nothing, and neither does what is no number.
pub open spec fn travel(g: Gain) -> nat {
    let e = g.bits / 0x80_0000;
    if g.bits > 0x7f80_0000 {
        0
    } else if g.bits >= 0x3fc0_0000 {
        0x2_0000_0000_0000_0000
    } else if e < 87 {
        0
    } else {
        let m = 0x80_0000 + g.bits % 0x80_0000;
        single(cut(2 * doubled(m as nat, (e - 86) as nat), 3))
    }
}

/// Pixels a gain lifts a fader's knob above the bottom of a track `h` high.
pub open spec fn lift(h: nat, g: Gain) -> nat {
    whole(scaled(h, travel(g)))
}

pub fn lift_of(h: u32, g: Gain) -> (v: i32)
    requires
        h <= 0x400_0000,
    ensures
        v == lift(h as nat, g),
        0 <= v <= 24 * h,
{
    let e: u32 = g.bits / 0x80_0000;
    let t: u128 = if g.bits > 0x7f80_0000 {
        0
    } else if g.bits >= 0x3fc0_0000 {
        FINE
    } else if e < 87 {
        0
    } else {
        let m: u128 = (0x80_0000 + g.bits % 0x80_0000) as u128;
        let c: u128 = cut_of(2 * doubled_by(m, e - 86), 3);
        proof {
            single_at_most_double(c as nat);
        }
        to_single(c)
    };
    assert(t <= 6 * FINE);
    let s: u128 = scaled_by(h, t);
    assert(s <= 24 * h * FINE) by {
        let m = single(h as nat);
        single_at_most_double(h as nat);
        single_at_most_double(m * t as nat);
        assert(m * t <= 2 * h * (6 * FINE)) by (nonlinear_arith)
            requires
                m <= 2 * h,
                t <= 6 * FINE,
        ;
    }
    assert(s / FINE <= 24 * h) by (nonlinear_arith)
        requires
            s <= 24 * h * FINE,
            FINE == 0x2_0000_0000_0000_0000,
    ;
    (s / FINE) as i32
}

/// How often `n` halves before it fits a significand.
pub open spec fn exponent(n: nat) -> nat
    decreases n,
{
    if n < 0x100_0000 {
        0
    } else {
        1 + exponent(n / 2)
    }
}

pub(crate) fn exponent_of(n: u128) -> (e: u32)
    ensures
        e == exponent(n as nat),
        e <= 104,
{
    assert(doubled(0x100_0000, 104) > u128::MAX) by {
        doubled_on(0x100_0000, 52, 52);
        assert(doubled(0x100_0000, 52) == 0x1000_0000_0000_0000_0000nat) by {
            reveal_with_fuel(doubled, 53);
        }
        assert(doubled(0x1000_0000_0000_0000_0000, 52) > u128::MAX) by {
            reveal_with_fuel(doubled, 53);
        }
    }
    exponent_of_below(n, 104)
}

/// `exponent_of`, for a number known to halve down in `most` steps.
fn exponent_of_below(n: u128, most: u32) -> (e: u32)
    requires
        most <= 104,
        n < doubled(0x100_0000, most as nat),
    ensures
        e == exponent(n as nat),
        e <= most,
    decreases most,
{
    if n < SIGNIFICAND {
        0
    } else {
        1 + exponent_of_below(n / 2, most - 1)
    }
}

/// The bits of a number with 24 significant bits, counted in two to the minus
/// `scale`.
pub open spec fn bits_of(n: nat, scale: int) -> int {
    if n == 0 {
        0
    } else {
        (150 + exponent(n) - scale) * 0x80_0000 + (n / unit(n) - 0x80_0000)
    }
}

/// A quotient of two whole numbers is far from running out of `FINE`ths.
proof fn quotient_is_fine(a: nat, b: nat)
    requires
        0 < a,
        0 < b <= u32::MAX,
    ensures
        quotient(a, b) >= 0x4000_0000,
{
    single_at_most_double(a);
    single_at_most_double(b);
    let x = single(a) * 0x1_0000_0000_0000_0000;
    let d = single(b);
    assert(x / d >= 0x4000_0000) by (nonlinear_arith)
        requires
            x >= 0x1_0000_0000_0000_0000,
            0 < d <= 0x1_ffff_fffe,
    ;
    single_at_most_double(cut(x, d));
}

/// The gain that a knob `above` pixels over the bottom of a track `h` high
/// stands for.
pub open spec fn gain_at(above: int, h: nat) -> Gain {
    if above <= 0 {
        Gain { bits: 0 }
    } else if above >= h {
        Gain { bits: 0x3fc0_0000 }
    } else {
        Gain { bits: bits_of(single(3 * quotient(above as nat, h)), 66) as u32 }
    }
}

pub fn gain_for(above: i32, h: u32) -> (g: Gain)
    requires
        0 < h,
        above <= 0x1000_0000,
    ensures
        g == gain_at(above as int, h as nat),
{
    if above <= 0 {
        return Gain { bits: 0 };
    }
    if above as u32 >= h {
        return Gain { bits: 0x3fc0_0000 };
    }
    let q: u128 = quotient_of(above as u32, h);
    let n: u128 = to_single(3 * q);
    let e: u32 = exponent_of(n);
    let u: u128 = unit_of(n);
    proof {
        quotient_is_fine(above as nat, h as nat);
        single_at_most_double(3 * q as nat);
        unit_bounds(n as nat);
        assert(0x80_0000 <= n / u < 0x100_0000) by (nonlinear_arith)
            requires
                u >= 1,
                0x80_0000 * u <= n,
                n < 0x100_0000 * u,
        ;
    }
    Gain { bits: (84 + e) * 0x80_0000 + (n / u) as u32 - 0x80_0000 }
}

/// `n` times a fraction of two to the 24th, cut to a whole number.
pub open spec fn part(n: nat, c: nat) -> nat {
    single(single(n) * c) / 0x100_0000
}

pub fn part_of(n: u32, c: u32) -> (v: i64)
    requires
        c < 0x100_0000,
    ensures
        v == part(n as nat, c as nat),
{
    proof {
        single_at_most_double(n as nat);
    }
    let m: u128 = to_single(n as u128);
    assert(m * c <= 0x2_0000_0000 * 0x100_0000) by (nonlinear_arith)
        requires
            m <= 0x2_0000_0000,
            c < 0x100_0000,
    ;
    (to_single(m * c as u128) / SIGNIFICAND) as i64
}

/// A gain times a fraction of two to the 24th.
pub open spec fn faded(g: Gain, c: nat) -> Gain {
    let e = g.bits / 0x80_0000;
    let m = 0x80_0000 + g.bits % 0x80_0000;
    Gain { bits: bits_of(single((m * c) as nat), 174 - e) as u32 }
}

pub fn faded_by(g: Gain, c: u32) -> (v: Gain)
    requires
        117 <= g.bits / 0x80_0000 < 255,
        0x80_0000 <= c < 0x100_0000,
    ensures
        v == faded(g, c as nat),
{
    let e: u32 = g.bits / 0x80_0000;
    let m: u128 = (0x80_0000 + g.bits % 0x80_0000) as u128;
    assert(0x80_0000 * 0x80_0000 <= m * c < 0x100_0000 * 0x100_0000) by (nonlinear_arith)
        requires
            0x80_0000 <= m < 0x100_0000,
            0x80_0000 <= c < 0x100_0000,
    ;
    let p: u128 = to_single(m * c as u128);
    let k: u32 = exponent_of(p);
    let u: u128 = unit_of(p);
    proof {
        single_at_most_double((m * c) as nat);
        unit_bounds(p as nat);
        assert(0x80_0000 <= p / u < 0x100_0000) by (nonlinear_arith)
            requires
                u >= 1,
                0x80_0000 * u <= p,
                p < 0x100_0000 * u,
        ;
    }
    Gain { bits: (e + k - 24) * 0x80_0000 + (p / u) as u32 - 0x80_0000 }
}

// --- Scales ----------------------------------------------------------------------------

/// Device pixels per logical pixel, as the bits of a single-precision number.
#[derive(Debug, Clone, Copy, PartialEq, Eq, Structural)]
pub struct Scale {
    pub bits: u32,
}

impl Scale {
    /// Between two to the minus fortieth and two to the 23rd.
    pub open spec fn wf(self) -> bool {
        87 <= self.bits / 0x80_0000 < 150
    }

    /// The power of two its significand is counted in, negated.
    pub open spec fn places(self) -> nat {
        (150 - self.bits / 0x80_0000) as nat
    }

    pub open spec fn significand(self) -> nat {
        (0x80_0000 + self.bits % 0x80_0000) as nat
    }
}

/// `n / 2^places`, rounded to a whole number, halves up.
pub open spec fn halved(n: nat, places: nat) -> nat {
    (2 * n + doubled(1, places)) / (2 * doubled(1, places))
}

/// A number brought into the range of an `i32`.
pub open spec fn saturated(v: int) -> int {
    if v > i32::MAX {
        i32::MAX as int
    } else if v < i32::MIN {
        i32::MIN as int
    } else {
        v
    }
}

/// A logical distance in device pixels, rounded to the nearest.
pub open spec fn device_len(v: nat, scale: Scale) -> nat {
    halved(single(single(v) * scale.significand()), scale.places())
}

/// A logical coordinate in device pixels, rounded to the nearest.
pub open spec fn device_px(v: int, scale: Scale) -> int {
    if v < 0 {
        saturated(-(device_len((-v) as nat, scale) as int))
    } else {
        saturated(device_len(v as nat, scale) as int)
    }
}

/// A length in device pixels as a logical one, rounded to the nearest.
pub open spec fn logical_px(v: nat, scale: Scale) -> int {
    saturated(
        halved(
            single(cut(single(v) * 0x1_0000_0000_0000_0000, scale.significand())),
            (65 - scale.places()) as nat,
        ) as int,
    )
}

proof fn power_bounds(times: nat)
    requires
        times <= 64,
    ensures
        1 <= doubled(1, times) <= 0x1_0000_0000_0000_0000,
{
    doubled_bound(1, 1, times);
    doubled_more(1, times, 64);
    doubled_on(1, 32, 32);
    assert(doubled(1, 32) == 0x1_0000_0000) by {
        reveal_with_fuel(doubled, 33);
    }
    assert(doubled(0x1_0000_0000, 32) == 0x1_0000_0000_0000_0000) by {
        reveal_with_fuel(doubled, 33);
    }
}

fn power_of_two(times: u32) -> (v: u128)
    requires
        times <= 64,
    ensures
        v == doubled(1, times as nat),
        1 <= v <= 0x1_0000_0000_0000_0000,
    decreases times,
{
    proof {
        power_bounds(times as nat);
    }
    if times == 0 {
        1
    } else {
        2 * power_of_two(times - 1)
    }
}

fn halved_of(n: u128, places: u32) -> (v: u128)
    requires
        places <= 64,
        n <= 0x1000_0000_0000_0000_0000_0000_0000,
    ensures
        v == halved(n as nat, places as nat),
{
    let unit: u128 = power_of_two(places);
    (2 * n + unit) / (2 * unit)
}

/// A logical coordinate in device pixels, rounded to the nearest.
pub fn to_device(v: i32, scale: Scale) -> (px: i32)
    requires
        scale.wf(),
    ensures
        px == device_px(v as int, scale),
{
    let length: u128 = if v < 0 {
        (-(v as i64)) as u128
    } else {
        v as u128
    };
    proof {
        single_at_most_double(length as nat);
    }
    let n: u128 = to_single(length);
    let m: u128 = (0x80_0000 + scale.bits % 0x80_0000) as u128;
    assert(n * m <= 0x1_0000_0000 * 0x100_0000) by (nonlinear_arith)
        requires
            n <= 0x1_0000_0000,
            m <= 0x100_0000,
    ;
    proof {
        single_at_most_double((n * m) as nat);
    }
    let px: u128 = halved_of(to_single(n * m), 150 - scale.bits / 0x80_0000);
    if v < 0 {
        if px > 0x8000_0000 {
            i32::MIN
        } else {
            (-(px as i64)) as i32
        }
    } else if px > 0x7fff_ffff {
        i32::MAX
    } else {
        px as i32
    }
}

/// A length in device pixels as a logical one, rounded to the nearest.
pub fn to_logical(v: i32, scale: Scale) -> (px: i32)
    requires
        scale.wf(),
        0 <= v,
    ensures
        px == logical_px(v as nat, scale),
{
    proof {
        single_at_most_double(v as nat);
    }
    let n: u128 = to_single(v as u128) * 0x1_0000_0000_0000_0000;
    let m: u128 = (0x80_0000 + scale.bits % 0x80_0000) as u128;
    let c: u128 = cut_of(n, m);
    proof {
        single_at_most_double(c as nat);
    }
    let places: u32 = 150 - scale.bits / 0x80_0000;
    let px: u128 = halved_of(to_single(c), 65 - places);
    if px > 0x7fff_ffff {
        i32::MAX
    } else {
        px as i32
    }
}

/// A gain in whole percent, to the nearest and within an `i32`; none for what is no
/// number.
pub open spec fn percent(g: Gain) -> int {
    let size = g.bits % 0x8000_0000;
    let minus = g.bits >= 0x8000_0000;
    let e = size as int / 0x80_0000;
    let m = (0x80_0000 + size as int % 0x80_0000) as nat;
    if e < 87 || size > 0x7f80_0000 {
        0
    } else if e < 150 {
        device_px(signed(100, minus), Scale { bits: size })
    } else if e < 152 {
        saturated(signed(doubled(single(100 * m), (e - 150) as nat), minus))
    } else {
        saturated(signed(0x8000_0000, minus))
    }
}

/// A number with a sign.
pub open spec fn signed(n: nat, minus: bool) -> int {
    if minus {
        -(n as int)
    } else {
        n as int
    }
}

/// A gain in whole percent.
pub fn percent_of(g: Gain) -> (v: i32)
    ensures
        v == percent(g),
{
    let size: u32 = g.bits % 0x8000_0000;
    let minus = g.bits >= 0x8000_0000;
    let e: u32 = size / 0x80_0000;
    if e < 87 || size > 0x7f80_0000 {
        return 0;
    }
    if e < 150 {
        return to_device(if minus { -100 } else { 100 }, Scale { bits: size });
    }
    let v: u128 = if e < 152 {
        let m: u128 = (0x80_0000 + size % 0x80_0000) as u128;
        proof {
            single_at_most_double((100 * m) as nat);
            reveal_with_fuel(doubled, 3);
        }
        let s: u128 = to_single(100 * m);
        if e == 150 {
            s
        } else {
            2 * s
        }
    } else {
        0x8000_0000
    };
    if minus {
        if v > 0x8000_0000 {
            i32::MIN
        } else {
            (-(v as i64)) as i32
        }
    } else if v > 0x7fff_ffff {
        i32::MAX
    } else {
        v as i32
    }
}

} // verus!
