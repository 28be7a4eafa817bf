//! Single-precision numbers of either sign, reckoned with on their bits.
//!
//! Every operation rounds as single precision does: to the nearest number, and on
//! a tie to the even one.

use crate::domain::Gain;
use crate::gain;
use crate::gain::{
    is_greater, mantissa_of, nearest_to, over, power_of, times, two_to, with_sign, INFINITE,
    NO_NUMBER,
};
use crate::single;
use vstd::prelude::*;

verus! {

/// A number, as its bits.
#[derive(Debug, Clone, Copy, PartialEq, Eq, Structural)]
pub struct Number {
    pub bits: u32,
}

/// The bits of a half, of one and of two.
pub const HALF: u32 = 0x3f00_0000;

pub const ONE: u32 = 0x3f80_0000;

pub const TWO: u32 = 0x4000_0000;

/// The same bits, as a gain.
pub open spec fn gain_of(a: Number) -> Gain {
    Gain { bits: a.bits }
}

/// A gain's bits, as a number.
pub open spec fn number_of(g: Gain) -> Number {
    Number { bits: g.bits }
}

/// Whether bits stand for no number at all.
pub open spec fn is_none(a: Number) -> bool {
    gain::is_none(gain_of(a))
}

/// Whether one number is less than another; never where either is none.
pub open spec fn less(a: Number, b: Number) -> bool {
    gain::greater(gain_of(b), gain_of(a))
}

/// Whether two numbers are the same; both zeros are, and what is none never is.
pub open spec fn same(a: Number, b: Number) -> bool {
    !is_none(a) && !is_none(b) && gain::place(gain_of(a)) == gain::place(gain_of(b))
}

/// A number with the other sign.
pub open spec fn negated(a: Number) -> Number {
    Number {
        bits: if a.bits >= 0x8000_0000 {
            (a.bits - 0x8000_0000) as u32
        } else {
            (a.bits + 0x8000_0000) as u32
        },
    }
}

/// A number without its sign.
pub open spec fn size(a: Number) -> Number {
    Number { bits: a.bits % 0x8000_0000 }
}

/// The lesser of two numbers, the other where one is none.
pub open spec fn lesser(a: Number, b: Number) -> Number {
    if is_none(a) || less(b, a) {
        b
    } else {
        a
    }
}

/// The larger of two numbers, the other where one is none.
pub open spec fn larger(a: Number, b: Number) -> Number {
    if is_none(a) || less(a, b) {
        b
    } else {
        a
    }
}

/// A number brought between two others.
pub open spec fn clamped(a: Number, low: Number, high: Number) -> Number {
    if less(a, low) {
        low
    } else if less(high, a) {
        high
    } else {
        a
    }
}

/// The product of two numbers.
pub open spec fn product(a: Number, b: Number) -> Number {
    number_of(gain::product(gain_of(a), gain_of(b)))
}

/// The quotient of two numbers.
pub open spec fn quotient(a: Number, b: Number) -> Number {
    number_of(gain::quotient(gain_of(a), gain_of(b)))
}

pub open spec fn square(a: Number) -> Number {
    product(a, a)
}

/// A finite number's significant bits with its sign, counted in two to the power
/// `low`.
pub open spec fn counted(g: Gain, low: int) -> int {
    let x = gain::magnitude(g);
    single::signed(
        single::doubled(gain::mantissa(x), (gain::power(x) - low) as nat),
        gain::negative(g),
    )
}

/// The sum of two finite numbers. One far enough below the other is lost in it;
/// what adds up to nothing is zero, and a negative one only where both are.
pub open spec fn finite_sum(a: Gain, b: Gain) -> Gain {
    let (p, q) = (gain::power(gain::magnitude(a)), gain::power(gain::magnitude(b)));
    let low = if p < q {
        p
    } else {
        q
    };
    let v = counted(a, low) + counted(b, low);
    if p > q + 64 {
        a
    } else if q > p + 64 {
        b
    } else if v == 0 {
        gain::signed(Gain { bits: 0 }, gain::negative(a) && gain::negative(b))
    } else if v < 0 {
        gain::signed(gain::nearest((-v) as nat, 150 - low), true)
    } else {
        gain::nearest(v as nat, 150 - low)
    }
}

/// The sum of two numbers.
#[verifier::opaque]
pub open spec fn sum(a: Number, b: Number) -> Number {
    let (x, y) = (size(a), size(b));
    if is_none(a) || is_none(b) {
        Number { bits: NO_NUMBER }
    } else if x.bits == INFINITE && y.bits == INFINITE && a != b {
        Number { bits: NO_NUMBER }
    } else if x.bits == INFINITE {
        a
    } else if y.bits == INFINITE {
        b
    } else {
        number_of(finite_sum(gain_of(a), gain_of(b)))
    }
}

/// The difference of two numbers.
pub open spec fn difference(a: Number, b: Number) -> Number {
    sum(a, negated(b))
}

/// A whole number.
#[verifier::opaque]
pub open spec fn whole_number(v: int) -> Number {
    if v < 0 {
        number_of(gain::signed(gain::nearest((-v) as nat, 0), true))
    } else {
        number_of(gain::nearest(v as nat, 0))
    }
}

/// The whole part of a size, as far as an `i32` can tell.
pub open spec fn whole_part(g: Gain) -> nat {
    let p = gain::power(g);
    if p > 158 {
        0x8000_0000
    } else if p >= 150 {
        single::doubled(gain::mantissa(g), (p - 150) as nat)
    } else {
        gain::mantissa(g) / single::doubled(1, (150 - p) as nat)
    }
}

/// A number cut to a whole one, within the range of an `i32`; zero where it is
/// none.
#[verifier::opaque]
pub open spec fn cut(a: Number) -> int {
    if is_none(a) {
        0
    } else {
        single::saturated(
            single::signed(whole_part(gain_of(size(a))), gain::negative(gain_of(a))),
        )
    }
}

/// The whole number a number is at most, as near as can be; itself where it has no
/// fraction.
pub open spec fn raised(a: Number) -> Number {
    if gain::power(gain_of(size(a))) >= 150 {
        a
    } else if less(whole_number(cut(a)), a) {
        whole_number(cut(a) + 1)
    } else {
        whole_number(cut(a))
    }
}

/// A number to the nearest whole one, halves away from zero.
#[verifier::opaque]
pub open spec fn rounded(a: Number) -> Number {
    let g = gain_of(size(a));
    if gain::power(g) >= 150 {
        a
    } else {
        let n = single::halved(gain::mantissa(g), (150 - gain::power(g)) as nat);
        number_of(gain::signed(gain::nearest(n, 0), gain::negative(gain_of(a))))
    }
}

/// A number cut to a whole one, within the range of a `u32`; zero where it is none
/// or below that.
#[verifier::opaque]
pub open spec fn counted_up(a: Number) -> u32 {
    if is_none(a) || gain::negative(gain_of(a)) {
        0
    } else if gain::power(gain_of(a)) > 158 {
        u32::MAX
    } else {
        whole_part(gain_of(a)) as u32
    }
}

/// Whether `r` is the largest number whose square is no more than `n`.
pub open spec fn is_floor_root(n: nat, r: nat) -> bool {
    r * r <= n && n < (r + 1) * (r + 1)
}

/// The largest number whose square is no more than `n`.
pub open spec fn floor_root(n: nat) -> nat {
    choose|r: nat| is_floor_root(n, r)
}

/// The square root of a finite size above zero. It is reckoned to more bits than a
/// number holds, the last one telling whether anything was cut off.
pub open spec fn finite_root(g: Gain) -> Gain {
    let p = gain::power(g);
    let places = if p % 2 == 0 {
        64int
    } else {
        65int
    };
    let n = single::doubled(gain::mantissa(g), places as nat);
    let r = floor_root(n);
    gain::nearest(
        2 * r + if r * r < n {
            1nat
        } else {
            0nat
        },
        1 + (150 + places - p) / 2,
    )
}

/// The square root of a number; none of one below zero.
#[verifier::opaque]
pub open spec fn root(a: Number) -> Number {
    if is_none(a) || gain::below_nothing(gain_of(a)) {
        Number { bits: NO_NUMBER }
    } else if size(a).bits == 0 || a.bits == INFINITE {
        a
    } else {
        number_of(finite_root(gain_of(a)))
    }
}

// --- Reckoning it ------------------------------------------------------------------------

impl Number {
    pub fn is_less(self, other: Number) -> (yes: bool)
        ensures
            yes == less(self, other),
    {
        is_greater(Gain { bits: other.bits }, Gain { bits: self.bits })
    }

    fn is_no_number(self) -> (yes: bool)
        ensures
            yes == is_none(self),
    {
        self.bits % 0x8000_0000 > INFINITE
    }

    pub fn is_same(self, other: Number) -> (yes: bool)
        ensures
            yes == same(self, other),
    {
        !self.is_no_number() && !other.is_no_number() && !self.is_less(other) && !other.is_less(
            self,
        )
    }

    pub fn minus(self) -> (v: Number)
        ensures
            v == negated(self),
    {
        if self.bits >= 0x8000_0000 {
            Number { bits: self.bits - 0x8000_0000 }
        } else {
            Number { bits: self.bits + 0x8000_0000 }
        }
    }

    pub fn unsigned(self) -> (v: Number)
        ensures
            v == size(self),
    {
        Number { bits: self.bits % 0x8000_0000 }
    }

    pub fn or_less(self, other: Number) -> (v: Number)
        ensures
            v == lesser(self, other),
    {
        if self.is_no_number() || other.is_less(self) {
            other
        } else {
            self
        }
    }

    pub fn or_more(self, other: Number) -> (v: Number)
        ensures
            v == larger(self, other),
    {
        if self.is_no_number() || self.is_less(other) {
            other
        } else {
            self
        }
    }

    pub fn between(self, low: Number, high: Number) -> (v: Number)
        ensures
            v == clamped(self, low, high),
    {
        if self.is_less(low) {
            low
        } else if high.is_less(self) {
            high
        } else {
            self
        }
    }

    pub fn times(self, other: Number) -> (v: Number)
        ensures
            v == product(self, other),
    {
        Number { bits: times(Gain { bits: self.bits }, Gain { bits: other.bits }).bits }
    }

    pub fn over(self, other: Number) -> (v: Number)
        ensures
            v == quotient(self, other),
    {
        Number { bits: over(Gain { bits: self.bits }, Gain { bits: other.bits }).bits }
    }

    pub fn squared(self) -> (v: Number)
        ensures
            v == square(self),
    {
        self.times(self)
    }

    pub fn plus(self, other: Number) -> (v: Number)
        ensures
            v == sum(self, other),
    {
        reveal(sum);
        let (x, y): (Number, Number) = (self.unsigned(), other.unsigned());
        if x.bits > INFINITE || y.bits > INFINITE {
            return Number { bits: NO_NUMBER };
        }
        if x.bits == INFINITE && y.bits == INFINITE && self != other {
            return Number { bits: NO_NUMBER };
        }
        if x.bits == INFINITE {
            return self;
        }
        if y.bits == INFINITE {
            return other;
        }
        Number { bits: add_finite(Gain { bits: self.bits }, Gain { bits: other.bits }).bits }
    }

    pub fn less_by(self, other: Number) -> (v: Number)
        ensures
            v == difference(self, other),
    {
        self.plus(other.minus())
    }

    pub fn of_whole(v: i32) -> (a: Number)
        ensures
            a == whole_number(v as int),
    {
        reveal(whole_number);
        if v < 0 {
            let g = with_sign(nearest_to((-(v as i64)) as u128, 0), true);
            Number { bits: g.bits }
        } else {
            Number { bits: nearest_to(v as u128, 0).bits }
        }
    }

    pub fn to_whole(self) -> (v: i32)
        ensures
            v == cut(self),
    {
        reveal(cut);
        if self.is_no_number() {
            return 0;
        }
        let n: u128 = whole_of(Gain { bits: self.bits % 0x8000_0000 });
        if self.bits >= 0x8000_0000 {
            if n > 0x8000_0000 {
                i32::MIN
            } else {
                (-(n as i64)) as i32
            }
        } else if n > 0x7fff_ffff {
            i32::MAX
        } else {
            n as i32
        }
    }

    pub fn to_ceiling(self) -> (v: Number)
        ensures
            v == raised(self),
    {
        let p: i32 = power_of(Gain { bits: self.bits % 0x8000_0000 });
        if p >= 150 {
            return self;
        }
        let c: i32 = self.to_whole();
        proof {
            small_wholes(self);
        }
        let whole = Number::of_whole(c);
        if whole.is_less(self) {
            Number::of_whole(c + 1)
        } else {
            whole
        }
    }

    pub fn to_nearest(self) -> (v: Number)
        ensures
            v == rounded(self),
    {
        reveal(rounded);
        let g = Gain { bits: self.bits % 0x8000_0000 };
        let p: i32 = power_of(g);
        if p >= 150 {
            return self;
        }
        let n: u128 = halved_size(g);
        Number { bits: with_sign(nearest_to(n, 0), self.bits >= 0x8000_0000).bits }
    }

    pub fn to_count(self) -> (n: u32)
        ensures
            n == counted_up(self),
    {
        reveal(counted_up);
        if self.bits % 0x8000_0000 > INFINITE || self.bits >= 0x8000_0000 {
            return 0;
        }
        let g = Gain { bits: self.bits };
        if power_of(g) > 158 {
            return 0xffff_ffff;
        }
        whole_of(g) as u32
    }

    pub fn to_root(self) -> (v: Number)
        ensures
            v == root(self),
    {
        reveal(root);
        if self.is_no_number() || (self.bits > 0x8000_0000 && self.bits <= 0xff80_0000) {
            return Number { bits: NO_NUMBER };
        }
        if self.bits % 0x8000_0000 == 0 || self.bits == INFINITE {
            return self;
        }
        Number { bits: root_of(Gain { bits: self.bits }).bits }
    }
}

/// What is under two to the 23rd is far from the ends of an `i32`.
proof fn small_wholes(a: Number)
    requires
        gain::power(gain_of(size(a))) < 150,
    ensures
        -0x100_0000 <= cut(a) <= 0x100_0000,
{
    reveal(cut);
    let g = gain_of(size(a));
    let u = single::doubled(1, (150 - gain::power(g)) as nat);
    single::doubled_bound(1, 1, (150 - gain::power(g)) as nat);
    assert(gain::mantissa(g) / u <= gain::mantissa(g)) by (nonlinear_arith)
        requires
            u >= 1,
            gain::mantissa(g) >= 0,
    ;
}

/// A number's bits moved up, with its sign.
fn shifted(g: Gain, places: u32) -> (v: i128)
    requires
        places <= 64,
    ensures
        v == single::signed(
            single::doubled(gain::mantissa(gain::magnitude(g)), places as nat),
            gain::negative(g),
        ),
        -0x100_0000_0000_0000_0000_0000 <= v <= 0x100_0000_0000_0000_0000_0000,
{
    let m: u128 = mantissa_of(Gain { bits: g.bits % 0x8000_0000 });
    let u: u128 = two_to(places);
    proof {
        single::doubled_is_times(m as nat, places as nat);
        gain::power_of_64();
        single::doubled_more(1, places as nat, 64);
        assert(m * u <= 0x100_0000 * 0x1_0000_0000_0000_0000) by (nonlinear_arith)
            requires
                m <= 0x100_0000,
                u <= 0x1_0000_0000_0000_0000,
        ;
    }
    let v: i128 = (m * u) as i128;
    if g.bits >= 0x8000_0000 {
        -v
    } else {
        v
    }
}

fn add_finite(a: Gain, b: Gain) -> (g: Gain)
    requires
        gain::magnitude(a).bits < INFINITE,
        gain::magnitude(b).bits < INFINITE,
    ensures
        g == finite_sum(a, b),
{
    let p: i32 = power_of(Gain { bits: a.bits % 0x8000_0000 });
    let q: i32 = power_of(Gain { bits: b.bits % 0x8000_0000 });
    if p > q + 64 {
        return a;
    }
    if q > p + 64 {
        return b;
    }
    let low: i32 = if p < q {
        p
    } else {
        q
    };
    let v: i128 = shifted(a, (p - low) as u32) + shifted(b, (q - low) as u32);
    if v == 0 {
        with_sign(Gain { bits: 0 }, a.bits >= 0x8000_0000 && b.bits >= 0x8000_0000)
    } else if v < 0 {
        with_sign(nearest_to((-v) as u128, 150 - low), true)
    } else {
        nearest_to(v as u128, 150 - low)
    }
}

fn whole_of(g: Gain) -> (n: u128)
    requires
        g.bits <= INFINITE,
    ensures
        n == whole_part(g),
        n <= 0x1_0000_0000,
{
    let p: i32 = power_of(g);
    if p > 158 {
        return 0x8000_0000;
    }
    let m: u128 = mantissa_of(g);
    proof {
        assert(single::doubled(1, 8) == 0x100nat && single::doubled(1, 24) == 0x100_0000nat) by {
            reveal_with_fuel(single::doubled, 25);
        }
    }
    if p >= 150 {
        let u: u128 = two_to((p - 150) as u32);
        proof {
            single::doubled_is_times(m as nat, (p - 150) as nat);
            single::doubled_more(1, (p - 150) as nat, 8);
            assert(m * u <= 0x100_0000 * 0x100) by (nonlinear_arith)
                requires
                    m <= 0x100_0000,
                    u <= 0x100,
            ;
        }
        m * u
    } else if p < 126 {
        proof {
            let u = single::doubled(1, (150 - p) as nat);
            single::doubled_more(1, 24, (150 - p) as nat);
            assert(m as nat / u == 0) by (nonlinear_arith)
                requires
                    m < u,
            ;
        }
        0
    } else {
        let u: u128 = two_to((150 - p) as u32);
        assert(m / u <= m) by (nonlinear_arith)
            requires
                u >= 1,
        ;
        m / u
    }
}

/// A size under two to the 23rd, rounded.
fn halved_size(g: Gain) -> (n: u128)
    requires
        gain::power(g) < 150,
    ensures
        n == single::halved(gain::mantissa(g), (150 - gain::power(g)) as nat),
        n <= 0x200_0000,
{
    let m: u128 = mantissa_of(g);
    let places: u32 = (150 - power_of(g)) as u32;
    let ghost one = single::doubled(1, places as nat);
    proof {
        single::doubled_bound(1, 1, places as nat);
        assert(single::doubled(1, 25) == 0x200_0000nat) by {
            reveal_with_fuel(single::doubled, 26);
        }
    }
    if places > 25 {
        proof {
            single::doubled_more(1, 25, places as nat);
            assert((2 * m as nat + one) / (2 * one) == 0) by (nonlinear_arith)
                requires
                    2 * m < one,
            ;
        }
        return 0;
    }
    let u: u128 = two_to(places);
    assert((2 * m + u) / (2 * u) <= 2 * m + u) by (nonlinear_arith)
        requires
            u >= 1,
    ;
    proof {
        single::doubled_more(1, places as nat, 25);
        assert((2 * m + u) / (2 * u) <= 0x200_0000) by (nonlinear_arith)
            requires
                u >= 2,
                m < 0x100_0000,
        ;
    }
    (2 * m + u) / (2 * u)
}

/// No two numbers are the root of one.
proof fn one_root(n: nat, r: nat, s: nat)
    requires
        is_floor_root(n, r),
        is_floor_root(n, s),
    ensures
        r == s,
{
    assert(!(r < s)) by (nonlinear_arith)
        requires
            s * s <= n,
            n < (r + 1) * (r + 1),
    ;
    assert(!(s < r)) by (nonlinear_arith)
        requires
            r * r <= n,
            n < (s + 1) * (s + 1),
    ;
}

fn floor_root_of(n: u128) -> (r: u128)
    requires
        n < 0x400_0000_0000_0000_0000_0000,
    ensures
        r == floor_root(n as nat),
        r < 0x2000_0000_0000,
        r * r <= n,
{
    let mut low: u128 = 0;
    let mut high: u128 = 0x2000_0000_0000;
    while high - low > 1
        invariant
            low < high <= 0x2000_0000_0000,
            low * low <= n,
            n < high * high,
        decreases high - low,
    {
        let mid: u128 = low + (high - low) / 2;
        assert(mid * mid <= 0x2000_0000_0000 * 0x2000_0000_0000) by (nonlinear_arith)
            requires
                mid <= 0x2000_0000_0000,
        ;
        if mid * mid <= n {
            low = mid;
        } else {
            high = mid;
        }
    }
    proof {
        assert(high == low + 1);
        assert(is_floor_root(n as nat, low as nat));
        one_root(n as nat, low as nat, floor_root(n as nat));
    }
    low
}

fn root_of(g: Gain) -> (v: Gain)
    requires
        0 < g.bits < INFINITE,
    ensures
        v == finite_root(g),
{
    let p: i32 = power_of(g);
    let places: u32 = if p % 2 == 0 {
        64
    } else {
        65
    };
    let m: u128 = mantissa_of(g);
    let u: u128 = two_to(places);
    proof {
        single::doubled_is_times(m as nat, places as nat);
        gain::power_of_64();
        assert(m * u <= 0xff_ffff * 0x2_0000_0000_0000_0000) by (nonlinear_arith)
            requires
                m <= 0xff_ffff,
                u <= 0x2_0000_0000_0000_0000,
        ;
    }
    let n: u128 = m * u;
    let r: u128 = floor_root_of(n);
    let c: u128 = 2 * r + if r * r < n {
        1
    } else {
        0
    };
    nearest_to(c, 1 + (150 + places as i32 - p) / 2)
}

} // verus!
