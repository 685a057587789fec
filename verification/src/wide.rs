//! Exact arithmetic on the values of IEEE-754 single bit patterns.
//!
//! A [`Wide`] is an integer of several hundred bits. With [`UNIT_EXPONENT`]
//! fractional bits every number a pattern can stand for is a multiple of four
//! units, so that sums, halves and quarters of such numbers, and their products
//! with counts, are held without rounding. Rounding happens in one place only:
//! where a quotient is taken.

use crate::pattern::{
    binary_exponent, exponent_field, is_nan, is_negative, lemma_round_near, nan, round_even,
    significand, stands_for,
};
use vstd::arithmetic::power2::pow2;
use vstd::prelude::*;

verus! {

/// The base of the digits a [`Wide`] is made of: 2^128.
#[verifier::inline]
pub open spec fn base() -> int {
    0x1_0000_0000_0000_0000_0000_0000_0000_0000int
}

/// Fractional bits of the unit values are counted in.
pub const UNIT_EXPONENT: u32 = 151;

/// The magnitude of an infinite pattern, which no other pattern's exceeds: 2^128
/// in units.
#[verifier::inline]
pub open spec fn reach() -> int {
    0x80_0000int * (base() * base())
}

/// A magnitude past every number a pattern stands for, and past every sum of a
/// few of them.
#[verifier::inline]
pub open spec fn beyond() -> int {
    0x4000_0000int * reach()
}

/// The largest magnitude a [`Wide`] has.
#[verifier::inline]
pub open spec fn farthest() -> int {
    0x200_0000_0000_0000_0000int * reach()
}

/// `v` held to the range of a [`Wide`].
pub open spec fn held(v: int) -> int {
    if v > farthest() {
        farthest()
    } else if v < -farthest() {
        -farthest()
    } else {
        v
    }
}

/// The value of a pattern in units; zero where it is not a number. An infinite
/// pattern stands for [`reach`].
pub open spec fn value(bits: u32) -> int {
    if is_nan(bits) {
        0
    } else if is_negative(bits) {
        -(significand(bits) * pow2((binary_exponent(bits) + UNIT_EXPONENT) as nat))
    } else {
        (significand(bits) * pow2((binary_exponent(bits) + UNIT_EXPONENT) as nat)) as int
    }
}

/// Whether the value of `bits` is the integer `n`, or, past twenty-four bits, `n`
/// to that precision.
pub open spec fn nearest_to(bits: u32, n: int) -> bool {
    let exact = n * pow2(UNIT_EXPONENT as nat);
    &&& n <= 0x100_0000 ==> value(bits) == exact
    &&& 0x100_0000 * (value(bits) - exact) <= exact
    &&& 0x100_0000 * (exact - value(bits)) <= exact
}

/// A pattern that stands for an integer has its value.
pub proof fn lemma_stands_for_its_value(bits: u32, n: int, k: int)
    requires
        0 <= k < 32,
        stands_for(bits, n, k),
    ensures
        nearest_to(bits, n),
{
    let u = pow2(151) as int;
    let m = significand(bits) as int;
    vstd::arithmetic::power2::lemma2_to64();
    vstd::arithmetic::power2::lemma_pow2_pos(151);
    if k <= 23 {
        assert(exponent_field(bits) < 255);
        let a = pow2((23 - k) as nat) as int;
        let b = pow2((128 + k) as nat) as int;
        vstd::arithmetic::power2::lemma_pow2_adds((23 - k) as nat, (128 + k) as nat);
        assert(m * b == n * u) by (nonlinear_arith)
            requires
                m == n * a,
                a * b == u,
        ;
        assert(n * u >= 0) by (nonlinear_arith)
            requires
                n >= 0,
                u > 0,
        ;
    } else {
        let e = binary_exponent(bits);
        let p = pow2((k - 23) as nat) as int;
        let q = pow2(e as nat) as int;
        vstd::arithmetic::power2::lemma_pow2_unfold((k - 23) as nat);
        vstd::arithmetic::power2::lemma_pow2_pos((k - 23) as nat);
        vstd::arithmetic::power2::lemma_pow2_pos((k - 24) as nat);
        vstd::arithmetic::power2::lemma_pow2_adds(23, (k - 23) as nat);
        if k < 31 {
            vstd::arithmetic::power2::lemma_pow2_strictly_increases((k + 1) as nat, 32);
        }
        lemma_round_near(n, p);
        let r = round_even(n, p) * p;
        assert(m >= 0x80_0000);
        if e > 32 {
            vstd::arithmetic::power2::lemma_pow2_strictly_increases(32, e as nat);
            assert(m * q > 0x80_0000 * 0x1_0000_0000) by (nonlinear_arith)
                requires
                    m >= 0x80_0000,
                    q > 0x1_0000_0000,
            ;
            assert(false);
        }
        let w = pow2((e + 151) as nat) as int;
        vstd::arithmetic::power2::lemma_pow2_adds(e as nat, 151);
        assert(m * w == r * u) by (nonlinear_arith)
            requires
                w == q * u,
                m * q == r,
        ;
        assert(0x100_0000 * (r * u - n * u) <= n * u) by (nonlinear_arith)
            requires
                0x100_0000 * (r - n) <= n,
                u > 0,
        ;
        assert(0x100_0000 * (n * u - r * u) <= n * u) by (nonlinear_arith)
            requires
                0x100_0000 * (n - r) <= n,
                u > 0,
        ;
        if n <= 0x100_0000 {
            if k > 24 {
                vstd::arithmetic::power2::lemma_pow2_strictly_increases(24, k as nat);
            }
            assert(n == 0x100_0000 && p == 2);
            assert(r == n);
        }
    }
}

/// The value of a pattern never decreases with the pattern, signs apart, and the
/// pattern of one is one unit of measure: with twice the exponent comes twice
/// the value.
pub proof fn law_values_follow_their_patterns(a: u32, b: u32)
    requires
        !is_nan(a),
        !is_nan(b),
    ensures
        a < b < 0x8000_0000 ==> value(a) < value(b),
        0x8000_0000 <= a < b ==> value(b) < value(a),
        a < 0x8000_0000 && b == a + 0x8000_0000 ==> value(b) == -value(a),
        0x80_0000 <= a && b == a + 0x80_0000 < 0x7f80_0000 ==> value(b) == 2 * value(a),
        value(0x3f80_0000) == pow2(UNIT_EXPONENT as nat),
        value(0) == 0,
{
    vstd::arithmetic::power2::lemma2_to64();
    vstd::arithmetic::power2::lemma_pow2_adds(23, 128);
    assert(exponent_field(0x3f80_0000) == 127);
    assert(value(0x3f80_0000) == pow2(UNIT_EXPONENT as nat));
    assert(0 * pow2(2) == 0) by (nonlinear_arith);
    if a < b && (b < 0x8000_0000 || a >= 0x8000_0000) {
        lemma_magnitudes_ordered(a, b);
    }
    if 0x80_0000 <= a && b == a + 0x80_0000 < 0x7f80_0000 {
        let s = (binary_exponent(a) + 151) as nat;
        vstd::arithmetic::power2::lemma_pow2_unfold(s + 1);
        assert(exponent_field(b) == exponent_field(a) + 1);
        let m = significand(a) as int;
        assert(m * pow2(s + 1) == 2 * (m * pow2(s))) by (nonlinear_arith)
            requires
                pow2(s + 1) == 2 * pow2(s),
        ;
    }
}

/// Of two patterns of one sign the larger has the larger magnitude.
proof fn lemma_magnitudes_ordered(a: u32, b: u32)
    requires
        !is_nan(a),
        !is_nan(b),
        a < b,
        is_negative(a) == is_negative(b),
    ensures
        significand(a) * pow2((binary_exponent(a) + 151) as nat) < significand(b) * pow2(
            (binary_exponent(b) + 151) as nat,
        ),
{
    let s = (binary_exponent(a) + 151) as nat;
    let t = (binary_exponent(b) + 151) as nat;
    let m = significand(a) as int;
    let n = significand(b) as int;
    let p = pow2(s) as int;
    let q = pow2(t) as int;
    vstd::arithmetic::power2::lemma_pow2_pos(s);
    assert(exponent_field(a) <= exponent_field(b));
    if s == t {
        assert(m < n);
        assert(m * p < n * q) by (nonlinear_arith)
            requires
                m < n,
                p == q,
                p > 0,
        ;
    } else {
        vstd::arithmetic::power2::lemma_pow2_unfold(s + 1);
        if t > s + 1 {
            vstd::arithmetic::power2::lemma_pow2_strictly_increases(s + 1, t);
        }
        assert(m < 0x100_0000 && n >= 0x80_0000);
        assert(m * p < n * q) by (nonlinear_arith)
            requires
                m < 0x100_0000,
                n >= 0x80_0000,
                q >= 2 * p,
                p > 0,
        ;
    }
}

/// Three digits, the most significant first: `(hi * 2^128 + mid) * 2^128 + lo`.
#[derive(Clone, Copy, Debug, PartialEq, Eq, PartialOrd, Ord, Structural)]
struct Digits {
    hi: i128,
    mid: u128,
    lo: u128,
}

/// What digits stand for.
spec fn read(d: Digits) -> int {
    (d.hi * base() + d.mid) * base() + d.lo
}

/// Whether digits can hold `v` with a bit to spare.
spec fn spare(v: int) -> bool {
    -0x4000_0000_0000_0000_0000_0000_0000_0000int * (base() * base()) <= v
        <= 0x4000_0000_0000_0000_0000_0000_0000_0000int * (base() * base())
}

/// An exact number.
#[derive(Clone, Copy, Debug, PartialEq, Eq, PartialOrd, Ord, Structural)]
pub struct Wide {
    digits: Digits,
}

impl View for Wide {
    type V = int;

    closed spec fn view(&self) -> int {
        held(read(self.digits))
    }
}

impl Wide {
    #[verifier::type_invariant]
    spec fn within_reach(self) -> bool {
        -farthest() <= read(self.digits) <= farthest()
    }
}

/// The digits of an integer.
spec fn digits_of(v: int) -> Digits {
    Digits {
        hi: ((v / base()) / base()) as i128,
        mid: ((v / base()) % base()) as u128,
        lo: (v % base()) as u128,
    }
}

/// The number with the value `v`.
pub closed spec fn wide(v: int) -> Wide {
    Wide { digits: digits_of(v) }
}

/// Digits are read back as what was written.
proof fn lemma_read_back(v: int)
    requires
        spare(v),
    ensures
        read(digits_of(v)) == v,
{
    vstd::arithmetic::div_mod::lemma_fundamental_div_mod(v, base());
    vstd::arithmetic::div_mod::lemma_fundamental_div_mod(v / base(), base());
}

/// Digits are determined by what they stand for.
proof fn lemma_one_way(d: Digits)
    ensures
        digits_of(read(d)) == d,
{
    let v = read(d);
    vstd::arithmetic::div_mod::lemma_fundamental_div_mod_converse(
        v,
        base(),
        d.hi * base() + d.mid,
        d.lo as int,
    );
    vstd::arithmetic::div_mod::lemma_fundamental_div_mod_converse(
        v / base(),
        base(),
        d.hi as int,
        d.mid as int,
    );
}

/// A number has the value it was made of.
pub broadcast proof fn lemma_wide(v: int)
    requires
        -farthest() <= v <= farthest(),
    ensures
        #[trigger] wide(v)@ == v,
{
    lemma_read_back(v);
}

/// No number lies outside the range.
pub broadcast proof fn lemma_in_range(w: Wide)
    ensures
        -farthest() <= #[trigger] w@ <= farthest(),
{
}

/// What every number is known by.
pub broadcast group group_wide {
    lemma_wide,
    lemma_in_range,
}

/// The sum of two digits and a carry.
fn digit_sum(a: u128, b: u128, carry: bool) -> (r: (u128, bool))
    ensures
        a + b + (if carry {
            1int
        } else {
            0int
        }) == r.0 + (if r.1 {
            base()
        } else {
            0int
        }),
{
    let room: u128 = 0xffff_ffff_ffff_ffff_ffff_ffff_ffff_ffff - a;
    if b < room {
        (
            if carry {
                a + b + 1
            } else {
                a + b
            },
            false,
        )
    } else if b == room && !carry {
        (a + b, false)
    } else if b == room {
        (0, true)
    } else {
        (
            if carry {
                b - room
            } else {
                b - room - 1
            },
            true,
        )
    }
}

/// Adds.
fn digits_plus(a: Digits, b: Digits) -> (r: Digits)
    requires
        spare(read(a) + read(b)),
    ensures
        read(r) == read(a) + read(b),
{
    let (lo, first): (u128, bool) = digit_sum(a.lo, b.lo, false);
    let (mid, second): (u128, bool) = digit_sum(a.mid, b.mid, first);
    let hi: i128 = a.hi + b.hi;
    Digits {
        hi: if second {
            hi + 1
        } else {
            hi
        },
        mid,
        lo,
    }
}

/// Negates.
fn digits_negated(a: Digits) -> (r: Digits)
    requires
        spare(read(a)),
    ensures
        read(r) == -read(a),
{
    let most: u128 = 0xffff_ffff_ffff_ffff_ffff_ffff_ffff_ffff;
    if a.lo == 0 {
        if a.mid == 0 {
            Digits { hi: -a.hi, mid: 0, lo: 0 }
        } else {
            Digits { hi: -a.hi - 1, mid: most - a.mid + 1, lo: 0 }
        }
    } else {
        Digits { hi: -a.hi - 1, mid: most - a.mid, lo: most - a.lo + 1 }
    }
}

/// Whether the first is at most the second.
fn digits_at_most(a: Digits, b: Digits) -> (yes: bool)
    ensures
        yes == (read(a) <= read(b)),
{
    if a.hi != b.hi {
        a.hi < b.hi
    } else if a.mid != b.mid {
        a.mid < b.mid
    } else {
        a.lo <= b.lo
    }
}

/// Halves, rounding down.
fn digits_half(a: Digits) -> (r: Digits)
    requires
        spare(read(a)),
    ensures
        read(r) == read(a) / 2,
        spare(read(r)),
{
    let hi: i128 = if a.hi >= 0 {
        a.hi / 2
    } else {
        -((1 - a.hi) / 2)
    };
    let top: u128 = 0x8000_0000_0000_0000_0000_0000_0000_0000;
    let mid: u128 = if a.hi - 2 * hi == 1 {
        a.mid / 2 + top
    } else {
        a.mid / 2
    };
    let lo: u128 = if a.mid % 2 == 1 {
        a.lo / 2 + top
    } else {
        a.lo / 2
    };
    Digits { hi, mid, lo }
}

/// Divides by 2^128, rounding down.
fn digits_down(a: Digits) -> (r: Digits)
    requires
        spare(read(a)),
    ensures
        read(r) == read(a) / base(),
        spare(read(r)),
{
    proof {
        vstd::arithmetic::div_mod::lemma_fundamental_div_mod_converse(
            read(a),
            base(),
            a.hi * base() + a.mid,
            a.lo as int,
        );
    }
    if a.hi >= 0 {
        Digits { hi: 0, mid: a.hi as u128, lo: a.mid }
    } else {
        let most: u128 = 0xffff_ffff_ffff_ffff_ffff_ffff_ffff_ffff;
        Digits { hi: -1, mid: most - ((-a.hi) as u128) + 1, lo: a.mid }
    }
}

/// Dividing twice, rounding down, is dividing once by the product.
proof fn lemma_divided_twice(x: int, a: int, b: int)
    requires
        a > 0,
        b > 0,
    ensures
        (x / a) / b == x / (a * b),
        a * b > 0,
{
    vstd::arithmetic::div_mod::lemma_fundamental_div_mod(x, a);
    vstd::arithmetic::div_mod::lemma_fundamental_div_mod(x / a, b);
    let q = x / a;
    let r = x % a;
    let p = q / b;
    let t = q % b;
    assert(a * b > 0) by (nonlinear_arith)
        requires
            a > 0,
            b > 0,
    ;
    assert(x == p * (a * b) + (a * t + r)) by (nonlinear_arith)
        requires
            x == a * q + r,
            q == b * p + t,
    ;
    assert(0 <= a * t + r < a * b) by (nonlinear_arith)
        requires
            0 <= r < a,
            0 <= t < b,
            a > 0,
    ;
    vstd::arithmetic::div_mod::lemma_fundamental_div_mod_converse(x, a * b, p, a * t + r);
}

/// Divides by `2^s`, rounding down.
fn digits_shifted(a: Digits, s: u32) -> (r: Digits)
    requires
        spare(read(a)),
    ensures
        read(r) == read(a) / pow2(s as nat) as int,
{
    let mut d: Digits = a;
    let mut done: u32 = 0;
    proof {
        vstd::arithmetic::power2::lemma2_to64();
        assert(pow2(0) == 1);
    }
    while s - done >= 128
        invariant
            done <= s,
            spare(read(d)),
            read(d) == read(a) / pow2(done as nat) as int,
        decreases s - done,
    {
        d = digits_down(d);
        proof {
            vstd::arithmetic::power2::lemma_pow2_pos(done as nat);
            lemma_base_is_a_power();
            vstd::arithmetic::power2::lemma_pow2_adds(done as nat, 128);
            lemma_divided_twice(read(a), pow2(done as nat) as int, base());
        }
        done = done + 128;
    }
    while done < s
        invariant
            done <= s,
            spare(read(d)),
            read(d) == read(a) / pow2(done as nat) as int,
        decreases s - done,
    {
        d = digits_half(d);
        proof {
            vstd::arithmetic::power2::lemma_pow2_pos(done as nat);
            vstd::arithmetic::power2::lemma_pow2_unfold((done + 1) as nat);
            lemma_divided_twice(read(a), pow2(done as nat) as int, 2);
        }
        done = done + 1;
    }
    d
}

/// The base of the digits as a power of two.
proof fn lemma_base_is_a_power()
    ensures
        pow2(128) == base(),
{
    vstd::arithmetic::power2::lemma2_to64_rest();
    vstd::arithmetic::power2::lemma_pow2_adds(64, 64);
    assert(pow2(64) == 0x1_0000_0000_0000_0000);
}

/// Multiplies by a small factor.
fn digits_times(a: Digits, k: u32) -> (r: Digits)
    requires
        k <= 0x200_0000,
        -2 * farthest() <= read(a) <= 2 * farthest(),
    ensures
        read(r) == read(a) * k,
    decreases k,
{
    if k == 0 {
        return Digits { hi: 0, mid: 0, lo: 0 };
    }
    let half: u32 = k / 2;
    let h: Digits = digits_times(a, half);
    proof {
        lemma_product_small(read(a), half as int);
        lemma_product_small(read(a), 2 * half as int);
        lemma_product_small(read(a), k as int);
        assert(read(a) * (2 * half) == read(a) * half + read(a) * half) by (nonlinear_arith);
        assert(read(a) * (2 * half + 1) == read(a) * (2 * half) + read(a)) by (nonlinear_arith);
    }
    let twice: Digits = digits_plus(h, h);
    if k % 2 == 1 {
        digits_plus(twice, a)
    } else {
        twice
    }
}

/// A product with a small factor leaves a bit to spare.
proof fn lemma_product_small(v: int, k: int)
    requires
        0 <= k <= 0x200_0000,
        -2 * farthest() <= v <= 2 * farthest(),
    ensures
        -0x400_0000 * farthest() <= v * k <= 0x400_0000 * farthest(),
        spare(v * k),
{
    let f = farthest();
    assert(-0x400_0000 * f <= v * k <= 0x400_0000 * f) by (nonlinear_arith)
        requires
            0 <= k <= 0x200_0000,
            -2 * f <= v <= 2 * f,
    ;
}

/// A quotient held to the range of 128 bits.
pub open spec fn count_held(q: int) -> int {
    if q > u128::MAX {
        u128::MAX as int
    } else {
        q
    }
}

/// Divides: the quotient, and what is left.
fn digits_divided(n: Digits, d: Digits) -> (r: (u128, Digits))
    requires
        0 <= read(n) <= farthest(),
        0 < read(d) <= 2 * farthest(),
    ensures
        r.0 == count_held(read(n) / read(d)),
        read(r.1) == read(n) % read(d),
    decreases
            if read(n) >= read(d) {
                read(n) - read(d) + 1
            } else {
                0
            },
{
    if !digits_at_most(d, n) {
        proof {
            vstd::arithmetic::div_mod::lemma_basic_div(read(n), read(d));
            vstd::arithmetic::div_mod::lemma_small_mod(read(n) as nat, read(d) as nat);
        }
        return (0, n);
    }
    let double: Digits = digits_plus(d, d);
    let (q, left): (u128, Digits) = digits_divided(n, double);
    let ghost p = read(n) / read(double);
    let ghost v = read(d);
    proof {
        vstd::arithmetic::div_mod::lemma_fundamental_div_mod(read(n), 2 * v);
        assert(read(n) == v * (2 * p) + read(left)) by (nonlinear_arith)
            requires
                read(n) == (2 * v) * p + read(left),
        ;
        assert(p >= 0) by (nonlinear_arith)
            requires
                read(n) == (2 * v) * p + read(left),
                read(n) >= 0,
                0 <= read(left) < 2 * v,
                v > 0,
        ;
    }
    let most: u128 = 0xffff_ffff_ffff_ffff_ffff_ffff_ffff_ffff;
    if digits_at_most(d, left) {
        proof {
            assert(v * (2 * p) + read(left) == (2 * p + 1) * v + (read(left) - v))
                by (nonlinear_arith);
            vstd::arithmetic::div_mod::lemma_fundamental_div_mod_converse(
                read(n),
                v,
                2 * p + 1,
                read(left) - v,
            );
        }
        let rest: Digits = digits_plus(left, digits_negated(d));
        (
            if q > most / 2 {
                most
            } else {
                2 * q + 1
            },
            rest,
        )
    } else {
        proof {
            assert(v * (2 * p) == (2 * p) * v) by (nonlinear_arith);
            vstd::arithmetic::div_mod::lemma_fundamental_div_mod_converse(
                read(n),
                v,
                2 * p,
                read(left),
            );
        }
        (
            if q > most / 2 {
                most
            } else {
                2 * q
            },
            left,
        )
    }
}

/// No pattern stands for more than [`reach`], every one for a multiple of four.
pub proof fn lemma_value_reach(bits: u32)
    ensures
        -reach() <= value(bits) <= reach(),
        value(bits) % 4 == 0,
{
    if !is_nan(bits) {
        let m = significand(bits) as int;
        let s = (binary_exponent(bits) + UNIT_EXPONENT) as nat;
        lemma_shift_reach(m, s, exponent_field(bits) == 255);
        lemma_quarters(m, s);
        let p = m * pow2(s);
        assert((-p) % 4 == 0) by {
            vstd::arithmetic::div_mod::lemma_fundamental_div_mod(p, 4);
        }
    }
}

/// A shifted significand is a multiple of four.
proof fn lemma_quarters(m: int, s: nat)
    requires
        s >= 2,
    ensures
        (m * pow2(s)) % 4 == 0,
{
    vstd::arithmetic::power2::lemma_pow2_adds(2, (s - 2) as nat);
    vstd::arithmetic::power2::lemma2_to64();
    let q = m * pow2((s - 2) as nat);
    assert(m * pow2(s) == 4 * q) by (nonlinear_arith)
        requires
            pow2(s) == 4 * pow2((s - 2) as nat),
            q == m * pow2((s - 2) as nat),
    ;
}

/// A shifted significand stays within [`reach`].
proof fn lemma_shift_reach(m: int, s: nat, infinite: bool)
    requires
        0 <= m < 0x100_0000,
        s <= 256,
        infinite ==> m == 0x80_0000 || s <= 255,
        !infinite ==> s <= 255,
    ensures
        0 <= m * pow2(s) <= reach(),
{
    lemma_base_is_a_power();
    vstd::arithmetic::power2::lemma_pow2_adds(128, 128);
    vstd::arithmetic::power2::lemma_pow2_pos(s);
    if s <= 255 {
        vstd::arithmetic::power2::lemma_pow2_unfold(256);
        if s < 255 {
            vstd::arithmetic::power2::lemma_pow2_strictly_increases(s, 255);
        }
        let p = pow2(s) as int;
        let h = pow2(255) as int;
        assert(0 <= m * p <= 0x100_0000 * h) by (nonlinear_arith)
            requires
                0 <= m < 0x100_0000,
                0 < p <= h,
        ;
        assert(2 * h == base() * base());
    }
}

impl Wide {
    /// The value of a pattern.
    pub fn of(bits: u32) -> (w: Wide)
        ensures
            w == wide(value(bits)),
            w@ == value(bits),
            -reach() <= w@ <= reach(),
    {
        let field: u32 = (bits / 0x80_0000) % 256;
        let fraction: u32 = bits % 0x80_0000;
        proof {
            lemma_value_reach(bits);
            lemma_read_back(value(bits));
        }
        if nan(bits) {
            let d: Digits = Digits { hi: 0, mid: 0, lo: 0 };
            proof {
                lemma_one_way(d);
            }
            return Wide { digits: d };
        }
        let m: u32 = if field == 0 {
            fraction
        } else {
            fraction + 0x80_0000
        };
        let s: u32 = if field == 0 {
            2
        } else {
            field + 1
        };
        assert(m == significand(bits));
        assert(s == binary_exponent(bits) + UNIT_EXPONENT);
        let up: Digits = shifted_up(m, s);
        let d: Digits = if bits >= 0x8000_0000 {
            digits_negated(up)
        } else {
            up
        };
        proof {
            lemma_one_way(d);
        }
        Wide { digits: d }
    }

    /// Zero.
    pub fn zero() -> (w: Wide)
        ensures
            w == wide(0),
            w@ == 0,
    {
        let d: Digits = Digits { hi: 0, mid: 0, lo: 0 };
        proof {
            lemma_one_way(d);
        }
        Wide { digits: d }
    }

    /// Past every number a pattern stands for.
    pub fn past_all() -> (w: Wide)
        ensures
            w == wide(beyond()),
            w@ == beyond(),
    {
        let d: Digits = Digits { hi: 0x20_0000_0000_0000, mid: 0, lo: 0 };
        proof {
            lemma_one_way(d);
        }
        Wide { digits: d }
    }

    /// A power of two.
    pub fn power(s: u32) -> (w: Wide)
        requires
            s <= 340,
        ensures
            w@ == pow2(s as nat),
            w == wide(pow2(s as nat) as int),
            0 < w@ <= farthest(),
    {
        proof {
            lemma_power_fits(s as nat);
        }
        let mut d: Digits = Digits { hi: 0, mid: 0, lo: 1 };
        let mut k: u32 = 0;
        proof {
            vstd::arithmetic::power2::lemma2_to64();
        }
        while k < s
            invariant
                k <= s <= 340,
                read(d) == pow2(k as nat),
            decreases s - k,
        {
            proof {
                lemma_power_fits((k + 1) as nat);
                vstd::arithmetic::power2::lemma_pow2_unfold((k + 1) as nat);
            }
            d = digits_plus(d, d);
            k = k + 1;
        }
        proof {
            lemma_one_way(d);
        }
        Wide { digits: d }
    }

    /// The sum, held to the range.
    pub fn plus(self, other: Wide) -> (w: Wide)
        ensures
            w == wide(held(self@ + other@)),
            w@ == held(self@ + other@),
    {
        proof {
            use_type_invariant(&self);
            use_type_invariant(&other);
        }
        held_digits(digits_plus(self.digits, other.digits))
    }

    /// The number with the opposite sign.
    pub fn negated(self) -> (w: Wide)
        ensures
            w == wide(-self@),
            w@ == -self@,
    {
        proof {
            use_type_invariant(&self);
        }
        let d: Digits = digits_negated(self.digits);
        proof {
            lemma_one_way(d);
        }
        Wide { digits: d }
    }

    /// Whether this is at most `other`.
    pub fn at_most(self, other: Wide) -> (yes: bool)
        ensures
            yes == (self@ <= other@),
    {
        proof {
            use_type_invariant(&self);
            use_type_invariant(&other);
        }
        digits_at_most(self.digits, other.digits)
    }

    /// The lesser of two.
    pub fn lesser(self, other: Wide) -> (w: Wide)
        ensures
            w == (if self@ <= other@ {
                self
            } else {
                other
            }),
    {
        if self.at_most(other) {
            self
        } else {
            other
        }
    }

    /// The greater of two.
    pub fn greater(self, other: Wide) -> (w: Wide)
        ensures
            w == (if self@ >= other@ {
                self
            } else {
                other
            }),
    {
        if other.at_most(self) {
            self
        } else {
            other
        }
    }

    /// The product with a count, held to the range.
    pub fn times(self, k: u128) -> (w: Wide)
        ensures
            w == wide(held(self@ * k)),
            w@ == held(self@ * k),
        decreases k,
    {
        if k == 0 {
            return Wide::zero();
        }
        let half: u128 = k / 2;
        let h: Wide = self.times(half);
        proof {
            use_type_invariant(&self);
            let v = self@;
            let g = half as int;
            assert(v * (2 * g) == v * g + v * g) by (nonlinear_arith);
            assert(v * (2 * g + 1) == v * (2 * g) + v) by (nonlinear_arith);
            assert(v >= 0 ==> v * g >= 0 && v * (2 * g) >= 0) by (nonlinear_arith)
                requires
                    g >= 0,
            ;
            assert(v <= 0 ==> v * g <= 0 && v * (2 * g) <= 0) by (nonlinear_arith)
                requires
                    g >= 0,
            ;
        }
        let twice: Wide = h.plus(h);
        if k % 2 == 1 {
            twice.plus(self)
        } else {
            twice
        }
    }

    /// The product with a small factor, held to the range.
    pub fn scaled_by(self, m: i32) -> (w: Wide)
        requires
            -0x200_0000 <= m <= 0x200_0000,
        ensures
            w == wide(held(self@ * m)),
            w@ == held(self@ * m),
    {
        if m >= 0 {
            self.times(m as u128)
        } else {
            let up: Wide = self.times((-m) as u128);
            proof {
                assert(self@ * -m == -(self@ * m)) by (nonlinear_arith);
            }
            up.negated()
        }
    }

    /// The half, rounded down.
    pub fn halved(self) -> (w: Wide)
        ensures
            w == wide(self@ / 2),
            w@ == self@ / 2,
    {
        proof {
            use_type_invariant(&self);
        }
        let d: Digits = digits_half(self.digits);
        proof {
            lemma_one_way(d);
        }
        Wide { digits: d }
    }

    /// The quotient of two numbers that are not negative, rounded up.
    pub fn divided_up(self, d: Wide) -> (q: u128)
        requires
            0 <= self@,
            0 < d@,
        ensures
            q == count_held(-((-self@) / d@)),
    {
        proof {
            use_type_invariant(&self);
            use_type_invariant(&d);
            lemma_rounded_up(self@, d@);
        }
        let (q, left): (u128, Digits) = digits_divided(self.digits, d.digits);
        let none: Digits = Digits { hi: 0, mid: 0, lo: 0 };
        if digits_at_most(left, none) || q == 0xffff_ffff_ffff_ffff_ffff_ffff_ffff_ffff {
            q
        } else {
            q + 1
        }
    }

    /// The digits, the most significant first: `(hi * 2^128 + mid) * 2^128 + lo`.
    pub fn parts(self) -> (p: (i128, u128, u128))
        ensures
            self@ == (p.0 * base() + p.1) * base() + p.2,
    {
        proof {
            use_type_invariant(&self);
        }
        (self.digits.hi, self.digits.mid, self.digits.lo)
    }
}

/// A power of two below the range.
pub proof fn lemma_power_fits(s: nat)
    requires
        s <= 340,
    ensures
        0 < pow2(s) <= farthest(),
{
    lemma_base_is_a_power();
    vstd::arithmetic::power2::lemma_pow2_pos(s);
    vstd::arithmetic::power2::lemma_pow2_adds(128, 128);
    vstd::arithmetic::power2::lemma_pow2_adds(256, 84);
    vstd::arithmetic::power2::lemma_pow2_adds(20, 64);
    vstd::arithmetic::power2::lemma2_to64();
    vstd::arithmetic::power2::lemma2_to64_rest();
    assert(pow2(340) == (base() * base()) * (0x10_0000 * 0x1_0000_0000_0000_0000))
        by (nonlinear_arith)
        requires
            pow2(340) == pow2(256) * pow2(84),
            pow2(256) == base() * base(),
            pow2(84) == 0x10_0000 * 0x1_0000_0000_0000_0000,
    ;
    if s < 340 {
        vstd::arithmetic::power2::lemma_pow2_strictly_increases(s, 340);
    }
}

/// Rounding up is rounding down and adding one where something is left.
proof fn lemma_rounded_up(n: int, d: int)
    requires
        0 < d,
    ensures
        -((-n) / d) == n / d + (if n % d == 0 {
            0int
        } else {
            1int
        }),
        n >= 0 ==> n / d >= 0,
{
    vstd::arithmetic::div_mod::lemma_fundamental_div_mod(n, d);
    let q = n / d;
    let r = n % d;
    if r == 0 {
        assert(-n == (-q) * d + 0) by (nonlinear_arith)
            requires
                n == d * q,
        ;
        vstd::arithmetic::div_mod::lemma_fundamental_div_mod_converse(-n, d, -q, 0);
    } else {
        assert(-n == (-q - 1) * d + (d - r)) by (nonlinear_arith)
            requires
                n == d * q + r,
        ;
        vstd::arithmetic::div_mod::lemma_fundamental_div_mod_converse(-n, d, -q - 1, d - r);
    }
    if n >= 0 {
        vstd::arithmetic::div_mod::lemma_div_pos_is_pos(n, d);
    }
}

/// A significand times `2^s`.
fn shifted_up(m: u32, s: u32) -> (d: Digits)
    requires
        m < 0x100_0000,
        2 <= s <= 256,
        s == 256 ==> m == 0x80_0000,
    ensures
        read(d) == m * pow2(s as nat),
        0 <= read(d) <= reach(),
{
    let mut d: Digits = if s >= 256 {
        Digits { hi: m as i128, mid: 0, lo: 0 }
    } else if s >= 128 {
        Digits { hi: 0, mid: m as u128, lo: 0 }
    } else {
        Digits { hi: 0, mid: 0, lo: m as u128 }
    };
    let mut k: u32 = if s >= 256 {
        256
    } else if s >= 128 {
        128
    } else {
        0
    };
    proof {
        lemma_base_is_a_power();
        vstd::arithmetic::power2::lemma_pow2_adds(128, 128);
        vstd::arithmetic::power2::lemma2_to64();
        lemma_shift_reach(m as int, s as nat, s == 256);
    }
    while k < s
        invariant
            k <= s <= 256,
            m < 0x100_0000,
            s == 256 ==> m == 0x80_0000,
            read(d) == m * pow2(k as nat),
        decreases s - k,
    {
        proof {
            lemma_shift_reach(m as int, (k + 1) as nat, s == 256);
            vstd::arithmetic::power2::lemma_pow2_unfold((k + 1) as nat);
            assert(m * pow2((k + 1) as nat) == 2 * (m * pow2(k as nat))) by (nonlinear_arith)
                requires
                    pow2((k + 1) as nat) == 2 * pow2(k as nat),
            ;
        }
        d = digits_plus(d, d);
        k = k + 1;
    }
    proof {
        lemma_shift_reach(m as int, s as nat, s == 256);
    }
    d
}

/// Holds digits to the range.
fn held_digits(d: Digits) -> (w: Wide)
    requires
        -2 * farthest() <= read(d) <= 2 * farthest(),
    ensures
        w == wide(held(read(d))),
        w@ == held(read(d)),
{
    let most: Digits = Digits { hi: 0x1_0000_0000_0000_0000_0000_0000, mid: 0, lo: 0 };
    let least: Digits = Digits { hi: -0x1_0000_0000_0000_0000_0000_0000, mid: 0, lo: 0 };
    assert(read(most) == farthest());
    assert(read(least) == -farthest());
    let r: Digits = if !digits_at_most(d, most) {
        most
    } else if !digits_at_most(least, d) {
        least
    } else {
        d
    };
    proof {
        lemma_one_way(r);
    }
    Wide { digits: r }
}

/// `v` held to 62 bits on either side of zero.
pub open spec fn near(v: int) -> int {
    if v > 0x4000_0000_0000_0000 {
        0x4000_0000_0000_0000
    } else if v < -0x4000_0000_0000_0000 {
        -0x4000_0000_0000_0000
    } else {
        v
    }
}

/// `v * m / 2^s`, rounded down and held near zero.
pub fn scaled_down(v: Wide, m: i32, s: u32) -> (r: i64)
    requires
        -0x200_0000 <= m <= 0x200_0000,
    ensures
        r == near((v@ * m) / pow2(s as nat) as int),
        -0x4000_0000_0000_0000 <= r <= 0x4000_0000_0000_0000,
{
    proof {
        use_type_invariant(&v);
        lemma_product_small(v@, (if m < 0 {
            -m
        } else {
            m as int
        }));
        assert(v@ * -m == -(v@ * m)) by (nonlinear_arith);
    }
    let product: Digits = if m < 0 {
        digits_negated(digits_times(v.digits, (-m) as u32))
    } else {
        digits_times(v.digits, m as u32)
    };
    let d: Digits = digits_shifted(product, s);
    let most: Digits = Digits { hi: 0, mid: 0, lo: 0x4000_0000_0000_0000 };
    let least: Digits = digits_negated(most);
    if !digits_at_most(d, most) {
        0x4000_0000_0000_0000
    } else if !digits_at_most(least, d) {
        -0x4000_0000_0000_0000
    } else if d.hi < 0 {
        let up: Digits = digits_negated(d);
        -(up.lo as i64)
    } else {
        d.lo as i64
    }
}

/// `v * m / 2^s`, rounded up and held near zero.
pub fn scaled_up(v: Wide, m: i32, s: u32) -> (r: i64)
    requires
        -0x200_0000 <= m <= 0x200_0000,
    ensures
        r == near(-((-(v@ * m)) / pow2(s as nat) as int)),
        -0x4000_0000_0000_0000 <= r <= 0x4000_0000_0000_0000,
{
    proof {
        assert(v@ * -m == -(v@ * m)) by (nonlinear_arith);
    }
    -scaled_down(v, -m, s)
}

} // verus!
