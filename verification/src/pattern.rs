//! IEEE-754 single bit patterns taken apart and put together.
//!
//! A pattern stands for `± significand * 2^binary_exponent`, unless it is not a
//! number.

use vstd::arithmetic::power2::pow2;
use vstd::prelude::*;

verus! {

/// The biased exponent field of a pattern.
pub open spec fn exponent_field(bits: u32) -> int {
    (bits as int / 0x80_0000) % 256
}

/// The fraction field of a pattern.
pub open spec fn fraction_field(bits: u32) -> int {
    bits as int % 0x80_0000
}

/// Whether the sign bit is set.
pub open spec fn is_negative(bits: u32) -> bool {
    bits >= 0x8000_0000
}

/// Whether the pattern is not a number.
pub open spec fn is_nan(bits: u32) -> bool {
    exponent_field(bits) == 255 && fraction_field(bits) != 0
}

/// The integer significand, the implicit leading bit included.
pub open spec fn significand(bits: u32) -> nat {
    if exponent_field(bits) == 0 {
        fraction_field(bits) as nat
    } else {
        (fraction_field(bits) + 0x80_0000) as nat
    }
}

/// The power of two the significand is scaled by.
pub open spec fn binary_exponent(bits: u32) -> int {
    if exponent_field(bits) == 0 {
        -149
    } else {
        exponent_field(bits) - 150
    }
}

/// `m * 2^e`, rounded down.
pub open spec fn shift_floor(m: nat, e: int) -> int {
    if e >= 0 {
        (m * pow2(e as nat)) as int
    } else {
        m as int / pow2((-e) as nat) as int
    }
}

/// Whether the value of `bits` is greater than zero.
pub open spec fn positive(bits: u32) -> bool {
    !is_negative(bits) && !is_nan(bits) && bits != 0
}

/// Whether the value of `bits` is zero or less.
pub open spec fn at_most_zero(bits: u32) -> bool {
    !is_nan(bits) && (is_negative(bits) || bits == 0)
}

/// Decides [`at_most_zero`].
pub fn is_at_most_zero(bits: u32) -> (yes: bool)
    ensures
        yes == at_most_zero(bits),
{
    !nan(bits) && (bits >= 0x8000_0000 || bits == 0)
}

/// Decides [`positive`].
pub fn is_positive(bits: u32) -> (yes: bool)
    ensures
        yes == positive(bits),
{
    let field: u32 = (bits / 0x80_0000) % 256;
    let fraction: u32 = bits % 0x80_0000;
    bits < 0x8000_0000 && bits != 0 && !(field == 255 && fraction != 0)
}

/// `2^k` for a `k` below 64.
pub fn power(k: u32) -> (p: u64)
    requires
        k < 64,
    ensures
        p == pow2(k as nat),
        p > 0,
{
    proof {
        vstd::bits::lemma_u64_pow2_no_overflow(k as nat);
        vstd::bits::lemma_u64_shl_is_mul(1u64, k as u64);
        vstd::arithmetic::power2::lemma_pow2_pos(k as nat);
    }
    1u64 << (k as u64)
}

/// Decides whether a pattern is not a number.
pub fn nan(bits: u32) -> (yes: bool)
    ensures
        yes == is_nan(bits),
{
    let field: u32 = (bits / 0x80_0000) % 256;
    let fraction: u32 = bits % 0x80_0000;
    field == 255 && fraction != 0
}

/// `n / p` rounded to the nearest integer, halfway cases to the even one.
pub open spec fn round_even(n: int, p: int) -> int {
    if 2 * (n % p) > p || (2 * (n % p) == p && (n / p) % 2 == 1) {
        n / p + 1
    } else {
        n / p
    }
}

/// Whether `bits` is the real number nearest to `n`, which has its leading bit
/// at position `k`.
pub open spec fn stands_for(bits: u32, n: int, k: int) -> bool {
    &&& pow2(k as nat) <= n < pow2((k + 1) as nat)
    &&& !is_negative(bits)
    &&& if k <= 23 {
        &&& significand(bits) == n * pow2((23 - k) as nat)
        &&& binary_exponent(bits) == k - 23
    } else {
        &&& binary_exponent(bits) >= 1
        &&& significand(bits) * pow2(binary_exponent(bits) as nat) == round_even(
            n,
            pow2((k - 23) as nat) as int,
        ) * pow2((k - 23) as nat)
    }
}

/// A pattern put together from an exponent field and a fraction comes apart
/// into them.
proof fn lemma_pattern(field: int, fraction: int, bits: u32)
    requires
        0 < field < 256,
        0 <= fraction < 0x80_0000,
        bits == field * 0x80_0000 + fraction,
    ensures
        exponent_field(bits) == field,
        fraction_field(bits) == fraction,
{
    assert(bits as int / 0x80_0000 == field);
    assert(bits as int % 0x80_0000 == fraction);
}

/// The real number nearest to `n`.
pub fn real_of(n: u32) -> (bits: u32)
    ensures
        n == 0 ==> bits == 0,
        n > 0 ==> exists|k: int| 0 <= k < 32 && #[trigger] stands_for(bits, n as int, k),
{
    if n == 0 {
        return 0;
    }
    let mut k: u32 = 31;
    proof {
        vstd::arithmetic::power2::lemma2_to64();
    }
    while power(k) > n as u64
        invariant
            0 < n,
            k < 32,
            n < pow2((k + 1) as nat),
        decreases k,
    {
        proof {
            vstd::arithmetic::power2::lemma2_to64();
            assert(k > 0);
        }
        k = k - 1;
    }
    if k <= 23 {
        let p: u32 = power(23 - k) as u32;
        proof {
            lemma_small_power((23 - k) as nat);
            vstd::arithmetic::power2::lemma_pow2_adds(k as nat, (23 - k) as nat);
            vstd::arithmetic::power2::lemma_pow2_adds((k + 1) as nat, (23 - k) as nat);
            vstd::arithmetic::power2::lemma2_to64();
            assert(0x80_0000 <= n * p < 0x100_0000) by (nonlinear_arith)
                requires
                    pow2(k as nat) <= n < pow2((k + 1) as nat),
                    p as nat == pow2((23 - k) as nat),
                    p > 0,
                    pow2(k as nat) * p == 0x80_0000,
                    pow2((k + 1) as nat) * p == 0x100_0000,
            ;
        }
        let m: u32 = n * p;
        let bits: u32 = (127 + k) * 0x80_0000 + (m - 0x80_0000);
        proof {
            lemma_pattern(127 + k, m - 0x80_0000, bits);
            assert(stands_for(bits, n as int, k as int));
        }
        bits
    } else {
        let p: u32 = power(k - 23) as u32;
        proof {
            lemma_small_power((k - 23) as nat);
            vstd::arithmetic::power2::lemma_pow2_adds(23, (k - 23) as nat);
            vstd::arithmetic::power2::lemma_pow2_adds(24, (k - 23) as nat);
            vstd::arithmetic::power2::lemma2_to64();
        }
        let q: u32 = n / p;
        let r: u32 = n % p;
        proof {
            assert(0x80_0000 <= (n as int) / (p as int) && (n as int) / (p as int) < 0x100_0000) by (nonlinear_arith)
                requires
                    0x80_0000 * p <= n < 0x100_0000 * p,
                    p > 0,
            ;
        }
        let up: bool = 2 * r as u64 > p as u64 || (2 * r as u64 == p as u64 && q % 2 == 1);
        let q2: u32 = if up { q + 1 } else { q };
        let bits: u32 = (127 + k) * 0x80_0000 + (q2 - 0x80_0000);
        proof {
            assert(q2 == round_even(n as int, p as int));
            if q2 == 0x100_0000 {
                lemma_pattern(128 + k, 0, bits);
                vstd::arithmetic::power2::lemma_pow2_unfold((k - 22) as nat);
                assert(0x80_0000 * pow2((k - 22) as nat) == 0x100_0000 * pow2((k - 23) as nat));
            } else {
                lemma_pattern(127 + k, q2 - 0x80_0000, bits);
            }
            assert(stands_for(bits, n as int, k as int));
        }
        bits
    }
}

/// Powers up to `2^23` stay below `2^24`.
proof fn lemma_small_power(k: nat)
    requires
        k <= 23,
    ensures
        1 <= pow2(k) <= 0x80_0000,
{
    vstd::arithmetic::power2::lemma2_to64();
    vstd::arithmetic::power2::lemma_pow2_pos(k);
    if k < 23 {
        vstd::arithmetic::power2::lemma_pow2_strictly_increases(k, 23);
    }
}

/// The bit pattern of one.
pub const UNIT: u32 = 0x3f80_0000;

/// `p`, between 2^30 and 2^32, rounded to 24 significant bits.
pub open spec fn single_precision(p: int) -> int {
    if p < 0x8000_0000 {
        round_even(p, 128) * 128
    } else {
        round_even(p, 256) * 256
    }
}

/// A channel between zero and one as a byte: the value held to that range,
/// multiplied by 255 in single precision, and rounded down. What is not a
/// number is zero.
pub open spec fn channel_byte(bits: u32) -> int {
    if is_nan(bits) || is_negative(bits) || exponent_field(bits) == 0 {
        0
    } else if bits >= UNIT {
        255
    } else {
        shift_floor(single_precision(255 * significand(bits) as int) as nat, binary_exponent(bits))
    }
}

/// Rounding to a step moves a value by half of it at most.
pub proof fn lemma_round_near(p: int, step: int)
    requires
        0 <= p,
        0 < step,
        step % 2 == 0,
    ensures
        p - step / 2 <= round_even(p, step) * step <= p + step / 2,
        round_even(p, step) >= 0,
{
    vstd::arithmetic::div_mod::lemma_fundamental_div_mod(p, step);
    let q = p / step;
    let r = p % step;
    assert(q >= 0) by (nonlinear_arith)
        requires
            p == step * q + r,
            0 <= p,
            0 <= r < step,
            step > 0,
    ;
    assert(q * step == step * q) by (nonlinear_arith);
    assert((q + 1) * step == step * q + step) by (nonlinear_arith);
}

/// Converts a colour channel to a byte.
pub fn unit_byte(bits: u32) -> (b: u8)
    ensures
        b == channel_byte(bits),
{
    let field: u32 = (bits / 0x80_0000) % 256;
    if nan(bits) || bits >= 0x8000_0000 || field == 0 {
        return 0;
    }
    if bits >= UNIT {
        return 255;
    }
    let m: u32 = bits % 0x80_0000 + 0x80_0000;
    let p: u64 = 255 * m as u64;
    let step: u64 = if p < 0x8000_0000 {
        128
    } else {
        256
    };
    let q: u64 = p / step;
    let r: u64 = p % step;
    let rounded: u64 = if 2 * r > step || (2 * r == step && q % 2 == 1) {
        q + 1
    } else {
        q
    };
    proof {
        assert(m == significand(bits));
        assert(rounded == round_even(p as int, step as int));
        lemma_round_near(p as int, step as int);
        assert(field < 127);
    }
    let product: u64 = rounded * step;
    assert(product < 255 * 0x100_0000);
    let down: u32 = 150 - field;
    if down >= 64 {
        proof {
            vstd::arithmetic::power2::lemma2_to64_rest();
            if down > 64 {
                vstd::arithmetic::power2::lemma_pow2_strictly_increases(64, down as nat);
            }
            vstd::arithmetic::div_mod::lemma_basic_div(product as int, pow2(down as nat) as int);
        }
        0
    } else {
        let divisor: u64 = power(down);
        proof {
            vstd::arithmetic::power2::lemma2_to64();
            if down > 24 {
                vstd::arithmetic::power2::lemma_pow2_strictly_increases(24, down as nat);
            }
            assert(product as int / divisor as int <= 255) by (nonlinear_arith)
                requires
                    0 <= product < 255 * 0x100_0000,
                    divisor >= 0x100_0000,
            ;
        }
        (product / divisor) as u8
    }
}

/// A channel's byte is a byte.
pub proof fn lemma_channel_fits(bits: u32)
    ensures
        0 <= channel_byte(bits) <= 255,
{
    if !is_nan(bits) && !is_negative(bits) && exponent_field(bits) != 0 && bits < UNIT {
        law_channel_becomes_its_byte(bits);
    }
}

/// Whether `r` is the nearest to `p`, between 2^30 and 2^32, that has twenty-four
/// significant bits, the even one of two.
pub open spec fn nearest_product(p: int, r: int) -> bool {
    let step: int = if p < 0x8000_0000 {
        128
    } else {
        256
    };
    &&& r % step == 0
    &&& -step <= 2 * (r - p) <= step
    &&& 2 * (r - p) == step || 2 * (p - r) == step ==> (r / step) % 2 == 0
}

/// A channel above zero and below one becomes the whole part of its product with 255,
/// the product taken to twenty-four significant bits, halfway cases to the even
/// neighbour. One and everything above becomes 255; everything else, and what is
/// too small to have all its bits, becomes zero.
pub proof fn law_channel_becomes_its_byte(bits: u32)
    ensures
        is_nan(bits) || bits >= 0x8000_0000 || bits < 0x80_0000 ==> channel_byte(bits) == 0,
        UNIT <= bits <= 0x7f80_0000 ==> channel_byte(bits) == 255,
        0x80_0000 <= bits < UNIT ==> exists|r: int|
            {
                let whole = pow2((150 - bits / 0x80_0000) as nat);
                &&& #[trigger] nearest_product(255 * (0x80_0000 + bits % 0x80_0000), r)
                &&& channel_byte(bits) * whole <= r < (channel_byte(bits) + 1) * whole
                &&& 0 <= channel_byte(bits) <= 255
            },
{
    if 0x80_0000 <= bits < UNIT {
        let field = bits as int / 0x80_0000;
        let p = 255 * (0x80_0000 + bits % 0x80_0000);
        let step: int = if p < 0x8000_0000 {
            128
        } else {
            256
        };
        let q = round_even(p, step);
        let r = q * step;
        let down = (150 - field) as nat;
        let whole = pow2(down) as int;
        assert(exponent_field(bits) == field && significand(bits) == 0x80_0000 + bits % 0x80_0000);
        assert(r == single_precision(p));
        lemma_round_near(p, step);
        vstd::arithmetic::power2::lemma_pow2_pos(down);
        vstd::arithmetic::power2::lemma2_to64();
        if down > 24 {
            vstd::arithmetic::power2::lemma_pow2_strictly_increases(24, down);
        }
        assert(channel_byte(bits) == r / whole);
        vstd::arithmetic::div_mod::lemma_fundamental_div_mod(r, whole);
        let b = r / whole;
        assert(b * whole <= r < (b + 1) * whole) by (nonlinear_arith)
            requires
                r == whole * b + r % whole,
                0 <= r % whole < whole,
        ;
        assert(0 <= b <= 255) by (nonlinear_arith)
            requires
                b * whole <= r < (b + 1) * whole,
                0 <= r <= 255 * 0x100_0000 + 128,
                whole >= 0x100_0000,
        ;
        assert(r % step == 0);
        assert(r / step == q);
        assert(2 * (r - p) == step || 2 * (p - r) == step ==> q % 2 == 0) by {
            assert(p == step * (p / step) + p % step);
        }
        assert(nearest_product(p, r));
    }
}

} // verus!
