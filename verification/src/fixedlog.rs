//! Base-two logarithm in Q16 fixed point, computed with integer arithmetic
//! only: the integer part is the position of the highest set bit, and the
//! fractional bits come from the classic squaring method, one bit per step.

use vstd::prelude::*;
use vstd::arithmetic::power2::pow2;
use vstd::arithmetic::power2::lemma_pow2_adds;
use vstd::arithmetic::power2::lemma_pow2_subtracts;
use vstd::arithmetic::power2::lemma_pow2_pos;
use vstd::arithmetic::power2::lemma_pow2_unfold;
use vstd::arithmetic::power2::lemma_pow2_strictly_increases;
use vstd::arithmetic::div_mod::lemma_fundamental_div_mod;
use vstd::arithmetic::div_mod::lemma_div_is_ordered;
use vstd::arithmetic::div_mod::lemma_multiply_divide_lt;
use vstd::arithmetic::mul::lemma_mul_inequality;

verus! {

/// One, in Q16 fixed point.
pub const ONE_Q16: u64 = 65536;

/// Floor of the base-two logarithm: the position of the highest set bit.
pub open spec fn bitlen(k: nat) -> nat
    decreases k,
{
    if k <= 1 {
        0
    } else {
        1 + bitlen(k / 2)
    }
}

/// The fractional bits produced by `r` steps of the squaring method, starting
/// from a mantissa `m` standing for the real number `m / 2^63` in `[1, 2)`.
pub open spec fn frac_steps(m: nat, r: nat) -> nat
    decreases r,
{
    if r == 0 {
        0
    } else {
        let v = (m * m) / 0x8000_0000_0000_0000;
        if v >= 0x1_0000_0000_0000_0000 {
            pow2((r - 1) as nat) + frac_steps(v / 2, (r - 1) as nat)
        } else {
            frac_steps(v, (r - 1) as nat)
        }
    }
}

/// The base-two logarithm of `k` in Q16 fixed point, rounded down bitwise.
pub open spec fn log2_q16_spec(k: nat) -> nat {
    bitlen(k) * 65536 + frac_steps(k * pow2((63 - bitlen(k)) as nat), 16)
}

/// The highest set bit brackets the value: `2^bitlen(k) <= k < 2^(bitlen(k)+1)`.
pub proof fn lemma_bitlen_bounds(k: nat)
    requires
        k >= 1,
    ensures
        pow2(bitlen(k)) <= k < pow2(bitlen(k) + 1),
    decreases k,
{
    if k == 1 {
        assert(pow2(0) == 1 && pow2(1) == 2) by {
            vstd::arithmetic::power2::lemma2_to64();
        }
    } else {
        lemma_bitlen_bounds(k / 2);
        let b = bitlen(k / 2);
        lemma_fundamental_div_mod(k as int, 2);
        assert(pow2(b + 1) == 2 * pow2(b)) by {
            lemma_pow2_unfold(b + 1);
        }
        assert(pow2(b + 2) == 2 * pow2(b + 1)) by {
            lemma_pow2_unfold(b + 2);
        }
    }
}

/// `bitlen` never decreases when the argument grows.
pub proof fn lemma_bitlen_mono(a: nat, b: nat)
    requires
        a <= b,
    ensures
        bitlen(a) <= bitlen(b),
    decreases b,
{
    if a <= 1 {
    } else {
        lemma_bitlen_mono(a / 2, b / 2);
    }
}

/// A power of two is its own highest set bit.
pub proof fn lemma_bitlen_pow2(e: nat)
    ensures
        bitlen(pow2(e)) == e,
    decreases e,
{
    if e == 0 {
        vstd::arithmetic::power2::lemma2_to64();
    } else {
        lemma_bitlen_pow2((e - 1) as nat);
        lemma_pow2_unfold(e);
        lemma_pow2_pos((e - 1) as nat);
        assert(pow2(e) / 2 == pow2((e - 1) as nat)) by {
            vstd::arithmetic::div_mod::lemma_div_multiples_vanish(pow2((e - 1) as nat) as int, 2);
        }
    }
}

/// A value below `2^n` has its highest set bit below position `n`.
pub proof fn lemma_bitlen_below(k: nat, n: nat)
    requires
        1 <= k,
        k < pow2(n),
    ensures
        bitlen(k) < n,
{
    lemma_bitlen_bounds(k);
    if bitlen(k) >= n {
        if bitlen(k) == n {
        } else {
            lemma_pow2_strictly_increases(n, bitlen(k));
        }
        assert(false);
    }
}

/// Squaring a mantissa below `2^64` and renormalising keeps it below `2^65`.
proof fn lemma_square_step_bound(m: nat)
    requires
        m < 0x1_0000_0000_0000_0000,
    ensures
        (m * m) / 0x8000_0000_0000_0000 < 0x2_0000_0000_0000_0000,
{
    lemma_mul_inequality(m as int, 0xffff_ffff_ffff_ffff, m as int);
    assert(m * m <= 0xffff_ffff_ffff_ffff * m) by {
        lemma_mul_inequality(m as int, 0xffff_ffff_ffff_ffff, m as int);
    }
    assert(0xffff_ffff_ffff_ffff * m <= 0xffff_ffff_ffff_ffff * 0xffff_ffff_ffff_ffff) by {
        lemma_mul_inequality(m as int, 0xffff_ffff_ffff_ffff, 0xffff_ffff_ffff_ffff);
    }
    lemma_multiply_divide_lt(
        (m * m) as int,
        0x2_0000_0000_0000_0000,
        0x8000_0000_0000_0000,
    );
}

/// `r` squaring steps produce fewer than `2^r` worth of fractional bits.
pub proof fn lemma_frac_bound(m: nat, r: nat)
    requires
        m < 0x1_0000_0000_0000_0000,
    ensures
        frac_steps(m, r) < pow2(r),
    decreases r,
{
    if r == 0 {
        lemma_pow2_pos(0);
    } else {
        let v = (m * m) / 0x8000_0000_0000_0000;
        lemma_square_step_bound(m);
        lemma_pow2_unfold(r);
        if v >= 0x1_0000_0000_0000_0000 {
            lemma_frac_bound(v / 2, (r - 1) as nat);
        } else {
            lemma_frac_bound(v, (r - 1) as nat);
            lemma_pow2_pos((r - 1) as nat);
        }
    }
}

/// The fractional bits are monotone in the starting mantissa.
pub proof fn lemma_frac_mono(a: nat, b: nat, r: nat)
    requires
        a <= b,
        b < 0x1_0000_0000_0000_0000,
    ensures
        frac_steps(a, r) <= frac_steps(b, r),
    decreases r,
{
    if r == 0 {
    } else {
        let va = (a * a) / 0x8000_0000_0000_0000;
        let vb = (b * b) / 0x8000_0000_0000_0000;
        assert(a * a <= b * b) by {
            lemma_mul_inequality(a as int, b as int, a as int);
            lemma_mul_inequality(a as int, b as int, b as int);
        }
        lemma_div_is_ordered((a * a) as int, (b * b) as int, 0x8000_0000_0000_0000);
        lemma_square_step_bound(a);
        lemma_square_step_bound(b);
        if va >= 0x1_0000_0000_0000_0000 {
            lemma_div_is_ordered(va as int, vb as int, 2);
            lemma_frac_mono(va / 2, vb / 2, (r - 1) as nat);
        } else if vb >= 0x1_0000_0000_0000_0000 {
            lemma_frac_bound(va, (r - 1) as nat);
        } else {
            lemma_frac_mono(va, vb, (r - 1) as nat);
        }
    }
}

/// An exact power of two has no fractional bits.
pub proof fn lemma_frac_pow2_zero(r: nat)
    ensures
        frac_steps(pow2(63), r) == 0,
    decreases r,
{
    if r == 0 {
    } else {
        lemma_pow2_adds(63, 63);
        lemma_pow2_subtracts(63, 126);
        lemma_pow2_pos(63);
        assert((pow2(63) * pow2(63)) / 0x8000_0000_0000_0000 == pow2(63)) by {
            assert(pow2(63) == 0x8000_0000_0000_0000) by {
                vstd::arithmetic::power2::lemma2_to64();
                vstd::arithmetic::power2::lemma2_to64_rest();
            }
            assert(pow2(126) / pow2(63) == pow2(63));
        }
        assert(pow2(63) < 0x1_0000_0000_0000_0000) by {
            vstd::arithmetic::power2::lemma2_to64();
            vstd::arithmetic::power2::lemma2_to64_rest();
        }
        lemma_frac_pow2_zero((r - 1) as nat);
    }
}

/// Normalising `k` by its own highest bit lands the mantissa in `[2^63, 2^64)`.
pub proof fn lemma_norm_range(k: nat)
    requires
        1 <= k,
        k < 0x1_0000_0000_0000_0000,
    ensures
        pow2(63) <= k * pow2((63 - bitlen(k)) as nat) < 0x1_0000_0000_0000_0000,
{
    let b = bitlen(k);
    lemma_bitlen_bounds(k);
    assert(b < 64) by {
        assert(pow2(64) == 0x1_0000_0000_0000_0000) by {
            vstd::arithmetic::power2::lemma2_to64();
            vstd::arithmetic::power2::lemma2_to64_rest();
        }
        lemma_bitlen_below(k, 64);
    }
    let s = (63 - b) as nat;
    lemma_pow2_pos(s);
    assert(pow2(b) * pow2(s) <= k * pow2(s)) by {
        lemma_mul_inequality(pow2(b) as int, k as int, pow2(s) as int);
    }
    lemma_pow2_adds(b, s);
    assert(k * pow2(s) < pow2(64)) by {
        assert(k + 1 <= pow2(b + 1));
        lemma_mul_inequality((k + 1) as int, pow2(b + 1) as int, pow2(s) as int);
        lemma_pow2_adds(b + 1, s);
        assert(k * pow2(s) + pow2(s) == (k + 1) * pow2(s)) by {
            vstd::arithmetic::mul::lemma_mul_is_distributive_add_other_way(
                pow2(s) as int,
                k as int,
                1,
            );
        }
    }
    assert(pow2(64) == 0x1_0000_0000_0000_0000) by {
        vstd::arithmetic::power2::lemma2_to64();
        vstd::arithmetic::power2::lemma2_to64_rest();
    }
}

/// The fixed-point logarithm is monotone.
pub proof fn lemma_log2_mono(a: nat, b: nat)
    requires
        1 <= a <= b,
        b < 0x1_0000_0000_0000_0000,
    ensures
        log2_q16_spec(a) <= log2_q16_spec(b),
{
    let ba = bitlen(a);
    let bb = bitlen(b);
    lemma_bitlen_mono(a, b);
    lemma_norm_range(a);
    lemma_norm_range(b);
    if ba == bb {
        let s = (63 - ba) as nat;
        assert(a * pow2(s) <= b * pow2(s)) by {
            lemma_mul_inequality(a as int, b as int, pow2(s) as int);
        }
        lemma_frac_mono(a * pow2(s), b * pow2(s), 16);
    } else {
        lemma_frac_bound(a * pow2((63 - ba) as nat), 16);
        assert(pow2(16) == 65536) by {
            vstd::arithmetic::power2::lemma2_to64();
        }
        assert(ba * 65536 + 65536 == (ba + 1) * 65536) by {
            vstd::arithmetic::mul::lemma_mul_is_distributive_add_other_way(65536, ba as int, 1);
        }
        assert((ba + 1) * 65536 <= bb * 65536) by {
            lemma_mul_inequality((ba + 1) as int, bb as int, 65536);
        }
    }
}

/// On an exact power of two the fixed-point logarithm is exact.
pub proof fn lemma_log2_pow2(e: nat)
    requires
        e <= 63,
    ensures
        log2_q16_spec(pow2(e)) == e * 65536,
{
    lemma_bitlen_pow2(e);
    lemma_pow2_adds(e, (63 - e) as nat);
    lemma_frac_pow2_zero(16);
}

/// The fixed-point logarithm of any 64-bit value stays below `2^22`.
pub proof fn lemma_log2_upper(k: nat)
    requires
        1 <= k,
        k < 0x1_0000_0000_0000_0000,
    ensures
        log2_q16_spec(k) < 0x40_0000,
{
    let b = bitlen(k);
    assert(b < 64) by {
        assert(pow2(64) == 0x1_0000_0000_0000_0000) by {
            vstd::arithmetic::power2::lemma2_to64();
            vstd::arithmetic::power2::lemma2_to64_rest();
        }
        lemma_bitlen_below(k, 64);
    }
    lemma_norm_range(k);
    lemma_frac_bound(k * pow2((63 - b) as nat), 16);
    assert(pow2(16) == 65536) by {
        vstd::arithmetic::power2::lemma2_to64();
    }
    assert(b * 65536 <= 63 * 65536) by {
        lemma_mul_inequality(b as int, 63, 65536);
    }
}

/// Two raised to a small exponent, as a machine integer.
#[verifier::loop_isolation(false)]
pub fn pow2u64(e: u64) -> (r: u64)
    requires
        e <= 63,
    ensures
        r == pow2(e as nat),
{
    proof {
        vstd::arithmetic::power2::lemma2_to64();
    }
    let mut r: u64 = 1;
    let mut i: u64 = 0;
    while i < e
        invariant
            i <= e <= 63,
            r == pow2(i as nat),
        decreases e - i,
    {
        proof {
            lemma_pow2_unfold((i + 1) as nat);
            if i + 1 < 64 {
                lemma_pow2_strictly_increases((i + 1) as nat, 64);
            }
            vstd::arithmetic::power2::lemma2_to64();
            vstd::arithmetic::power2::lemma2_to64_rest();
        }
        r = r * 2;
        i = i + 1;
    }
    r
}

/// The base-two logarithm of `k` in Q16 fixed point, rounded down.
#[verifier::loop_isolation(false)]
pub fn log2_q16(k: u64) -> (r: u64)
    requires
        k >= 1,
    ensures
        r == log2_q16_spec(k as nat),
        r < 0x40_0000,
{
    proof {
        assert(pow2(64) == 0x1_0000_0000_0000_0000) by {
            vstd::arithmetic::power2::lemma2_to64();
            vstd::arithmetic::power2::lemma2_to64_rest();
        }
        lemma_bitlen_below(k as nat, 64);
        lemma_log2_upper(k as nat);
    }
    let mut p: u64 = 0;
    let mut t: u64 = k;
    while t > 1
        invariant
            1 <= t <= k,
            bitlen(k as nat) == p + bitlen(t as nat),
        decreases t,
    {
        t = t / 2;
        p = p + 1;
    }
    assert(bitlen(k as nat) == p);
    proof {
        lemma_norm_range(k as nat);
    }
    let mul: u64 = pow2u64(63 - p);
    let mut m: u128 = (k as u128) * (mul as u128);
    let ghost m0: nat = m as nat;
    let mut acc: u64 = 0;
    let mut i: u64 = 0;
    proof {
        lemma_frac_bound(m0, 16);
        assert(pow2(16) == 65536) by {
            vstd::arithmetic::power2::lemma2_to64();
        }
    }
    while i < 16
        invariant
            i <= 16,
            (m as nat) < 0x1_0000_0000_0000_0000,
            frac_steps(m0, 16) == acc + frac_steps(m as nat, (16 - i) as nat),
            frac_steps(m0, 16) < 65536,
        decreases 16 - i,
    {
        proof {
            lemma_square_step_bound(m as nat);
            assert((m as nat) * (m as nat) <= 0xffff_ffff_ffff_ffff * 0xffff_ffff_ffff_ffff) by {
                lemma_mul_inequality(m as int, 0xffff_ffff_ffff_ffff, m as int);
                lemma_mul_inequality(m as int, 0xffff_ffff_ffff_ffff, 0xffff_ffff_ffff_ffff);
            }
        }
        let sq: u128 = m * m;
        let v: u128 = sq / 0x8000_0000_0000_0000;
        proof {
            lemma_frac_bound(m as nat, (16 - i) as nat);
        }
        if v >= 0x1_0000_0000_0000_0000 {
            let bit: u64 = pow2u64(15 - i);
            proof {
                lemma_pow2_strictly_increases((15 - i) as nat, 16);
            }
            acc = acc + bit;
            m = v / 2;
        } else {
            m = v;
        }
        i = i + 1;
    }
    proof {
        lemma_mul_inequality(p as int, 63, 65536);
    }
    p * 65536 + acc
}

} // verus!
