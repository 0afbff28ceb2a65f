//! Conversion of a tick count to the bit pattern of an IEEE-754 double.
//!
//! Event records store their timestamp as a 64-bit double equal to the tick
//! value. This module defines that conversion — round-to-nearest, ties to
//! even, the rounding a hardware cast performs — as a spec function over the
//! integers, and proves an executable implementation against it, so no
//! floating-point operation is needed to lay down the bytes.

use vstd::prelude::*;
use vstd::arithmetic::power2::{
    pow2, lemma2_to64, lemma2_to64_rest, lemma_pow2_adds, lemma_pow2_pos,
    lemma_pow2_strictly_increases,
};
use vstd::arithmetic::div_mod::{
    lemma_fundamental_div_mod, lemma_div_is_ordered, lemma_div_multiples_vanish,
    lemma_multiply_divide_lt, lemma_mod_division_less_than_divisor,
};
use vstd::arithmetic::mul::{
    lemma_mul_inequality, lemma_mul_is_commutative, lemma_mul_is_distributive_add_other_way,
    lemma_mul_is_distributive_sub,
};
use vstd::bits::{lemma_u64_pow2_no_overflow, lemma_u64_shl_is_mul};

verus! {

/// Position of the most significant set bit of `t` (0 for `t < 2`).
pub open spec fn spec_msb(t: u64) -> nat
    decreases t,
{
    if t < 2 {
        0
    } else {
        (1 + spec_msb(t / 2)) as nat
    }
}

/// Round-to-nearest, ties to even: `q` is the truncated quotient, `r` the
/// discarded remainder, `half` half the divisor.
pub open spec fn spec_round_half_even(q: nat, r: nat, half: nat) -> nat {
    if r > half || (r == half && q % 2 == 1) {
        q + 1
    } else {
        q
    }
}

/// The IEEE-754 binary64 bit pattern of the double nearest to `t`
/// (ties to even), as a 64-bit integer.
pub open spec fn spec_double_bits(t: u64) -> u64 {
    if t == 0 {
        0u64
    } else {
        let k = spec_msb(t);
        if k <= 52 {
            ((k + 1023) * pow2(52) + (t * pow2((52 - k) as nat) - pow2(52))) as u64
        } else {
            let d = (k - 52) as nat;
            let q = t as nat / pow2(d);
            let r = t as nat % pow2(d);
            let q2 = spec_round_half_even(q, r, pow2((d - 1) as nat));
            ((k + 1023) * pow2(52) + (q2 - pow2(52))) as u64
        }
    }
}

/// The most significant bit position brackets its argument between two
/// powers of two, and fits in six bits.
pub proof fn lemma_msb_bounds(t: u64)
    requires
        t >= 1,
    ensures
        pow2(spec_msb(t)) <= t < pow2(spec_msb(t) + 1),
        spec_msb(t) <= 63,
    decreases t,
{
    lemma2_to64();
    if t < 2 {
        assert(pow2(0) == 1 && pow2(1) == 2);
    } else {
        lemma_msb_bounds(t / 2);
        let m = spec_msb(t / 2);
        lemma_pow2_adds(m, 1);
        lemma_pow2_adds(m + 1, 1);
        lemma_fundamental_div_mod(t as int, 2);
        lemma_mod_division_less_than_divisor(t as int, 2);
        assert(t >= 2 * pow2(m));
        assert(t <= 2 * (t as int / 2) + 1);
        assert(t < pow2(m + 2));
        if spec_msb(t) > 63 {
            lemma2_to64_rest();
            if spec_msb(t) > 64 {
                lemma_pow2_strictly_increases(64, spec_msb(t));
            }
            assert(pow2(spec_msb(t)) >= pow2(64));
            assert(false);
        }
    }
}

/// The most significant bit position never decreases with its argument.
proof fn lemma_msb_monotone(a: u64, b: u64)
    requires
        1 <= a <= b,
    ensures
        spec_msb(a) <= spec_msb(b),
{
    lemma_msb_bounds(a);
    lemma_msb_bounds(b);
    if spec_msb(a) > spec_msb(b) {
        lemma_pow2_strictly_increases(spec_msb(b) + 1, spec_msb(a));
        assert(false);
    }
}

/// The untruncated integer value of the conversion, for a nonzero tick.
pub open spec fn spec_bits_val(t: u64) -> int
    recommends
        t >= 1,
{
    let k = spec_msb(t);
    if k <= 52 {
        (k + 1023) * pow2(52) + (t * pow2((52 - k) as nat) - pow2(52))
    } else {
        let d = (k - 52) as nat;
        let q = t as nat / pow2(d);
        let r = t as nat % pow2(d);
        let q2 = spec_round_half_even(q, r, pow2((d - 1) as nat));
        (k + 1023) * pow2(52) + (q2 - pow2(52))
    }
}

/// For a nonzero tick the conversion equals its untruncated value, which
/// sits inside the band its exponent dictates.
proof fn lemma_bits_value(t: u64)
    requires
        t >= 1,
    ensures
        spec_double_bits(t) == spec_bits_val(t),
        (spec_msb(t) + 1023) * pow2(52) <= spec_bits_val(t) <= (spec_msb(t) + 1024) * pow2(52),
{
    lemma_msb_bounds(t);
    lemma2_to64();
    lemma2_to64_rest();
    let k = spec_msb(t);
    if k <= 52 {
        // 2^52 <= t * 2^(52-k) <= 2^53 - 2^(52-k), so the mantissa part is
        // at least zero and at most 2^52.
        lemma_pow2_adds(k, (52 - k) as nat);
        lemma_mul_inequality(pow2(k) as int, t as int, pow2((52 - k) as nat) as int);
        lemma_mul_is_commutative(pow2(k) as int, pow2((52 - k) as nat) as int);
        lemma_mul_is_commutative(t as int, pow2((52 - k) as nat) as int);
        lemma_pow2_adds((k + 1) as nat, (52 - k) as nat);
        lemma_mul_inequality(t as int, pow2((k + 1) as nat) as int - 1, pow2((52 - k) as nat) as int);
        lemma_mul_is_distributive_sub(
            pow2((52 - k) as nat) as int,
            pow2((k + 1) as nat) as int,
            1,
        );
        lemma_mul_is_commutative(pow2((k + 1) as nat) as int - 1, pow2((52 - k) as nat) as int);
        lemma_mul_is_commutative(pow2((52 - k) as nat) as int, pow2((k + 1) as nat) as int);
        assert(pow2(52) <= t * pow2((52 - k) as nat) <= pow2(53) - pow2((52 - k) as nat));
        lemma_mul_inequality((k + 1023) as int, 1075, pow2(52) as int);
        lemma_mul_is_distributive_add_other_way(pow2(52) as int, (k + 1023) as int, 1);
    } else {
        // 2^52 <= q <= q2 <= 2^53, so again the mantissa part is at least
        // zero and at most 2^52.
        let d = (k - 52) as nat;
        let q = t as nat / pow2(d);
        lemma_pow2_pos(d);
        lemma_pow2_adds(d, 52);
        lemma_div_multiples_vanish(pow2(52) as int, pow2(d) as int);
        lemma_div_is_ordered((pow2(d) * pow2(52)) as int, t as int, pow2(d) as int);
        assert(q >= pow2(52));
        lemma_pow2_adds(d, 53);
        lemma_multiply_divide_lt(t as int, pow2(d) as int, pow2(53) as int);
        assert(q < pow2(53));
        lemma_mul_inequality((k + 1023) as int, 1086, pow2(52) as int);
        lemma_mul_is_distributive_add_other_way(pow2(52) as int, (k + 1023) as int, 1);
    }
}

/// Conversion to double bits never decreases: later ticks never yield
/// smaller stored bit patterns. (For doubles that are not negative, the
/// order of the bit patterns is the order of the values they denote.)
pub proof fn lemma_double_bits_monotone(a: u64, b: u64)
    requires
        a <= b,
    ensures
        spec_double_bits(a) <= spec_double_bits(b),
{
    if a == 0 || a == b {
        return ;
    }
    lemma_msb_bounds(a);
    lemma_msb_bounds(b);
    lemma_msb_monotone(a, b);
    lemma_bits_value(a);
    lemma_bits_value(b);
    lemma2_to64();
    lemma2_to64_rest();
    let j = spec_msb(a);
    let k = spec_msb(b);
    if j < k {
        // Bands are ordered: the top of band j is the bottom of band j+1.
        lemma_mul_inequality((j + 1024) as int, (k + 1023) as int, pow2(52) as int);
    } else {
        // Same band.
        if k <= 52 {
            lemma_mul_inequality(a as int, b as int, pow2((52 - k) as nat) as int);
            lemma_mul_is_commutative(a as int, pow2((52 - k) as nat) as int);
            lemma_mul_is_commutative(b as int, pow2((52 - k) as nat) as int);
        } else {
            let d = (k - 52) as nat;
            let p = pow2(d) as int;
            lemma_pow2_pos(d);
            let qa = a as nat / pow2(d);
            let qb = b as nat / pow2(d);
            let ra = a as nat % pow2(d);
            let rb = b as nat % pow2(d);
            lemma_div_is_ordered(a as int, b as int, p);
            assert(qa <= qb);
            let half = pow2((d - 1) as nat);
            let q2a = spec_round_half_even(qa, ra, half);
            let q2b = spec_round_half_even(qb, rb, half);
            if qa == qb {
                lemma_fundamental_div_mod(a as int, p);
                lemma_fundamental_div_mod(b as int, p);
                assert(ra <= rb);
                assert(q2a <= q2b);
            } else {
                assert(q2a <= qa + 1 <= qb <= q2b);
            }
        }
    }
}

/// Two raised to `e`, computed by a shift.
pub fn pow2_u64(e: u64) -> (p: u64)
    requires
        e < 64,
    ensures
        p as nat == pow2(e as nat),
        p >= 1,
{
    proof {
        lemma_u64_pow2_no_overflow(e as nat);
        lemma_u64_shl_is_mul(1u64, e);
        lemma_pow2_pos(e as nat);
    }
    1u64 << e
}

/// Position of the most significant set bit of `t`.
pub fn msb_index(t: u64) -> (k: u64)
    requires
        t >= 1,
    ensures
        k as nat == spec_msb(t),
        k <= 63,
{
    proof {
        lemma_msb_bounds(t);
    }
    let mut x: u64 = t;
    let mut k: u64 = 0;
    while x >= 2
        invariant
            1 <= x <= t,
            spec_msb(t) == k + spec_msb(x),
            k <= 63,
        decreases x,
    {
        proof {
            lemma_msb_bounds(t);
        }
        x = x / 2;
        k = k + 1;
    }
    k
}

/// The bit pattern of the IEEE-754 double nearest to `t`, ties to even —
/// what casting `t` to a double and taking its bits yields.
pub fn u64_to_double_bits(t: u64) -> (b: u64)
    ensures
        b == spec_double_bits(t),
{
    if t == 0 {
        return 0u64;
    }
    let k: u64 = msb_index(t);
    proof {
        lemma_msb_bounds(t);
        lemma2_to64();
        lemma2_to64_rest();
    }
    let p52: u64 = pow2_u64(52);
    if k <= 52 {
        let pe: u64 = pow2_u64(52 - k);
        proof {
            lemma_pow2_adds(k as nat, (52 - k) as nat);
            lemma_pow2_adds((k + 1) as nat, (52 - k) as nat);
            // t * pe stays under 2^53: t <= 2^(k+1) - 1, so t * 2^(52-k) <= 2^53 - pe.
            lemma_mul_inequality(t as int, pow2((k + 1) as nat) as int - 1, pe as int);
            lemma_mul_is_distributive_sub(pe as int, pow2((k + 1) as nat) as int, 1);
            lemma_mul_is_commutative(pe as int, pow2((k + 1) as nat) as int);
            lemma_mul_is_commutative(t as int, pe as int);
            lemma_mul_is_commutative(pow2((k + 1) as nat) as int - 1, pe as int);
            // t * pe reaches 2^52: t >= 2^k, so t * 2^(52-k) >= 2^52.
            lemma_mul_inequality(pow2(k as nat) as int, t as int, pe as int);
            lemma_mul_is_commutative(pow2(k as nat) as int, pe as int);
            assert(pow2(53) == 2 * pow2(52));
            assert(t * pe <= pow2(53) - pe);
            assert(t * pe >= pow2(52));
            // The exponent-and-mantissa sum stays under 2^64.
            lemma_mul_inequality((k + 1023) as int, 1075, p52 as int);
        }
        let shifted: u64 = t * pe;
        let mant: u64 = shifted - p52;
        let bits: u64 = (k + 1023) * p52 + mant;
        bits
    } else {
        let d: u64 = k - 52;
        let p: u64 = pow2_u64(d);
        let half: u64 = pow2_u64(d - 1);
        let q: u64 = t / p;
        let r: u64 = t % p;
        proof {
            // q stays under 2^53: t < 2^(k+1) == 2^d * 2^53.
            lemma_pow2_adds(d as nat, 53);
            lemma_multiply_divide_lt(t as int, p as int, pow2(53) as int);
            // q reaches 2^52: t >= 2^k == 2^d * 2^52.
            lemma_pow2_adds(d as nat, 52);
            lemma_div_multiples_vanish(pow2(52) as int, p as int);
            lemma_div_is_ordered((p as int) * (pow2(52) as int), t as int, p as int);
            assert(pow2(53) == 2 * pow2(52));
            // The exponent-and-mantissa sum stays under 2^64.
            lemma_mul_inequality((k + 1023) as int, 1086, p52 as int);
        }
        let q2: u64 = if r > half || (r == half && q % 2 == 1) {
            q + 1
        } else {
            q
        };
        let bits: u64 = (k + 1023) * p52 + (q2 - p52);
        bits
    }
}

} // verus!
