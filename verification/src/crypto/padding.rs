//! PADMÉ (Padding Arbitrary Data with Maximal Efficiency) length computation.
//! Based on the PURBs (Padded Uniform Random Blobs) padding scheme, which leaks
//! only O(log log L) bits of a payload length L.
use vstd::prelude::*;
use vstd::std_specs::bits::u64_leading_zeros;

verus! {

/// floor(log2(n)) for n >= 1, and 0 for n == 0.
pub open spec fn log2(n: nat) -> nat
    decreases n,
{
    if n <= 1 {
        0
    } else {
        1 + log2(n / 2)
    }
}

/// 2 to the power `k`.
pub open spec fn pow2(k: nat) -> nat
    decreases k,
{
    if k == 0 {
        1
    } else {
        2 * pow2((k - 1) as nat)
    }
}

/// The smallest multiple of `step` that is at least `len` (for `step > 0`).
pub open spec fn round_up(len: nat, step: nat) -> nat {
    if len % step == 0 {
        len
    } else {
        (len / step + 1) * step
    }
}

/// The step of the PADMÉ grid for a length `len >= 1`: with `e = floor(log2(len))`
/// and `s = floor(log2(e + 1))`, the step is `2^(e - s)`.
pub open spec fn padme_step(len: nat) -> nat {
    let e = log2(len);
    let s = log2(e + 1);
    pow2((e - s) as nat)
}

/// The PADMÉ length of `len`: `len` rounded up to a multiple of its step.
pub open spec fn padme_spec(len: nat) -> nat {
    if len == 0 {
        0
    } else {
        round_up(len, padme_step(len))
    }
}

/// The operational bucket of `len`: 256, 512, 1024, 2048 or 4096 for lengths up to
/// 4096, the PADMÉ length above that.
pub open spec fn bucket_spec(len: nat) -> nat {
    if len <= 256 {
        256
    } else if len <= 512 {
        512
    } else if len <= 1024 {
        1024
    } else if len <= 2048 {
        2048
    } else if len <= 4096 {
        4096
    } else {
        padme_spec(len)
    }
}

proof fn lemma_pow2_positive(k: nat)
    ensures
        pow2(k) >= 1,
    decreases k,
{
    if k > 0 {
        lemma_pow2_positive((k - 1) as nat);
    }
}

proof fn lemma_pow2_log2_bounds(n: nat)
    requires
        n >= 1,
    ensures
        pow2(log2(n)) <= n < 2 * pow2(log2(n)),
    decreases n,
{
    if n > 1 {
        lemma_pow2_log2_bounds(n / 2);
    }
}

proof fn lemma_log2_monotone(a: nat, b: nat)
    requires
        a <= b,
    ensures
        log2(a) <= log2(b),
    decreases b,
{
    if a > 1 {
        lemma_log2_monotone(a / 2, b / 2);
    }
}

proof fn lemma_leading_zeros_log2(i: u64)
    requires
        i >= 1,
    ensures
        u64_leading_zeros(i) == 63 - log2(i as nat),
    decreases i,
{
    reveal(u64_leading_zeros);
    if i > 1 {
        lemma_leading_zeros_log2(i / 2);
    } else {
        assert(u64_leading_zeros(0) == 64);
    }
}

proof fn lemma_shift_is_pow2(k: u32)
    requires
        k < 64,
    ensures
        (1u64 << k) as nat == pow2(k as nat),
    decreases k,
{
    if k == 0 {
        assert(1u64 << 0u32 == 1u64) by (bit_vector);
    } else {
        lemma_shift_is_pow2((k - 1) as u32);
        let km1: u32 = (k - 1) as u32;
        assert(km1 < 63 ==> (1u64 << (km1 + 1) as u32) == 2 * (1u64 << km1)) by (bit_vector);
    }
}

/// The facts about `round_up` that the callers use.
proof fn lemma_round_up(len: nat, step: nat)
    requires
        step >= 1,
    ensures
        len <= round_up(len, step),
        round_up(len, step) < len + step,
        round_up(len, step) % step == 0,
{
    vstd::arithmetic::div_mod::lemma_fundamental_div_mod(len as int, step as int);
    if len % step != 0 {
        vstd::arithmetic::mul::lemma_mul_is_distributive_add_other_way(
            step as int,
            (len / step) as int,
            1,
        );
        vstd::arithmetic::div_mod::lemma_mod_multiples_basic((len / step + 1) as int, step as int);
    }
}

/// Rounds a length up to its PADMÉ length.
///
/// For `len >= 1`, with `e = floor(log2(len))` and `s = floor(log2(e + 1))`, the
/// result is `len` rounded up to a multiple of `2^(e - s)`; `padme_len(0) == 0`.
/// The result is never smaller than `len` and exceeds it by less than one step.
pub fn padme_len(len: usize) -> (r: usize)
    requires
        padme_spec(len as nat) <= usize::MAX,
    ensures
        r == padme_spec(len as nat),
        len <= r,
        len > 0 ==> (r as nat) % padme_step(len as nat) == 0 && r < len + padme_step(len as nat),
{
    if len == 0 {
        return 0;
    }
    proof {
        lemma_leading_zeros_log2(len as u64);
        lemma_pow2_log2_bounds(len as nat);
    }
    // e = floor(log2(len))
    let e: u32 = 63 - (len as u64).leading_zeros();
    assert(e as nat == log2(len as nat));
    assert(e < 64);
    // s = floor(log2(e + 1))
    proof {
        lemma_leading_zeros_log2((e + 1) as u64);
        lemma_log2_monotone((e + 1) as nat, 64);
        reveal_with_fuel(log2, 8);
        lemma_pow2_log2_bounds((e + 1) as nat);
    }
    let s: u32 = 63 - ((e + 1) as u64).leading_zeros();
    assert(s as nat == log2((e + 1) as nat));
    assert(s <= e);
    proof {
        lemma_shift_is_pow2((e - s) as u32);
        lemma_pow2_positive((e - s) as nat);
    }
    let step64: u64 = 1u64 << (e - s);
    let step: usize = step64 as usize;
    proof {
        lemma_pow2_log2_bounds(len as nat);
        // the step never exceeds the length, so it fits in a usize
        lemma_pow2_le((e - s) as nat, e as nat);
    }
    assert(step as nat == padme_step(len as nat));
    proof {
        lemma_round_up(len as nat, step as nat);
    }
    let q = len / step;
    if len % step == 0 {
        len
    } else {
        assert((q as nat + 1) * (step as nat) == round_up(len as nat, step as nat));
        (q + 1) * step
    }
}

proof fn lemma_pow2_le(a: nat, b: nat)
    requires
        a <= b,
    ensures
        pow2(a) <= pow2(b),
    decreases b,
{
    if a < b {
        lemma_pow2_le(a, (b - 1) as nat);
        lemma_pow2_positive((b - 1) as nat);
    }
}

/// `2^(a + b) == 2^a * 2^b`.
proof fn lemma_pow2_add(a: nat, b: nat)
    ensures
        pow2(a + b) == pow2(a) * pow2(b),
    decreases a,
{
    if a > 0 {
        let am1 = (a - 1) as nat;
        lemma_pow2_add(am1, b);
        assert(a + b == (am1 + b) + 1);
        assert(pow2(a + b) == 2 * pow2(am1 + b));
        assert(pow2(a) == 2 * pow2(am1));
        let x = pow2(am1);
        let y = pow2(b);
        assert(2 * (x * y) == (2 * x) * y) by (nonlinear_arith);
        assert(pow2(a + b) == pow2(a) * pow2(b));
    } else {
        assert(pow2(0) == 1);
        assert(a + b == b);
    }
}

/// A smaller power of two divides a larger one.
proof fn lemma_pow2_divides(a: nat, b: nat)
    requires
        a <= b,
    ensures
        pow2(b) % pow2(a) == 0,
{
    lemma_pow2_add(a, (b - a) as nat);
    lemma_pow2_positive(a);
    vstd::arithmetic::div_mod::lemma_mod_multiples_basic(pow2((b - a) as nat) as int, pow2(a) as int);
    vstd::arithmetic::mul::lemma_mul_is_commutative(pow2(a) as int, pow2((b - a) as nat) as int);
}

/// `2^k > k`.
proof fn lemma_pow2_exceeds(k: nat)
    ensures
        pow2(k) > k,
    decreases k,
{
    if k > 0 {
        lemma_pow2_exceeds((k - 1) as nat);
        lemma_pow2_positive((k - 1) as nat);
    }
}

/// `log2(n)` is the exponent of the power of two at or just below `n`.
proof fn lemma_log2_unique(n: nat, k: nat)
    requires
        pow2(k) <= n < pow2(k + 1),
    ensures
        log2(n) == k,
    decreases k,
{
    if k > 0 {
        lemma_pow2_positive((k - 1) as nat);
        assert(pow2(k) == 2 * pow2((k - 1) as nat));
        assert(pow2(k + 1) == 2 * pow2(k));
        lemma_log2_unique(n / 2, (k - 1) as nat);
    } else {
        assert(pow2(1) == 2);
    }
}

/// Rounding up never passes a multiple of the step that is at least the length.
proof fn lemma_round_up_below(a: nat, step: nat, m: nat)
    requires
        step >= 1,
        a <= m,
        m % step == 0,
    ensures
        round_up(a, step) <= m,
{
    if a % step != 0 {
        let k = m / step;
        let q = a / step;
        vstd::arithmetic::div_mod::lemma_fundamental_div_mod(m as int, step as int);
        vstd::arithmetic::div_mod::lemma_fundamental_div_mod(a as int, step as int);
        assert(step * q < step * k);
        vstd::arithmetic::mul::lemma_mul_is_commutative(step as int, q as int);
        vstd::arithmetic::mul::lemma_mul_is_commutative(step as int, k as int);
        vstd::arithmetic::mul::lemma_mul_strict_inequality_converse(q as int, k as int, step as int);
        vstd::arithmetic::mul::lemma_mul_inequality(q + 1int, k as int, step as int);
    }
}

/// Rounding up keeps order.
proof fn lemma_round_up_monotone(a: nat, b: nat, step: nat)
    requires
        step >= 1,
        a <= b,
    ensures
        round_up(a, step) <= round_up(b, step),
{
    lemma_round_up(b, step);
    lemma_round_up_below(a, step, round_up(b, step));
}

/// The PADMÉ length of `len >= 1` lies between `2^e` and `2^(e + 1)`, where
/// `e = floor(log2(len))`.
proof fn lemma_padme_range(len: nat)
    requires
        len >= 1,
    ensures
        padme_step(len) >= 1,
        len <= padme_spec(len),
        pow2(log2(len)) <= padme_spec(len) <= pow2(log2(len) + 1),
        padme_spec(len) % padme_step(len) == 0,
        log2(log2(len) + 1) <= log2(len),
{
    let e = log2(len);
    let s = log2(e + 1);
    lemma_pow2_log2_bounds(len);
    lemma_pow2_log2_bounds(e + 1);
    lemma_pow2_exceeds(s);
    assert(s <= e);
    lemma_pow2_positive((e - s) as nat);
    lemma_round_up(len, padme_step(len));
    assert(pow2(e + 1) == 2 * pow2(e));
    lemma_pow2_divides((e - s) as nat, e + 1);
    lemma_round_up_below(len, padme_step(len), pow2(e + 1));
}

/// Padding a PADMÉ length again leaves it as it is.
pub proof fn lemma_padme_idempotent(len: nat)
    ensures
        padme_spec(padme_spec(len)) == padme_spec(len),
{
    if len >= 1 {
        let e = log2(len);
        let p = padme_spec(len);
        lemma_padme_range(len);
        if p < pow2(e + 1) {
            lemma_log2_unique(p, e);
        } else {
            assert(pow2(e + 1 + 1) == 2 * pow2(e + 1));
            lemma_pow2_positive(e + 1);
            lemma_log2_unique(p, e + 1);
            lemma_padme_range(p);
            lemma_pow2_divides((log2(p) - log2(log2(p) + 1)) as nat, e + 1);
        }
    }
}

/// A longer payload never gets a shorter PADMÉ length.
pub proof fn lemma_padme_monotone(a: nat, b: nat)
    requires
        a <= b,
    ensures
        padme_spec(a) <= padme_spec(b),
{
    if a >= 1 {
        lemma_log2_monotone(a, b);
        lemma_padme_range(a);
        lemma_padme_range(b);
        if log2(a) == log2(b) {
            lemma_round_up_monotone(a, b, padme_step(a));
        } else {
            lemma_pow2_le(log2(a) + 1, log2(b));
            lemma_pow2_log2_bounds(b);
        }
    }
}

/// Clamping a bucket length again leaves it as it is.
pub proof fn lemma_bucket_idempotent(len: nat)
    ensures
        bucket_spec(bucket_spec(len)) == bucket_spec(len),
{
    if len > 4096 {
        lemma_padme_range(len);
        lemma_padme_idempotent(len);
    }
}

/// A longer payload never gets a smaller bucket.
pub proof fn lemma_bucket_monotone(a: nat, b: nat)
    requires
        a <= b,
    ensures
        bucket_spec(a) <= bucket_spec(b),
{
    if b > 4096 {
        lemma_padme_range(b);
        if a > 4096 {
            lemma_padme_monotone(a, b);
        }
    }
}

/// Clamps a length to the next operational bucket: 256, 512, 1024, 2048, 4096,
/// and to its PADMÉ length above 4096. The result is never smaller than `len`.
pub fn clamp_to_bucket(len: usize) -> (r: usize)
    requires
        bucket_spec(len as nat) <= usize::MAX,
    ensures
        r == bucket_spec(len as nat),
        len <= r,
{
    if len <= 256 {
        256
    } else if len <= 512 {
        512
    } else if len <= 1024 {
        1024
    } else if len <= 2048 {
        2048
    } else if len <= 4096 {
        4096
    } else {
        padme_len(len)
    }
}

} // verus!
