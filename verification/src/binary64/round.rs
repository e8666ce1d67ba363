//! Rounding of an exact non-negative ratio to the nearest binary64 magnitude.
use vstd::arithmetic::div_mod::*;
use vstd::arithmetic::mul::*;
use vstd::arithmetic::power2::*;
use vstd::prelude::*;

verus! {

/// Distance between two neighbouring exponent fields in a bit pattern: `2^52`.
pub const BINADE: u64 = 0x0010_0000_0000_0000;

/// Magnitude bits of an infinity.
pub const INFINITE: u64 = 0x7ff0_0000_0000_0000;

/// `n / d` rounded to the nearest integer, a tie going to the even one.
pub open spec fn half_even(n: nat, d: nat) -> nat {
    let q = n / d;
    let r = n % d;
    if 2 * r < d || (2 * r == d && q % 2 == 0) {
        q
    } else {
        q + 1
    }
}

/// Magnitude bits of the binary64 number nearest to `n / d` smallest subnormals, as if the
/// exponent range had no upper end.  Below `2^53` the numbers are spaced by one smallest
/// subnormal; each binade further up the spacing doubles and the bit pattern gains `BINADE`.
pub open spec fn nearest(n: nat, d: nat) -> nat
    decreases n - d,
{
    if d == 0 {
        0
    } else if n < 0x0020_0000_0000_0000 * d {
        half_even(n, d)
    } else {
        BINADE as nat + nearest(n, 2 * d)
    }
}

/// How many smallest subnormals the number with magnitude bits `mag` is worth.
pub open spec fn units_of(mag: nat) -> nat
    decreases mag,
{
    if mag < 2 * BINADE {
        mag
    } else {
        2 * units_of((mag - BINADE) as nat)
    }
}

/// `n / d` is scaled by a common factor without changing its rounding.
pub proof fn lemma_half_even_scale(n: nat, d: nat, c: nat)
    requires
        d > 0,
        c > 0,
    ensures
        half_even(n * c, d * c) == half_even(n, d),
{
    let q = n / d;
    let r = n % d;
    lemma_fundamental_div_mod(n as int, d as int);
    assert(n * c == q * (d * c) + r * c) by (nonlinear_arith)
        requires
            n == d * q + r,
    ;
    assert(0 <= r * c < d * c) by (nonlinear_arith)
        requires
            0 <= r < d,
            c > 0,
    ;
    lemma_fundamental_div_mod_converse((n * c) as int, (d * c) as int, q as int, (r * c) as int);
    assert((2 * r < d) == (2 * (r * c) < d * c)) by (nonlinear_arith)
        requires
            c > 0,
    ;
    assert((2 * r == d) == (2 * (r * c) == d * c)) by (nonlinear_arith)
        requires
            c > 0,
    ;
}

/// An exact quotient rounds to itself.
pub proof fn lemma_half_even_exact(m: nat, d: nat)
    requires
        d > 0,
    ensures
        half_even(m * d, d) == m,
{
    lemma_fundamental_div_mod_converse((m * d) as int, d as int, m as int, 0);
}

/// The binade `k` that holds `n / d` fixes the rounding.
pub proof fn lemma_nearest_in_binade(n: nat, d: nat, k: nat)
    requires
        d > 0,
        n < 0x0020_0000_0000_0000 * (d * pow2(k)),
        k == 0 || n >= 0x0010_0000_0000_0000 * (d * pow2(k)),
    ensures
        nearest(n, d) == 0x0010_0000_0000_0000 * k + half_even(n, d * pow2(k)),
    decreases k,
{
    lemma_pow2_pos(k);
    if k == 0 {
        lemma2_to64();
        assert(d * pow2(0) == d);
    } else {
        let j = (k - 1) as nat;
        lemma_pow2_unfold(k);
        lemma_pow2_pos(j);
        assert(d * pow2(k) == (2 * d) * pow2(j)) by (nonlinear_arith)
            requires
                pow2(k) == 2 * pow2(j),
        ;
        assert(d * pow2(k) >= 2 * d) by (nonlinear_arith)
            requires
                d * pow2(k) == (2 * d) * pow2(j),
                pow2(j) >= 1,
        ;
        lemma_nearest_in_binade(n, 2 * d, j);
    }
}

/// `2^e` fits in 128 bits when `e` does not reach 128.
pub fn power(e: u32) -> (p: u128)
    requires
        e < 128,
    ensures
        p == pow2(e as nat),
{
    proof {
        lemma_shift_is_pow2(e);
    }
    1u128 << e
}

proof fn lemma_shift_is_pow2(e: u32)
    requires
        e < 128,
    ensures
        (1u128 << e) == pow2(e as nat),
    decreases e,
{
    if e == 0 {
        lemma2_to64();
        assert(1u128 << 0u32 == 1u128) by (bit_vector);
    } else {
        let f = (e - 1) as u32;
        lemma_shift_is_pow2(f);
        lemma_pow2_unfold(e as nat);
        assert(1u128 << e == 2 * (1u128 << f)) by (bit_vector)
            requires
                e < 128,
                e > 0,
                f == e - 1,
        ;
    }
}

/// Dropping `l` binary digits and then `s` more drops `l + s`.
proof fn lemma_drop_digits(p: nat, l: nat, s: nat)
    ensures
        p / pow2(l) / pow2(s) == p / pow2(l + s),
        p / pow2(l) >= 1 ==> p >= pow2(l),
        p / pow2(l) == 0 ==> p < pow2(l),
{
    lemma_pow2_pos(l);
    lemma_pow2_pos(s);
    lemma_pow2_adds(l, s);
    lemma_div_denominator(p as int, pow2(l) as int, pow2(s) as int);
    let d = pow2(l);
    lemma_fundamental_div_mod(p as int, d as int);
    lemma_mod_bound(p as int, d as int);
    if p / d >= 1 {
        assert(p >= d) by (nonlinear_arith)
            requires
                p == d * (p / d) + p % d,
                p / d >= 1,
        ;
    }
}

/// Number of binary digits of `p`.
pub fn bit_length(p: u128) -> (l: u32)
    ensures
        l <= 128,
        p < pow2(l as nat),
        p > 0 ==> l > 0 && p >= pow2((l - 1) as nat),
        p == 0 ==> l == 0,
{
    proof {
        lemma2_to64();
        lemma2_to64_rest();
    }
    if p == 0 {
        return 0;
    }
    let mut rest = p;
    let mut l: u32 = 0;
    while rest >= 0x1_0000_0000
        invariant
            rest == p as nat / pow2(l as nat),
            rest > 0,
            l <= 96,
            l % 32 == 0,
            pow2(32) == 0x1_0000_0000,
        decreases rest,
    {
        proof {
            lemma_drop_digits(p as nat, l as nat, 32);
            if l == 96 {
                lemma_pow2_adds(96, 32);
                lemma_top();
                lemma_fundamental_div_mod(p as int, pow2(96) as int);
                assert(p >= pow2(96) * 0x1_0000_0000) by (nonlinear_arith)
                    requires
                        p == pow2(96) * (p as nat / pow2(96)) + p as nat % pow2(96),
                        p as nat / pow2(96) >= 0x1_0000_0000,
                ;
            }
        }
        rest = rest / 0x1_0000_0000;
        l = l + 32;
    }
    proof {
        lemma_top();
        lemma_pow2_adds(l as nat, (128 - l) as nat);
        lemma_pow2_pos(l as nat);
        let d = pow2(l as nat);
        let c = pow2((128 - l) as nat);
        lemma_fundamental_div_mod(p as int, d as int);
        lemma_mod_bound(p as int, d as int);
        assert(p as nat / d < c) by (nonlinear_arith)
            requires
                p == d * (p as nat / d) + p as nat % d,
                p as nat % d >= 0,
                p < d * c,
                d > 0,
        ;
    }
    while rest > 0
        invariant
            rest == p as nat / pow2(l as nat),
            rest < pow2((128 - l) as nat),
            l <= 128,
            l > 0 || rest > 0,
            rest == 0 ==> p >= pow2((l - 1) as nat),
            pow2(1) == 2,
            pow2(0) == 1,
        decreases rest,
    {
        proof {
            lemma_drop_digits(p as nat, l as nat, 1);
            if l < 128 {
                lemma_pow2_unfold((128 - l) as nat);
            }
        }
        rest = rest / 2;
        l = l + 1;
    }
    proof {
        lemma_drop_digits(p as nat, l as nat, 0);
    }
    l
}

proof fn lemma_top()
    ensures
        pow2(128) == 0x1_0000_0000_0000_0000_0000_0000_0000_0000,
{
    lemma_pow2_unfold(128);
    lemma_shift_is_pow2(127);
    assert(1u128 << 127u32 == 0x8000_0000_0000_0000_0000_0000_0000_0000u128) by (bit_vector);
}

/// Magnitude bits once everything past the largest finite number has become infinite.
pub open spec fn saturated(m: nat) -> nat {
    if m >= INFINITE {
        INFINITE as nat
    } else {
        m
    }
}

/// Numerator of `p * 2^e`.
pub open spec fn scaled_num(p: nat, e: int) -> nat {
    if e >= 0 {
        p * pow2(e as nat)
    } else {
        p
    }
}

/// Denominator of `p * 2^e`.
pub open spec fn scaled_den(e: int) -> nat {
    if e >= 0 {
        1
    } else {
        pow2((-e) as nat)
    }
}

/// Where `p * 2^e` lies when `p` has `l` binary digits.
pub proof fn lemma_scaled_bounds(p: nat, l: nat, e: int, k: nat)
    requires
        0 < l,
        pow2((l - 1) as nat) <= p < pow2(l),
    ensures
        l + e <= 53 + k ==> scaled_num(p, e) < 0x0020_0000_0000_0000 * (scaled_den(e) * pow2(k)),
        l + e == 53 + k ==> scaled_num(p, e) >= 0x0010_0000_0000_0000 * (scaled_den(e) * pow2(k)),
{
    lemma2_to64();
    lemma2_to64_rest();
    let den = scaled_den(e);
    if e >= 0 {
        let f = e as nat;
        lemma_pow2_pos(f);
        lemma_pow2_adds(l, f);
        lemma_pow2_adds((l - 1) as nat, f);
        assert(p * pow2(f) < pow2(l) * pow2(f)) by (nonlinear_arith)
            requires
                p < pow2(l),
                pow2(f) > 0,
        ;
        assert(p * pow2(f) >= pow2((l - 1) as nat) * pow2(f)) by (nonlinear_arith)
            requires
                p >= pow2((l - 1) as nat),
                pow2(f) > 0,
        ;
        lemma_pow2_adds(53, k);
        lemma_pow2_adds(52, k);
        if l + f < 53 + k {
            lemma_pow2_strictly_increases(l + f, 53 + k);
        }
        assert(den * pow2(k) == pow2(k));
    } else {
        let g = (-e) as nat;
        lemma_pow2_adds(g, k);
        lemma_pow2_adds(53, g + k);
        lemma_pow2_adds(52, g + k);
        if l < 53 + g + k {
            lemma_pow2_strictly_increases(l, 53 + g + k);
        }
    }
}

/// Rounding `p * 2^e` in binade `k`: an exact shift up, or a division by a power of two.
pub proof fn lemma_scaled_half_even(p: nat, e: int, k: nat)
    ensures
        e >= k ==> half_even(scaled_num(p, e), scaled_den(e) * pow2(k)) == p * pow2((e - k) as nat),
        e < k ==> half_even(scaled_num(p, e), scaled_den(e) * pow2(k)) == half_even(
            p,
            pow2((k - e) as nat),
        ),
{
    lemma_pow2_pos(k);
    lemma_mul_basics(pow2(k) as int);
    if e >= k {
        let t = (e - k) as nat;
        lemma_pow2_adds(t, k);
        assert(p * pow2(e as nat) == (p * pow2(t)) * pow2(k)) by (nonlinear_arith)
            requires
                pow2(e as nat) == pow2(t) * pow2(k),
        ;
        lemma_half_even_exact(p * pow2(t), pow2(k));
        assert(scaled_den(e) * pow2(k) == pow2(k));
    } else if e >= 0 {
        let r = (k - e) as nat;
        lemma_pow2_adds(r, e as nat);
        lemma_pow2_pos(r);
        lemma_pow2_pos(e as nat);
        lemma_half_even_scale(p, pow2(r), pow2(e as nat));
        assert(scaled_den(e) * pow2(k) == pow2(k));
    } else {
        lemma_pow2_adds((-e) as nat, k);
    }
}

/// `p / 2^r` rounded to the nearest integer, a tie going to the even one.
fn half_even_shift(p: u128, r: u32) -> (s: u128)
    requires
        r > 0,
    ensures
        s == half_even(p as nat, pow2(r as nat)),
{
    proof {
        lemma_pow2_unfold(r as nat);
        lemma_pow2_pos(r as nat);
        lemma_pow2_pos((r - 1) as nat);
    }
    if r >= 128 {
        proof {
            lemma_top();
            lemma_pow2_unfold(128);
            if r > 128 {
                lemma_pow2_strictly_increases(128, r as nat);
                lemma_pow2_unfold(r as nat);
                if r > 129 {
                    lemma_pow2_strictly_increases(128, (r - 1) as nat);
                }
            }
            lemma_fundamental_div_mod_converse(p as int, pow2(r as nat) as int, 0, p as int);
        }
        if r == 128 && p > 0x8000_0000_0000_0000_0000_0000_0000_0000 {
            1
        } else {
            0
        }
    } else {
        let d = power(r);
        let half = power(r - 1);
        let q = p / d;
        let rest = p % d;
        if rest < half || (rest == half && q % 2 == 0) {
            q
        } else {
            proof {
                lemma_fundamental_div_mod(p as int, d as int);
                assert(q <= p / 2) by (nonlinear_arith)
                    requires
                        p == d * q + rest,
                        d >= 2,
                        rest >= 0,
                ;
            }
            q + 1
        }
    }
}

/// Magnitude bits of the binary64 number nearest to `p * 2^e` smallest subnormals.
pub fn round_scaled(p: u128, e: i32) -> (mag: u64)
    requires
        -5000 <= e <= 5000,
    ensures
        mag == saturated(nearest(scaled_num(p as nat, e as int), scaled_den(e as int))),
{
    let ghost n = scaled_num(p as nat, e as int);
    let ghost d = scaled_den(e as int);
    proof {
        if e < 0 {
            lemma_pow2_pos((-e) as nat);
        }
    }
    if p == 0 {
        proof {
            if e >= 0 {
                lemma_mul_basics(pow2(e as nat) as int);
            }
            lemma_half_even_exact(0, d);
            assert(0 * d == 0);
        }
        return 0;
    }
    let l = bit_length(p) as i32;
    let k: i32 = if l + e > 53 {
        l + e - 53
    } else {
        0
    };
    proof {
        lemma_scaled_bounds(p as nat, l as nat, e as int, k as nat);
        lemma_nearest_in_binade(n, d, k as nat);
        lemma_scaled_half_even(p as nat, e as int, k as nat);
        lemma_pow2_pos(k as nat);
        assert(d * pow2(k as nat) > 0) by (nonlinear_arith)
            requires
                d > 0,
                pow2(k as nat) > 0,
        ;
        lemma_half_even_bounds(n, d * pow2(k as nat), 0x0010_0000_0000_0000, 0x0020_0000_0000_0000);
    }
    if k >= 2046 {
        return INFINITE;
    }
    let s: u64 = if e >= k {
        proof {
            lemma2_to64_rest();
            lemma_pow2_pos((e - k) as nat);
            let t = (e - k) as nat;
            assert(pow2(t) <= p * pow2(t)) by (nonlinear_arith)
                requires
                    p >= 1,
                    pow2(t) > 0,
            ;
            if t > 53 {
                lemma_pow2_strictly_increases(53, t);
            }
        }
        (p * power((e - k) as u32)) as u64
    } else {
        half_even_shift(p, (k - e) as u32) as u64
    };
    (k as u64) * BINADE + s
}

/// Rounding stays within integer bounds of the quotient.
pub proof fn lemma_half_even_bounds(n: nat, d: nat, lo: nat, hi: nat)
    requires
        d > 0,
    ensures
        n >= lo * d ==> half_even(n, d) >= lo,
        n <= hi * d ==> half_even(n, d) <= hi,
{
    let q = n / d;
    let r = n % d;
    lemma_fundamental_div_mod(n as int, d as int);
    lemma_mod_bound(n as int, d as int);
    if n >= lo * d {
        assert(q >= lo) by (nonlinear_arith)
            requires
                n == d * q + r,
                r < d,
                n >= lo * d,
                d > 0,
        ;
    }
    if n <= hi * d {
        assert(q < hi || (q == hi && r == 0)) by (nonlinear_arith)
            requires
                n == d * q + r,
                0 <= r < d,
                n <= hi * d,
                d > 0,
        ;
    }
}

} // verus!
