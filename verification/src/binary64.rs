//! Rounding to the 53 significant bits of a double-precision number, in whole
//! numbers.
//!
//! A double-precision number that is not negative is a whole multiple of
//! 2^-1074 with at most 53 significant bits. Counted in units of 2^-1074, the
//! number nearest to a quotient `p / q` is `nearest_double(p, q)`.

use vstd::arithmetic::div_mod::{
    lemma_fundamental_div_mod, lemma_fundamental_div_mod_converse, lemma_mod_bound,
};
use vstd::arithmetic::power2::{lemma_pow2_adds, lemma_pow2_pos, lemma_pow2_unfold, pow2};
use vstd::prelude::*;

verus! {

/// 2^52, the smallest number of 53 bits.
pub const TWO_52: u64 = 0x10_0000_0000_0000;

/// 2^53, the smallest number of 54 bits.
pub const TWO_53: u64 = 0x20_0000_0000_0000;

/// The whole number nearest to `p / q`; of two that are equally near, the even
/// one.
pub open spec fn nearest_whole(p: nat, q: nat) -> nat {
    let below = p / q;
    let rest = p % q;
    if 2 * rest > q || (2 * rest == q && below % 2 == 1) {
        below + 1
    } else {
        below
    }
}

/// The number nearest to `p / q` among the whole numbers with at most 53
/// significant bits; of two that are equally near, the one with the even
/// significand.
pub open spec fn nearest_double(p: nat, q: nat) -> nat
    decreases p - q,
{
    if q == 0 || p < q * TWO_53 {
        nearest_whole(p, q)
    } else {
        2 * nearest_double(p, 2 * q)
    }
}

/// What halving a quotient does to its whole part and its rest.
proof fn lemma_half(p: nat, q: nat)
    requires
        q > 0,
    ensures
        p / (2 * q) == (p / q) / 2,
        p % (2 * q) == ((p / q) % 2) * q + p % q,
        p % q < q,
{
    let x = p / q;
    let r = p % q;
    lemma_fundamental_div_mod(p as int, q as int);
    lemma_mod_bound(p as int, q as int);
    let h = x / 2;
    let b = x % 2;
    assert(p == h * (2 * q) + (b * q + r)) by (nonlinear_arith)
        requires
            p == q * x + r,
            x == 2 * h + b,
    ;
    assert(0 <= b * q + r < 2 * q) by (nonlinear_arith)
        requires
            0 <= b <= 1,
            0 <= r < q,
    ;
    lemma_fundamental_div_mod_converse(p as int, (2 * q) as int, h as int, (b * q + r) as int);
}

/// A quotient has a whole part of `n` or more just if `p` is at least `n * q`.
proof fn lemma_whole_part(p: nat, q: nat, n: nat)
    requires
        q > 0,
    ensures
        p / q >= n <==> p >= q * n,
{
    lemma_fundamental_div_mod(p as int, q as int);
    lemma_mod_bound(p as int, q as int);
    let x = p / q;
    let r = p % q;
    if x >= n {
        assert(p >= q * n) by (nonlinear_arith)
            requires
                p == q * x + r,
                r >= 0,
                x >= n,
        ;
    } else {
        assert(p < q * n) by (nonlinear_arith)
            requires
                p == q * x + r,
                0 <= r < q,
                x + 1 <= n,
        ;
    }
}

/// Where the whole part has more than 53 bits, the rounding depends on the whole
/// part and on whether there is a rest.
pub(crate) proof fn lemma_same_rounding(p: nat, q: nat, p2: nat, q2: nat)
    requires
        q > 0,
        q2 > 0,
        p / q == p2 / q2,
        p % q == 0 <==> p2 % q2 == 0,
        p / q >= TWO_53,
    ensures
        nearest_double(p, q) == nearest_double(p2, q2),
    decreases p / q,
{
    lemma_whole_part(p, q, TWO_53 as nat);
    lemma_whole_part(p2, q2, TWO_53 as nat);
    lemma_half(p, q);
    lemma_half(p2, q2);
    lemma_whole_part(p, 2 * q, TWO_53 as nat);
    lemma_whole_part(p2, 2 * q2, TWO_53 as nat);
    let b = (p / q) % 2;
    assert(b * q == if b == 0 { 0 } else { q as int }) by (nonlinear_arith)
        requires
            0 <= b <= 1,
    ;
    assert(b * q2 == if b == 0 { 0 } else { q2 as int }) by (nonlinear_arith)
        requires
            0 <= b <= 1,
    ;
    assert(nearest_double(p, q) == 2 * nearest_double(p, 2 * q));
    assert(nearest_double(p2, q2) == 2 * nearest_double(p2, 2 * q2));
    if p / (2 * q) >= TWO_53 {
        lemma_same_rounding(p, 2 * q, p2, 2 * q2);
    } else {
        assert(nearest_double(p, 2 * q) == nearest_whole(p, 2 * q));
        assert(nearest_double(p2, 2 * q2) == nearest_whole(p2, 2 * q2));
    }
}

/// Doubling a quotient doubles its rounding, where that has 53 bits already.
proof fn lemma_doubled(p: nat, q: nat)
    requires
        q > 0,
        p >= q * TWO_52,
    ensures
        nearest_double(2 * p, q) == 2 * nearest_double(p, q),
{
    assert(2 * p >= q * TWO_53) by (nonlinear_arith)
        requires
            p >= q * TWO_52,
            TWO_53 == 2 * TWO_52,
    ;
    let x = p / q;
    let r = p % q;
    lemma_fundamental_div_mod(p as int, q as int);
    lemma_mod_bound(p as int, q as int);
    assert(2 * p == x * (2 * q) + 2 * r) by (nonlinear_arith)
        requires
            p == q * x + r,
    ;
    lemma_fundamental_div_mod_converse((2 * p) as int, (2 * q) as int, x as int, (2 * r) as int);
    lemma_whole_part(p, q, TWO_53 as nat);
    lemma_whole_part(2 * p, 2 * q, TWO_53 as nat);
    if p / q >= TWO_53 {
        lemma_same_rounding(2 * p, 2 * q, p, q);
    }
}

/// Scaling a quotient by a power of two scales its rounding, where that has 53
/// bits already.
pub(crate) proof fn lemma_scaled(p: nat, q: nat, e: nat)
    requires
        q > 0,
        p >= q * TWO_52,
    ensures
        nearest_double(p * pow2(e), q) == pow2(e) * nearest_double(p, q),
    decreases e,
{
    if e == 0 {
        assert(pow2(0) == 1) by {
            vstd::arithmetic::power2::lemma2_to64();
        }
        assert(p * 1 == p);
    } else {
        let f = (e - 1) as nat;
        lemma_scaled(p, q, f);
        lemma_pow2_unfold(e);
        lemma_pow2_pos(f);
        let s = p * pow2(f);
        assert(s >= q * TWO_52) by (nonlinear_arith)
            requires
                s == p * pow2(f),
                pow2(f) >= 1,
                p >= q * TWO_52,
        ;
        assert(p * pow2(e) == 2 * s) by (nonlinear_arith)
            requires
                s == p * pow2(f),
                pow2(e) == 2 * pow2(f),
        ;
        lemma_doubled(s, q);
        let n = nearest_double(p, q);
        assert(pow2(e) * n == 2 * (pow2(f) * n)) by (nonlinear_arith)
            requires
                pow2(e) == 2 * pow2(f),
        ;
    }
}

/// Rounding goes over no power of two.
pub(crate) proof fn lemma_at_most(p: nat, q: nat, e: nat)
    requires
        q > 0,
        p <= q * pow2(e),
    ensures
        nearest_double(p, q) <= pow2(e),
    decreases e,
{
    let top = pow2(e);
    if p < q * TWO_53 {
        lemma_fundamental_div_mod(p as int, q as int);
        lemma_mod_bound(p as int, q as int);
        let x = p / q;
        let r = p % q;
        assert(x < top || (x == top && r == 0)) by (nonlinear_arith)
            requires
                p == q * x + r,
                0 <= r < q,
                p <= q * top,
        ;
    } else {
        vstd::arithmetic::power2::lemma2_to64();
        if e == 0 {
            assert(false) by (nonlinear_arith)
                requires
                    q > 0,
                    p <= q * top,
                    top == 1,
                    p >= q * TWO_53,
            ;
        }
        let f = (e - 1) as nat;
        lemma_pow2_unfold(e);
        let half = pow2(f);
        assert(p <= (2 * q) * half) by (nonlinear_arith)
            requires
                p <= q * top,
                top == 2 * half,
        ;
        lemma_at_most(p, 2 * q, f);
    }
}

/// Rounding goes under no power of two.
pub(crate) proof fn lemma_at_least(p: nat, q: nat, e: nat)
    requires
        q > 0,
        p >= q * pow2(e),
    ensures
        nearest_double(p, q) >= pow2(e),
    decreases p - q,
{
    let low = pow2(e);
    if p < q * TWO_53 {
        lemma_whole_part(p, q, low);
    } else if e == 0 {
        vstd::arithmetic::power2::lemma2_to64();
        assert(p >= (2 * q) * 1) by (nonlinear_arith)
            requires
                p >= q * TWO_53,
                q > 0,
        ;
        lemma_at_least(p, 2 * q, 0);
    } else {
        let f = (e - 1) as nat;
        lemma_pow2_unfold(e);
        let half = pow2(f);
        assert(p >= (2 * q) * half) by (nonlinear_arith)
            requires
                p >= q * low,
                low == 2 * half,
        ;
        lemma_at_least(p, 2 * q, f);
    }
}

/// One, if there is a rest.
pub open spec fn rest_bit(rest: bool) -> nat {
    if rest {
        1
    } else {
        0
    }
}

/// Rounds `x`, with half a unit more where there is a rest, to 53 significant
/// bits: the significand and the exponent.
pub fn round_significand(x: u128, rest: bool) -> (rounded: (u64, u32))
    requires
        x >= TWO_53,
    ensures
        nearest_double((2 * x + rest_bit(rest)) as nat, 2) == rounded.0 * pow2(rounded.1 as nat),
        TWO_52 <= rounded.0 <= TWO_53,
        1 <= rounded.1 <= 75,
{
    let mut m: u128 = x;
    let mut left: bool = rest;
    let mut e: u32 = 0;
    let ghost goal = nearest_double((2 * x + rest_bit(rest)) as nat, 2);
    proof {
        vstd::arithmetic::power2::lemma2_to64();
        vstd::arithmetic::power2::lemma2_to64_rest();
        assert(pow2(0) == 1);
        lemma_pow2_adds(64, 64);
        assert(m * pow2(0) == m);
    }
    while m >= 2 * TWO_53 as u128
        invariant
            m >= TWO_53,
            goal == pow2(e as nat) * nearest_double((2 * m + rest_bit(left)) as nat, 2),
            m * pow2(e as nat) < pow2(128),
            e <= 74,
            pow2(54) == 2 * TWO_53,
        decreases m,
    {
        let ghost p = (2 * m + rest_bit(left)) as nat;
        let ghost old_m = m;
        let odd = m % 2 == 1;
        let ghost p2 = (2 * (m / 2) + rest_bit(left || odd)) as nat;
        proof {
            assert(p >= 2 * TWO_53);
            assert(nearest_double(p, 2) == 2 * nearest_double(p, 4));
            assert(p / 4 == p2 / 2);
            assert(p % 4 == 0 <==> p2 % 2 == 0);
            lemma_same_rounding(p, 4, p2, 2);
            lemma_pow2_unfold((e + 1) as nat);
            let n = nearest_double(p2, 2);
            assert(pow2((e + 1) as nat) * n == pow2(e as nat) * (2 * n)) by (nonlinear_arith)
                requires
                    pow2((e + 1) as nat) == 2 * pow2(e as nat),
            ;
            lemma_pow2_pos(e as nat);
            assert((m / 2) * pow2((e + 1) as nat) <= m * pow2(e as nat)) by (nonlinear_arith)
                requires
                    pow2((e + 1) as nat) == 2 * pow2(e as nat),
                    m >= 2 * (m / 2),
                    pow2(e as nat) >= 1,
            ;
            if e + 1 > 74 {
                lemma_pow2_adds(54, 74);
                assert(m * pow2(74) >= pow2(54) * pow2(74)) by (nonlinear_arith)
                    requires
                        m >= pow2(54),
                ;
            }
        }
        left = left || odd;
        m = m / 2;
        e = e + 1;
    }
    let ghost p = (2 * m + rest_bit(left)) as nat;
    let odd = m % 2 == 1;
    let mut significand: u64 = (m / 2) as u64;
    if odd && (left || significand % 2 == 1) {
        significand = significand + 1;
    }
    proof {
        assert(p >= 2 * TWO_53 && p < 4 * TWO_53);
        assert(nearest_double(p, 2) == 2 * nearest_double(p, 4));
        assert(nearest_double(p, 4) == nearest_whole(p, 4));
        assert(p / 4 == m / 2);
        assert(significand == nearest_whole(p, 4));
        lemma_pow2_unfold((e + 1) as nat);
        assert(pow2(e as nat) * (2 * significand) == significand * pow2((e + 1) as nat))
            by (nonlinear_arith)
            requires
                pow2((e + 1) as nat) == 2 * pow2(e as nat),
        ;
    }
    (significand, e + 1)
}

} // verus!
