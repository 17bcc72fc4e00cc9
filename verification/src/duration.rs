//! Durations in whole milliseconds, read from a decimal number and a unit.
//!
//! The number is taken as the double-precision number nearest to it, seconds
//! are multiplied by a thousand in double precision, and what stands behind
//! the point is then cut off.

use crate::binary64::{
    lemma_at_least, lemma_at_most, lemma_same_rounding, lemma_scaled, nearest_double, rest_bit,
    round_significand, TWO_52, TWO_53,
};
use crate::text::{
    all_digits, digits_value, is_digit, len_before, same_text, to_chars,
};
use vstd::arithmetic::div_mod::{
    lemma_fundamental_div_mod, lemma_fundamental_div_mod_converse, lemma_mod_bound,
};
use vstd::arithmetic::power2::{lemma_pow2_adds, lemma_pow2_pos, lemma_pow2_unfold, pow2};
use vstd::prelude::*;

verus! {

/// The power of ten with exponent `k`.
pub open spec fn ten_to(k: nat) -> nat
    decreases k,
{
    if k == 0 {
        1
    } else {
        10 * ten_to((k - 1) as nat)
    }
}

/// The number that `text` writes with digits and at most one point, as its
/// digits without the point and how many of them stand behind it. There must
/// be a digit.
pub open spec fn decimal_fraction(text: Seq<char>) -> Option<(nat, nat)> {
    let point = len_before(text, '.') as int;
    let whole = text.take(point);
    let fraction = if point < text.len() {
        text.skip(point + 1)
    } else {
        seq![]
    };
    if whole.len() + fraction.len() > 0 && all_digits(whole) && all_digits(fraction) {
        Some((digits_value(whole + fraction), fraction.len()))
    } else {
        None
    }
}

/// The whole milliseconds in `digits / 10^k` milliseconds, or seconds, by
/// double-precision arithmetic; at most what a `u64` holds.
pub open spec fn millis_of(digits: nat, k: nat, seconds: bool) -> nat {
    let value = nearest_double(digits * pow2(1074), ten_to(k));
    let millis = if seconds {
        nearest_double(value * 1000, 1)
    } else {
        value
    };
    capped(millis / pow2(1074))
}

/// `n`, or the greatest `u64` where `n` is greater.
pub open spec fn capped(n: nat) -> nat {
    if n > u64::MAX {
        u64::MAX as nat
    } else {
        n
    }
}

/// The milliseconds that `number` and `unit` stand for: the unit is
/// milliseconds where it is `ms`, else seconds.
pub open spec fn duration_of(number: Seq<char>, unit: Seq<char>) -> Option<nat> {
    match decimal_fraction(number) {
        Some((digits, k)) => Some(millis_of(digits, k, unit != "ms"@)),
        None => None,
    }
}

/// The number that decimal digits write, the first digit the highest.
spec fn value_of(digits: Seq<u8>) -> nat
    decreases digits.len(),
{
    if digits.len() == 0 {
        0
    } else {
        digits[0] as nat * ten_to((digits.len() - 1) as nat) + value_of(digits.skip(1))
    }
}

/// Whether each number is a decimal digit.
spec fn are_digits(digits: Seq<u8>) -> bool {
    forall|i: int| 0 <= i < digits.len() ==> #[trigger] digits[i] < 10
}

pub(crate) proof fn lemma_ten_to_pos(k: nat)
    ensures
        ten_to(k) > 0,
    decreases k,
{
    if k > 0 {
        lemma_ten_to_pos((k - 1) as nat);
    }
}

proof fn lemma_value_bound(digits: Seq<u8>)
    requires
        are_digits(digits),
    ensures
        value_of(digits) < ten_to(digits.len()),
    decreases digits.len(),
{
    if digits.len() > 0 {
        let t = ten_to((digits.len() - 1) as nat);
        lemma_value_bound(digits.skip(1));
        assert(digits[0] * t <= 9 * t) by (nonlinear_arith)
            requires
                digits[0] <= 9,
        ;
    }
}

/// A number is zero just if all its digits are.
proof fn lemma_value_zero(digits: Seq<u8>)
    ensures
        value_of(digits) == 0 <==> forall|i: int| 0 <= i < digits.len() ==> digits[i] == 0,
    decreases digits.len(),
{
    if digits.len() > 0 {
        let t = ten_to((digits.len() - 1) as nat);
        lemma_ten_to_pos((digits.len() - 1) as nat);
        let rest = digits.skip(1);
        lemma_value_zero(rest);
        assert(digits[0] * t == 0 <==> digits[0] == 0) by (nonlinear_arith)
            requires
                t > 0,
                digits[0] >= 0,
        ;
        if value_of(digits) == 0 {
            assert forall|i: int| 0 <= i < digits.len() implies digits[i] == 0 by {
                if i > 0 {
                    assert(rest[i - 1] == digits[i]);
                }
            }
        }
        if forall|i: int| 0 <= i < digits.len() ==> digits[i] == 0 {
            assert forall|i: int| 0 <= i < rest.len() implies rest[i] == 0 by {
                assert(rest[i] == digits[i + 1]);
            }
        }
    }
}

/// One more digit behind the others.
proof fn lemma_value_push(digits: Seq<u8>, d: u8)
    ensures
        value_of(digits.push(d)) == value_of(digits) * 10 + d,
    decreases digits.len(),
{
    let longer = digits.push(d);
    if digits.len() == 0 {
        assert(longer.skip(1) == Seq::<u8>::empty());
        assert(ten_to(0) == 1);
        assert(longer[0] == d);
        assert(value_of(longer.skip(1)) == 0);
        assert(d as nat * 1 == d);
    } else {
        assert(longer.skip(1) == digits.skip(1).push(d));
        lemma_value_push(digits.skip(1), d);
        let t = ten_to((digits.len() - 1) as nat);
        assert(ten_to(digits.len()) == 10 * t);
        assert(longer[0] == digits[0]);
        assert(digits[0] as nat * (10 * t) == (digits[0] as nat * t) * 10) by (nonlinear_arith);
    }
}

/// The digits of two texts, one behind the other.
proof fn lemma_digits_value_add(a: Seq<char>, b: Seq<char>)
    ensures
        digits_value(a + b) == digits_value(a) * ten_to(b.len()) + digits_value(b),
    decreases b.len(),
{
    if b.len() == 0 {
        assert(a + b == a);
        assert(digits_value(a) * 1 == digits_value(a));
    } else {
        assert((a + b).drop_last() == a + b.drop_last());
        lemma_digits_value_add(a, b.drop_last());
        let t = ten_to((b.len() - 1) as nat);
        let n = digits_value(a);
        let m = digits_value(b.drop_last());
        assert((n * t + m) * 10 == n * (10 * t) + m * 10) by (nonlinear_arith);
    }
}

/// Doubles the fraction that `digits` writes behind the point, and tells
/// whether it came to one or more, which is taken off.
fn double_fraction(digits: &mut Vec<u8>) -> (carry: bool)
    requires
        are_digits(old(digits)@),
    ensures
        final(digits)@.len() == old(digits)@.len(),
        are_digits(final(digits)@),
        2 * value_of(old(digits)@) == value_of(final(digits)@) + (if carry {
            ten_to(old(digits)@.len())
        } else {
            0
        }),
{
    let ghost start = digits@;
    let mut i: usize = digits.len();
    let mut carry: u8 = 0;
    proof {
        assert(start.skip(i as int) == Seq::<u8>::empty());
        assert(digits@.skip(i as int) == Seq::<u8>::empty());
    }
    while i > 0
        invariant
            i <= digits@.len() == start.len(),
            carry <= 1,
            are_digits(start),
            are_digits(digits@),
            digits@.take(i as int) == start.take(i as int),
            2 * value_of(start.skip(i as int)) == value_of(digits@.skip(i as int)) + carry * ten_to(
                (start.len() - i) as nat,
            ),
        decreases i,
    {
        let ghost before = digits@;
        let ghost j = i - 1;
        assert(before[j] == before.take(i as int)[j]);
        assert(start[j] == start.take(i as int)[j]);
        let x: u8 = 2 * digits[i - 1] + carry;
        let ghost old_carry = carry;
        digits.set(i - 1, x % 10);
        carry = x / 10;
        proof {
            let t = ten_to((start.len() - i) as nat);
            assert(ten_to((start.len() - j) as nat) == 10 * t);
            assert(start.skip(j).skip(1) == start.skip(i as int));
            assert(digits@.skip(j).skip(1) == before.skip(i as int));
            assert(digits@.skip(j)[0] == x % 10);
            assert(start.skip(j)[0] == start[j]);
            let a = value_of(start.skip(i as int));
            let b = value_of(before.skip(i as int));
            let s = start[j];
            let low = (x % 10) as nat;
            let high = carry as nat;
            assert(2 * (s * t + a) == (low * t + b) + high * (10 * t)) by (nonlinear_arith)
                requires
                    2 * a == b + old_carry * t,
                    2 * s + old_carry == low + 10 * high,
            ;
            assert(digits@.take(j) == start.take(j)) by {
                assert forall|k: int| 0 <= k < j implies digits@[k] == start[k] by {
                    assert(before.take(i as int)[k] == start.take(i as int)[k]);
                }
            }
        }
        i = i - 1;
    }
    proof {
        assert(start.skip(0) == start);
        assert(digits@.skip(0) == digits@);
        let t = ten_to(start.len());
        assert(carry * t == if carry == 1 { t as int } else { 0 }) by (nonlinear_arith)
            requires
                0 <= carry <= 1,
        ;
    }
    carry == 1
}

/// The first 64 binary digits of a decimal fraction, and whether anything
/// follows them.
fn binary_fraction(fraction: &Vec<u8>) -> (bits: (u64, bool))
    requires
        are_digits(fraction@),
    ensures
        ({
            let t = ten_to(fraction@.len());
            let scaled = value_of(fraction@) * pow2(64);
            &&& scaled / t == bits.0
            &&& bits.1 <==> scaled % t != 0
        }),
{
    let mut digits: Vec<u8> = Vec::new();
    let mut i: usize = 0;
    while i < fraction.len()
        invariant
            i <= fraction@.len(),
            digits@ == fraction@.take(i as int),
        decreases fraction@.len() - i,
    {
        digits.push(fraction[i]);
        i = i + 1;
    }
    assert(fraction@.take(i as int) == fraction@);
    let ghost t = ten_to(fraction@.len());
    let ghost v = value_of(fraction@);
    let mut bits: u64 = 0;
    let mut n: u32 = 0;
    proof {
        vstd::arithmetic::power2::lemma2_to64();
        assert(v * 1 == v);
        assert(0 * t == 0);
    }
    while n < 64
        invariant
            n <= 64,
            digits@.len() == fraction@.len(),
            t == ten_to(fraction@.len()),
            v == value_of(fraction@),
            are_digits(digits@),
            v * pow2(n as nat) == bits * t + value_of(digits@),
            bits < pow2(n as nat),
            pow2(64) == 0x1_0000_0000_0000_0000,
        decreases 64 - n,
    {
        let ghost before = value_of(digits@);
        let ghost old_bits = bits;
        proof {
            lemma_pow2_unfold((n + 1) as nat);
            if n + 1 < 64 {
                vstd::arithmetic::power2::lemma_pow2_strictly_increases((n + 1) as nat, 64);
            }
        }
        let carry = double_fraction(&mut digits);
        bits = 2 * bits + if carry {
            1
        } else {
            0
        };
        proof {
            let after = value_of(digits@);
            let c = if carry {
                1nat
            } else {
                0nat
            };
            assert(c * t == if carry { t as int } else { 0 }) by (nonlinear_arith)
                requires
                    c == 1 || c == 0,
                    carry <==> c == 1,
            ;
            let power = pow2(n as nat);
            assert(v * (2 * power) == (2 * old_bits + c) * t + after) by (nonlinear_arith)
                requires
                    v * power == old_bits * t + before,
                    2 * before == after + c * t,
            ;
        }
        n = n + 1;
    }
    proof {
        lemma_value_bound(digits@);
        lemma_value_zero(digits@);
        lemma_fundamental_div_mod_converse(
            (v * pow2(64)) as int,
            t as int,
            bits as int,
            value_of(digits@) as int,
        );
    }
    let mut rest: bool = false;
    let mut k: usize = 0;
    while k < digits.len()
        invariant
            k <= digits@.len(),
            rest <==> exists|j: int| 0 <= j < k && digits@[j] != 0,
        decreases digits@.len() - k,
    {
        if digits[k] != 0 {
            rest = true;
        }
        k = k + 1;
    }
    (bits, rest)
}

/// The whole number in `m * 2^e` units of 2^-64; at most what a `u64` holds.
fn whole_units(m: u64, e: u32) -> (whole: u64)
    requires
        1 <= m,
    ensures
        whole == capped(m as nat * pow2(e as nat) / pow2(64)),
{
    proof {
        vstd::arithmetic::power2::lemma2_to64();
    }
    let mut value: u64 = m;
    if e >= 64 {
        let up: u32 = e - 64;
        let mut t: u32 = 0;
        proof {
            lemma_pow2_adds(up as nat, 64);
            lemma_pow2_pos(64);
            assert(m * pow2(e as nat) == (m * pow2(up as nat)) * pow2(64)) by (nonlinear_arith)
                requires
                    pow2(e as nat) == pow2(up as nat) * pow2(64),
            ;
            lemma_fundamental_div_mod_converse(
                (m * pow2(e as nat)) as int,
                pow2(64) as int,
                (m * pow2(up as nat)) as int,
                0,
            );
            assert(m * pow2(0) == m);
        }
        while t < up
            invariant
                t <= up,
                1 <= m,
                value == m * pow2(t as nat),
                (m as nat * pow2(e as nat)) / pow2(64) == m * pow2(up as nat),
            decreases up - t,
        {
            proof {
                lemma_pow2_unfold((t + 1) as nat);
                assert(m * pow2((t + 1) as nat) == 2 * (m * pow2(t as nat))) by (nonlinear_arith)
                    requires
                        pow2((t + 1) as nat) == 2 * pow2(t as nat),
                ;
            }
            if value > u64::MAX / 2 {
                proof {
                    let a = pow2((t + 1) as nat);
                    let b = pow2((up - t - 1) as nat);
                    lemma_pow2_adds((t + 1) as nat, (up - t - 1) as nat);
                    lemma_pow2_pos((up - t - 1) as nat);
                    assert(m * pow2(up as nat) >= m * a) by (nonlinear_arith)
                        requires
                            pow2(up as nat) == a * b,
                            b >= 1,
                    ;
                }
                return u64::MAX;
            }
            value = 2 * value;
            t = t + 1;
        }
        value
    } else {
        let down: u32 = 64 - e;
        let mut t: u32 = 0;
        proof {
            lemma_pow2_adds(e as nat, down as nat);
            lemma_pow2_pos(e as nat);
            lemma_pow2_pos(down as nat);
            let pe = pow2(e as nat);
            let pd = pow2(down as nat);
            lemma_fundamental_div_mod(m as int, pd as int);
            lemma_mod_bound(m as int, pd as int);
            let w = m as nat / pd;
            let r = m as nat % pd;
            assert(m * pe == w * (pe * pd) + r * pe) by (nonlinear_arith)
                requires
                    m == pd * w + r,
            ;
            assert(0 <= r * pe < pe * pd) by (nonlinear_arith)
                requires
                    0 <= r < pd,
                    pe >= 1,
            ;
            lemma_fundamental_div_mod_converse(
                (m * pe) as int,
                (pe * pd) as int,
                w as int,
                (r * pe) as int,
            );
            assert(m as nat / pow2(0) == m);
        }
        while t < down
            invariant
                t <= down <= 64,
                value == m as nat / pow2(t as nat),
                (m as nat * pow2(e as nat)) / pow2(64) == m as nat / pow2(down as nat),
            decreases down - t,
        {
            proof {
                lemma_pow2_unfold((t + 1) as nat);
                lemma_pow2_pos(t as nat);
                vstd::arithmetic::div_mod::lemma_div_denominator(
                    m as int,
                    pow2(t as nat) as int,
                    2,
                );
            }
            value = value / 2;
            t = t + 1;
        }
        value
    }
}

/// The milliseconds in a number with the whole part `whole`, none if it is too
/// large for a `u64`, and with the digits `fraction` behind the point.
fn millis(whole: Option<u64>, fraction: &Vec<u8>, seconds: bool, digits: Ghost<(nat, nat)>) -> (count:
    u64)
    requires
        are_digits(fraction@),
        match whole {
            Some(w) => digits@.0 == w * ten_to(fraction@.len()) + value_of(fraction@),
            None => digits@.0 >= pow2(64) * ten_to(fraction@.len()),
        },
        digits@.1 == fraction@.len(),
    ensures
        count == millis_of(digits@.0, digits@.1, seconds),
{
    let ghost n = digits@.0;
    let ghost t = ten_to(fraction@.len());
    let ghost value = nearest_double(n * pow2(1074), t);
    proof {
        vstd::arithmetic::power2::lemma2_to64();
        lemma_ten_to_pos(fraction@.len());
        lemma_pow2_pos(1074);
        lemma_pow2_adds(64, 1074);
        lemma_pow2_adds(64, 1010);
    }
    let high: u64 = match whole {
        Some(w) => w,
        None => {
            proof {
                lemma_too_large(n, t);
            }
            return u64::MAX;
        },
    };
    let (low, rest) = binary_fraction(fraction);
    let x: u128 = high as u128 * 0x1_0000_0000_0000_0000u128 + low as u128;
    proof {
        lemma_combined(n, t, high as nat, value_of(fraction@), low as nat, x as nat);
    }
    if x < TWO_53 as u128 {
        proof {
            lemma_too_small(n, t);
        }
        return 0;
    }
    let (m, e) = round_significand(x, rest);
    proof {
        lemma_value(n, t, x as nat, rest, m as nat, e as nat);
    }
    if !seconds {
        proof {
            lemma_whole((m * pow2(e as nat)) as nat);
        }
        return whole_units(m, e);
    }
    let (m2, e2) = round_significand(m as u128 * 1000, false);
    proof {
        lemma_product(m as nat, e as nat, m2 as nat, e2 as nat);
        lemma_whole((m2 * pow2((e + e2) as nat)) as nat);
    }
    whole_units(m2, e + e2)
}

/// A number of 2^64 or more comes to more than a `u64` holds.
proof fn lemma_too_large(n: nat, t: nat)
    requires
        t > 0,
        n >= pow2(64) * t,
    ensures
        nearest_double(n * pow2(1074), t) / pow2(1074) > u64::MAX,
        nearest_double(nearest_double(n * pow2(1074), t) * 1000, 1) / pow2(1074) > u64::MAX,
{
    vstd::arithmetic::power2::lemma2_to64();
    lemma_pow2_pos(1074);
    lemma_pow2_adds(64, 1074);
    let unit = pow2(1074);
    let top = pow2(64);
    assert(n * unit >= t * pow2(1138)) by (nonlinear_arith)
        requires
            n >= top * t,
            pow2(1138) == top * unit,
            unit > 0,
    ;
    lemma_at_least(n * unit, t, 1138);
    let value = nearest_double(n * unit, t);
    lemma_at_least(value * 1000, 1, 1138);
    let product = nearest_double(value * 1000, 1);
    lemma_reaches(value, top, unit);
    lemma_reaches(product, top, unit);
}

proof fn lemma_reaches(value: nat, top: nat, unit: nat)
    requires
        unit > 0,
        value >= top * unit,
    ensures
        value / unit >= top,
{
    lemma_fundamental_div_mod(value as int, unit as int);
    lemma_mod_bound(value as int, unit as int);
    let w = value / unit;
    let r = value % unit;
    assert(w >= top) by (nonlinear_arith)
        requires
            value == unit * w + r,
            0 <= r < unit,
            value >= top * unit,
    ;
}

/// A number below 2^-11 comes to no whole millisecond.
proof fn lemma_too_small(n: nat, t: nat)
    requires
        t > 0,
        n * pow2(64) < t * TWO_53,
    ensures
        nearest_double(n * pow2(1074), t) / pow2(1074) == 0,
        nearest_double(nearest_double(n * pow2(1074), t) * 1000, 1) / pow2(1074) == 0,
{
    vstd::arithmetic::power2::lemma2_to64();
    lemma_pow2_adds(64, 1010);
    lemma_pow2_adds(53, 1010);
    lemma_pow2_adds(1063, 10);
    lemma_pow2_pos(1010);
    lemma_pow2_pos(1063);
    lemma_pow2_unfold(1074);
    let up = pow2(1010);
    assert(n * pow2(1074) <= t * pow2(1063)) by (nonlinear_arith)
        requires
            n * pow2(64) < t * TWO_53,
            pow2(1074) == pow2(64) * up,
            pow2(1063) == TWO_53 * up,
            up > 0,
    ;
    lemma_at_most(n * pow2(1074), t, 1063);
    let value = nearest_double(n * pow2(1074), t);
    assert(value * 1000 <= 1 * pow2(1073)) by (nonlinear_arith)
        requires
            value <= pow2(1063),
            pow2(1073) == pow2(1063) * 1024,
    ;
    lemma_at_most(value * 1000, 1, 1073);
    let product = nearest_double(value * 1000, 1);
    assert(value < pow2(1074)) by (nonlinear_arith)
        requires
            value <= pow2(1063),
            pow2(1073) == pow2(1063) * 1024,
            pow2(1074) == 2 * pow2(1073),
            pow2(1063) > 0,
    ;
    lemma_fundamental_div_mod_converse(value as int, pow2(1074) as int, 0, value as int);
    lemma_fundamental_div_mod_converse(product as int, pow2(1074) as int, 0, product as int);
}

/// Whole part and fraction together, in units of 2^-64.
proof fn lemma_combined(n: nat, t: nat, high: nat, fraction: nat, low: nat, x: nat)
    requires
        t > 0,
        n == high * t + fraction,
        fraction * pow2(64) / t == low,
        x == high * pow2(64) + low,
    ensures
        n * pow2(64) / t == x,
        n * pow2(64) % t == fraction * pow2(64) % t,
        x < TWO_53 <==> n * pow2(64) < t * TWO_53,
{
    let p = pow2(64);
    lemma_fundamental_div_mod((fraction * p) as int, t as int);
    lemma_mod_bound((fraction * p) as int, t as int);
    let r = fraction * p % t;
    assert(n * p == x * t + r) by (nonlinear_arith)
        requires
            n == high * t + fraction,
            fraction * p == t * low + r,
            x == high * p + low,
    ;
    lemma_fundamental_div_mod_converse((n * p) as int, t as int, x as int, r as int);
    if x < TWO_53 {
        assert(x * t + r < t * TWO_53) by (nonlinear_arith)
            requires
                x + 1 <= TWO_53,
                r < t,
        ;
    } else {
        assert(x * t + r >= t * TWO_53) by (nonlinear_arith)
            requires
                x >= TWO_53,
                r >= 0,
        ;
    }
}

/// The double-precision number, from its significand and exponent.
proof fn lemma_value(n: nat, t: nat, x: nat, rest: bool, m: nat, e: nat)
    requires
        t > 0,
        x >= TWO_53,
        n * pow2(64) / t == x,
        n * pow2(64) % t != 0 <==> rest,
        n * pow2(64) >= t * TWO_53,
        nearest_double((2 * x + rest_bit(rest)) as nat, 2) == m * pow2(e),
    ensures
        nearest_double(n * pow2(1074), t) == pow2(1010) * (m * pow2(e)),
{
    let p = n * pow2(64);
    let p2 = (2 * x + rest_bit(rest)) as nat;
    assert(p2 / 2 == x);
    assert(p2 % 2 == rest_bit(rest));
    lemma_same_rounding(p, t, p2, 2);
    lemma_pow2_adds(64, 1010);
    assert(p * pow2(1010) == n * pow2(1074)) by (nonlinear_arith)
        requires
            p == n * pow2(64),
            pow2(1074) == pow2(64) * pow2(1010),
    ;
    assert(t * TWO_52 <= t * TWO_53) by (nonlinear_arith)
        requires
            t > 0,
    ;
    lemma_scaled(p, t, 1010);
}

/// The product with a thousand, from its significand and exponent.
proof fn lemma_product(m: nat, e: nat, m2: nat, e2: nat)
    requires
        m >= TWO_52,
        nearest_double((2 * (m * 1000) + rest_bit(false)) as nat, 2) == m2 * pow2(e2),
    ensures
        nearest_double((pow2(1010) * (m * pow2(e))) * 1000, 1) == pow2(1010) * (m2 * pow2(e + e2)),
{
    let y = m * 1000;
    assert((2 * y) as nat / 2 == y);
    lemma_same_rounding(y, 1, (2 * y) as nat, 2);
    lemma_scaled(y, 1, 1010 + e);
    lemma_pow2_adds(1010, e);
    lemma_pow2_adds(e, e2);
    let a = pow2(1010);
    let b = pow2(e);
    let c = pow2(e2);
    assert((a * (m * b)) * 1000 == y * (a * b)) by (nonlinear_arith)
        requires
            y == m * 1000,
    ;
    assert((a * b) * (m2 * c) == a * (m2 * (b * c))) by (nonlinear_arith);
}

/// Dropping the fraction is the same in units of 2^-1074 and of 2^-64.
proof fn lemma_whole(units: nat)
    ensures
        (pow2(1010) * units) / pow2(1074) == units / pow2(64),
{
    lemma_pow2_adds(64, 1010);
    lemma_pow2_pos(64);
    lemma_pow2_pos(1010);
    let a = pow2(1010);
    let b = pow2(64);
    lemma_fundamental_div_mod(units as int, b as int);
    lemma_mod_bound(units as int, b as int);
    let w = units / b;
    let r = units % b;
    assert(a * units == w * (b * a) + a * r) by (nonlinear_arith)
        requires
            units == b * w + r,
    ;
    assert(0 <= a * r < b * a) by (nonlinear_arith)
        requires
            0 <= r < b,
            a > 0,
    ;
    lemma_fundamental_div_mod_converse((a * units) as int, (b * a) as int, w as int, (a * r) as int);
}

/// Reads a duration: the number of `unit`s, as whole milliseconds. The number is
/// written with digits and at most one point, all that the pattern for a duration
/// lets through.
pub fn duration_millis(number: &str, unit: &str) -> (duration: Option<u64>)
    ensures
        duration matches Some(d) ==> duration_of(number@, unit@) == Some(d as nat),
        duration is None ==> duration_of(number@, unit@) is None,
{
    let chars = to_chars(number);
    let unit_chars = to_chars(unit);
    let seconds = !same_text(&unit_chars, "ms");
    let ghost text = number@;
    let mut point: usize = 0;
    assert(text.skip(0) == text);
    while point < chars.len() && chars[point] != '.'
        invariant
            chars@ == text,
            point <= text.len(),
            len_before(text, '.') == point + len_before(text.skip(point as int), '.'),
        decreases text.len() - point,
    {
        assert(text.skip(point as int).skip(1) == text.skip(point + 1));
        point = point + 1;
    }
    assert(len_before(text.skip(point as int), '.') == 0);
    let ghost before = text.take(point as int);
    let ghost after = if point < text.len() {
        text.skip(point + 1)
    } else {
        seq![]
    };
    let mut whole: Option<u64> = Some(0);
    let mut i: usize = 0;
    proof {
        vstd::arithmetic::power2::lemma2_to64();
    }
    while i < point
        invariant
            chars@ == text,
            text == number@,
            i <= point <= text.len(),
            before == text.take(point as int),
            all_digits(before.take(i as int)),
            match whole {
                Some(w) => w == digits_value(before.take(i as int)),
                None => digits_value(before.take(i as int)) >= pow2(64),
            },
            pow2(64) == 0x1_0000_0000_0000_0000,
            len_before(text, '.') == point,
        decreases point - i,
    {
        let c = chars[i];
        assert(before[i as int] == c);
        if c < '0' || c > '9' {
            assert(!all_digits(before));
            return None;
        }
        let d = (c as u32 - 48) as u64;
        proof {
            assert(before.take(i + 1).drop_last() == before.take(i as int));
            assert forall|k: int| 0 <= k < i + 1 implies is_digit(
                #[trigger] before.take(i + 1)[k],
            ) by {
                if k < i {
                    assert(before.take(i as int)[k] == before.take(i + 1)[k]);
                }
            }
        }
        whole = match whole {
            Some(w) => {
                if w > u64::MAX / 10 || w * 10 > u64::MAX - d {
                    None
                } else {
                    Some(w * 10 + d)
                }
            },
            None => None,
        };
        i = i + 1;
    }
    assert(before.take(i as int) == before);
    let mut fraction: Vec<u8> = Vec::new();
    let mut j: usize = if point < chars.len() {
        point + 1
    } else {
        point
    };
    let ghost first = j;
    while j < chars.len()
        invariant
            chars@ == text,
            text == number@,
            point < text.len() ==> first == point + 1,
            point >= text.len() ==> first == text.len(),
            point <= text.len(),
            first <= j <= text.len(),
            after == text.skip(first as int),
            fraction@.len() == j - first,
            are_digits(fraction@),
            all_digits(after.take(j - first)),
            value_of(fraction@) == digits_value(after.take(j - first)),
            len_before(text, '.') == point,
            before == text.take(point as int),
            after == (if point < text.len() {
                text.skip(point + 1)
            } else {
                seq![]
            }),
        decreases text.len() - j,
    {
        let c = chars[j];
        let ghost k = j - first;
        assert(after[k] == c);
        if c < '0' || c > '9' {
            assert(!all_digits(after));
            return None;
        }
        let d = (c as u32 - 48) as u8;
        proof {
            lemma_value_push(fraction@, d);
            assert(after.take(k + 1).drop_last() == after.take(k));
            assert forall|m: int| 0 <= m < k + 1 implies is_digit(
                #[trigger] after.take(k + 1)[m],
            ) by {
                if m < k {
                    assert(after.take(k)[m] == after.take(k + 1)[m]);
                }
            }
        }
        fraction.push(d);
        j = j + 1;
    }
    assert(after.take(j - first) == after);
    if point == 0 && fraction.len() == 0 {
        return None;
    }
    proof {
        lemma_digits_value_add(before, after);
        if whole is None {
            let t = ten_to(after.len());
            let w = digits_value(before);
            assert(w * t + digits_value(after) >= pow2(64) * t) by (nonlinear_arith)
                requires
                    w >= pow2(64),
                    digits_value(after) >= 0,
                    t >= 0,
            ;
        }
    }
    Some(
        millis(
            whole,
            &fraction,
            seconds,
            Ghost((digits_value(before + after), after.len())),
        ),
    )
}

} // verus!
