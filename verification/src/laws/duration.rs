//! Laws of rounding and of durations.

use crate::binary64::{
    lemma_at_least, lemma_at_most, lemma_same_rounding, nearest_double, nearest_whole, TWO_53,
};
use crate::duration::{
    capped, decimal_fraction, duration_of, lemma_ten_to_pos, millis_of, ten_to,
};
use crate::laws::text::{lemma_decimal, lemma_len_before, lemma_len_before_is};
use crate::text::{all_digits, decimal, digits_value, is_digit, len_before};
use vstd::arithmetic::div_mod::{
    lemma_fundamental_div_mod, lemma_fundamental_div_mod_converse, lemma_mod_bound,
};
use vstd::arithmetic::power2::{lemma_pow2_pos, lemma_pow2_unfold, pow2};
use vstd::prelude::*;

verus! {

/// Whether `d` has at most 53 significant bits.
pub open spec fn fits_53_bits(d: nat) -> bool
    decreases d,
{
    d < TWO_53 || (d % 2 == 0 && fits_53_bits(d / 2))
}

/// How far `d * q` is from `p`.
pub open spec fn distance(d: nat, q: nat, p: nat) -> nat {
    if d * q >= p {
        (d * q - p) as nat
    } else {
        (p - d * q) as nat
    }
}

proof fn lemma_nearest_whole(p: nat, q: nat, d: nat)
    requires
        q > 0,
    ensures
        distance(nearest_whole(p, q), q, p) <= distance(d, q, p),
{
    lemma_fundamental_div_mod(p as int, q as int);
    lemma_mod_bound(p as int, q as int);
    let w = p / q;
    let r = p % q;
    assert((w + 1) * q == w * q + q) by (nonlinear_arith);
    assert(w * q == q * w) by (nonlinear_arith);
    if d <= w {
        assert(d * q <= w * q) by (nonlinear_arith)
            requires
                d <= w,
        ;
    } else {
        assert(d * q >= (w + 1) * q) by (nonlinear_arith)
            requires
                d >= w + 1,
        ;
    }
}

/// No number with at most 53 significant bits is nearer to `p / q` than its
/// rounding, and the rounding has at most 53 significant bits itself.
pub proof fn law_nearest_double_is_nearest(p: nat, q: nat, d: nat)
    requires
        q > 0,
        fits_53_bits(d),
    ensures
        fits_53_bits(nearest_double(p, q)),
        distance(nearest_double(p, q), q, p) <= distance(d, q, p),
    decreases p - q,
{
    let n = nearest_double(p, q);
    if p < q * TWO_53 {
        lemma_nearest_whole(p, q, d);
        lemma_fundamental_div_mod(p as int, q as int);
        lemma_mod_bound(p as int, q as int);
        let w = p / q;
        let r = p % q;
        assert(w < TWO_53) by (nonlinear_arith)
            requires
                p == q * w + r,
                r >= 0,
                p < q * TWO_53,
        ;
        assert(n <= TWO_53);
        assert(fits_53_bits((TWO_53 / 2) as nat));
        assert(fits_53_bits(TWO_53 as nat));
    } else {
        let half = nearest_double(p, 2 * q);
        assert(n == 2 * half);
        assert(n * q == half * (2 * q)) by (nonlinear_arith)
            requires
                n == 2 * half,
        ;
        if d >= TWO_53 {
            let e = d / 2;
            assert(d == 2 * e);
            law_nearest_double_is_nearest(p, 2 * q, e);
            assert(d * q == e * (2 * q)) by (nonlinear_arith)
                requires
                    d == 2 * e,
            ;
        } else {
            let e = (TWO_53 / 2) as nat;
            assert(fits_53_bits(e));
            law_nearest_double_is_nearest(p, 2 * q, e);
            assert(e * (2 * q) == q * TWO_53) by (nonlinear_arith)
                requires
                    2 * e == TWO_53,
            ;
            assert(d * q <= q * TWO_53) by (nonlinear_arith)
                requires
                    d <= TWO_53,
            ;
        }
        assert(n / 2 == half);
        assert(n % 2 == 0);
    }
}

/// A number with at most 53 significant bits is rounded to itself.
pub proof fn law_doubles_are_exact(d: nat, q: nat)
    requires
        q > 0,
        fits_53_bits(d),
    ensures
        nearest_double(d * q, q) == d,
    decreases d,
{
    if d < TWO_53 {
        assert(d * q < q * TWO_53) by (nonlinear_arith)
            requires
                q > 0,
                d < TWO_53,
        ;
        lemma_fundamental_div_mod_converse((d * q) as int, q as int, d as int, 0);
    } else {
        let e = d / 2;
        assert(d * q >= q * TWO_53) by (nonlinear_arith)
            requires
                d >= TWO_53,
        ;
        assert(d * q == e * (2 * q)) by (nonlinear_arith)
            requires
                d == 2 * e,
        ;
        law_doubles_are_exact(e, 2 * q);
    }
}

/// The rounding of a greater number is no smaller.
pub proof fn law_rounding_keeps_order(a: nat, b: nat, q: nat)
    requires
        q > 0,
        a <= b,
    ensures
        nearest_double(a, q) <= nearest_double(b, q),
    decreases b - q,
{
    if b < q * TWO_53 {
        lemma_nearest_whole_keeps_order(a, b, q);
    } else if a >= q * TWO_53 {
        law_rounding_keeps_order(a, b, 2 * q);
    } else {
        vstd::arithmetic::power2::lemma2_to64();
        vstd::arithmetic::power2::lemma2_to64_rest();
        assert(pow2(53) == TWO_53);
        lemma_at_most(a, q, 53);
        lemma_at_least(b, q, 53);
    }
}

proof fn lemma_nearest_whole_keeps_order(a: nat, b: nat, q: nat)
    requires
        q > 0,
        a <= b,
    ensures
        nearest_whole(a, q) <= nearest_whole(b, q),
{
    lemma_fundamental_div_mod(a as int, q as int);
    lemma_mod_bound(a as int, q as int);
    lemma_fundamental_div_mod(b as int, q as int);
    lemma_mod_bound(b as int, q as int);
    let v = a / q;
    let w = b / q;
    vstd::arithmetic::div_mod::lemma_div_is_ordered(a as int, b as int, q as int);
    if v == w {
        assert(a % q <= b % q);
    }
}

/// Scaling both parts of a quotient does not change its rounding.
proof fn lemma_same_quotient(p: nat, q: nat, c: nat)
    requires
        q > 0,
        c > 0,
    ensures
        nearest_double(p * c, q * c) == nearest_double(p, q),
{
    lemma_fundamental_div_mod(p as int, q as int);
    lemma_mod_bound(p as int, q as int);
    let w = p / q;
    let r = p % q;
    let q2 = q * c;
    assert(p * c == w * q2 + r * c) by (nonlinear_arith)
        requires
            p == q * w + r,
            q2 == q * c,
    ;
    assert(q2 > 0 && 0 <= r * c < q2) by (nonlinear_arith)
        requires
            q2 == q * c,
            0 <= r < q,
            c > 0,
    ;
    lemma_fundamental_div_mod_converse((p * c) as int, q2 as int, w as int, (r * c) as int);
    assert(r * c == 0 <==> r == 0) by (nonlinear_arith)
        requires
            c > 0,
            r >= 0,
    ;
    if p < q * TWO_53 {
        assert(p * c < q2 * TWO_53) by (nonlinear_arith)
            requires
                p < q * TWO_53,
                c > 0,
                q2 == q * c,
        ;
        assert(2 * (r * c) > q2 <==> 2 * r > q) by (nonlinear_arith)
            requires
                c > 0,
                q2 == q * c,
        ;
        assert(2 * (r * c) == q2 <==> 2 * r == q) by (nonlinear_arith)
            requires
                c > 0,
                q2 == q * c,
        ;
    } else {
        assert(w >= TWO_53) by (nonlinear_arith)
            requires
                p == q * w + r,
                r < q,
                p >= q * TWO_53,
        ;
        lemma_same_rounding(p * c, q2, p, q);
    }
}

proof fn lemma_fits_scaled(d: nat, e: nat)
    requires
        fits_53_bits(d),
    ensures
        fits_53_bits(d * pow2(e)),
    decreases e,
{
    if e == 0 {
        vstd::arithmetic::power2::lemma2_to64();
        assert(d * 1 == d);
    } else {
        let f = (e - 1) as nat;
        lemma_fits_scaled(d, f);
        lemma_pow2_unfold(e);
        let s = d * pow2(f);
        assert(d * pow2(e) == 2 * s) by (nonlinear_arith)
            requires
                s == d * pow2(f),
                pow2(e) == 2 * pow2(f),
        ;
        assert((2 * s) as nat / 2 == s);
    }
}

proof fn lemma_units(n: nat)
    ensures
        n * pow2(1074) / pow2(1074) == n,
{
    lemma_pow2_pos(1074);
    lemma_fundamental_div_mod_converse((n * pow2(1074)) as int, pow2(1074) as int, n as int, 0);
}

/// Whole milliseconds of at most 53 significant bits come out as they were
/// written.
pub proof fn law_whole_milliseconds_are_exact(n: nat)
    requires
        fits_53_bits(n),
    ensures
        millis_of(n, 0, false) == capped(n),
{
    lemma_fits_scaled(n, 1074);
    law_doubles_are_exact(n * pow2(1074), 1);
    assert((n * pow2(1074)) * 1 == n * pow2(1074));
    assert(ten_to(0) == 1);
    lemma_units(n);
}

/// Whole seconds come out as a thousand milliseconds each, where these have at
/// most 53 significant bits.
pub proof fn law_whole_seconds_are_exact(n: nat)
    requires
        fits_53_bits(n),
        fits_53_bits(n * 1000),
    ensures
        millis_of(n, 0, true) == capped(n * 1000),
{
    let unit = pow2(1074);
    lemma_fits_scaled(n, 1074);
    law_doubles_are_exact(n * unit, 1);
    assert((n * unit) * 1 == n * unit);
    assert(ten_to(0) == 1);
    lemma_fits_scaled(n * 1000, 1074);
    law_doubles_are_exact((n * 1000) * unit, 1);
    assert(((n * 1000) * unit) * 1 == (n * 1000) * unit);
    assert((n * unit) * 1000 == (n * 1000) * unit) by (nonlinear_arith);
    lemma_units(n * 1000);
}

/// A longer duration never comes out shorter.
pub proof fn law_durations_keep_order(a: nat, b: nat, k: nat, seconds: bool)
    requires
        a <= b,
    ensures
        millis_of(a, k, seconds) <= millis_of(b, k, seconds),
{
    let unit = pow2(1074);
    lemma_pow2_pos(1074);
    lemma_ten_to_pos(k);
    assert(a * unit <= b * unit) by (nonlinear_arith)
        requires
            a <= b,
    ;
    law_rounding_keeps_order(a * unit, b * unit, ten_to(k));
    let x = nearest_double(a * unit, ten_to(k));
    let y = nearest_double(b * unit, ten_to(k));
    law_rounding_keeps_order(x * 1000, y * 1000, 1);
    let m = if seconds {
        nearest_double(x * 1000, 1)
    } else {
        x
    };
    let n = if seconds {
        nearest_double(y * 1000, 1)
    } else {
        y
    };
    vstd::arithmetic::div_mod::lemma_div_is_ordered(m as int, n as int, unit as int);
}

/// A zero at the end of the digits behind the point changes nothing.
pub proof fn law_trailing_zero_does_not_matter(digits: nat, k: nat, seconds: bool)
    ensures
        millis_of(digits * 10, k + 1, seconds) == millis_of(digits, k, seconds),
{
    let unit = pow2(1074);
    lemma_ten_to_pos(k);
    assert(ten_to(k + 1) == ten_to(k) * 10);
    lemma_same_quotient(digits * unit, ten_to(k), 10);
    assert((digits * 10) * unit == (digits * unit) * 10) by (nonlinear_arith);
}

/// The unit is milliseconds where it is written so; any other unit counts as
/// seconds.
pub proof fn law_any_other_unit_is_seconds(number: Seq<char>, a: Seq<char>, b: Seq<char>)
    requires
        a != "ms"@,
        b != "ms"@,
    ensures
        duration_of(number, a) == duration_of(number, b),
{
}

/// The powers of ten.
pub proof fn law_powers_of_ten(k: nat)
    ensures
        ten_to(0) == 1,
        ten_to(k + 1) == 10 * ten_to(k),
{
}

/// Below 53 bits a quotient is rounded to the nearest whole number: none is more than half
/// away.
pub proof fn law_rounding_is_to_the_nearest_whole_number(p: nat, q: nat)
    requires
        q > 0,
        p < q * 0x20_0000_0000_0000,
    ensures
        2 * p <= 2 * (nearest_double(p, q) * q) + q,
        2 * (nearest_double(p, q) * q) <= 2 * p + q,
{
    let w = p / q;
    let r = p % q;
    lemma_fundamental_div_mod(p as int, q as int);
    lemma_mod_bound(p as int, q as int);
    assert(w * q == q * w) by (nonlinear_arith);
    assert((w + 1) * q == w * q + q) by (nonlinear_arith);
}

/// Of two whole numbers that are equally near, the even one is taken, and beyond 53 bits
/// the rounding is twice that of half the quotient.
pub proof fn law_ties_go_to_the_even_number(p: nat, q: nat, w: nat)
    requires
        q > 0,
    ensures
        p < q * 0x20_0000_0000_0000 && 2 * p == (2 * w + 1) * q ==> nearest_double(p, q) == (if w
            % 2 == 0 {
            w
        } else {
            w + 1
        }),
        p >= q * 0x20_0000_0000_0000 ==> nearest_double(p, q) == 2 * nearest_double(p, 2 * q),
{
    if p < q * 0x20_0000_0000_0000 && 2 * p == (2 * w + 1) * q {
        let r = p - w * q;
        assert(2 * r == q) by (nonlinear_arith)
            requires
                r == p - w * q,
                2 * p == (2 * w + 1) * q,
        ;
        assert(p == w * q + r);
        lemma_fundamental_div_mod_converse(p as int, q as int, w as int, r);
    }
}

/// What stands behind the point is cut off, of the number nearest to the one that is
/// written or, for seconds, of the number nearest to a thousand times that; what a `u64`
/// cannot hold becomes the greatest it can.
pub proof fn law_milliseconds_are_cut_off(digits: nat, k: nat, seconds: bool)
    ensures
        ({
            let written = nearest_double(digits * pow2(1074), ten_to(k));
            let exact = if seconds {
                nearest_double(written * 1000, 1)
            } else {
                written
            };
            let millis = millis_of(digits, k, seconds);
            &&& millis <= 0xffff_ffff_ffff_ffff
            &&& millis * pow2(1074) <= exact
            &&& millis < 0xffff_ffff_ffff_ffff ==> exact < (millis + 1) * pow2(1074)
        }),
{
    let unit = pow2(1074);
    lemma_pow2_pos(1074);
    let written = nearest_double(digits * unit, ten_to(k));
    let exact = if seconds {
        nearest_double(written * 1000, 1)
    } else {
        written
    };
    let w = exact / unit;
    let r = exact % unit;
    lemma_fundamental_div_mod(exact as int, unit as int);
    lemma_mod_bound(exact as int, unit as int);
    let millis = millis_of(digits, k, seconds);
    assert(millis * unit <= exact) by (nonlinear_arith)
        requires
            exact == unit * w + r,
            r >= 0,
            millis <= w,
    ;
    assert(exact < (w + 1) * unit) by (nonlinear_arith)
        requires
            exact == unit * w + r,
            r < unit,
    ;
}

/// Zeros at the end of the digits behind the point change nothing, however many.
proof fn lemma_zeros_do_not_matter(n: nat, k: nat, seconds: bool)
    ensures
        millis_of(n * ten_to(k), k, seconds) == millis_of(n, 0, seconds),
    decreases k,
{
    if k == 0 {
        assert(n * ten_to(k) == n) by (nonlinear_arith)
            requires
                ten_to(k) == 1,
        ;
    } else {
        let f = (k - 1) as nat;
        lemma_zeros_do_not_matter(n, f, seconds);
        law_trailing_zero_does_not_matter(n * ten_to(f), f, seconds);
        assert(n * ten_to(k) == (n * ten_to(f)) * 10) by (nonlinear_arith)
            requires
                ten_to(k) == 10 * ten_to(f),
        ;
    }
}

/// A duration between two whole numbers of seconds comes out between them.
pub proof fn law_duration_lies_between_whole_seconds(digits: nat, k: nat, n: nat)
    requires
        n * ten_to(k) <= digits <= (n + 1) * ten_to(k),
        (n + 1) * 1000 < 0x20_0000_0000_0000,
    ensures
        n * 1000 <= millis_of(digits, k, true) <= (n + 1) * 1000,
{
    law_durations_keep_order(n * ten_to(k), digits, k, true);
    law_durations_keep_order(digits, (n + 1) * ten_to(k), k, true);
    lemma_zeros_do_not_matter(n, k, true);
    lemma_zeros_do_not_matter(n + 1, k, true);
    law_whole_seconds_are_exact(n);
    law_whole_seconds_are_exact(n + 1);
}

/// A duration between two whole numbers of milliseconds comes out as the first or the
/// second of them, and as the second only by rounding.
pub proof fn law_duration_lies_between_whole_milliseconds(digits: nat, k: nat, n: nat)
    requires
        n * ten_to(k) <= digits <= (n + 1) * ten_to(k),
        n + 1 < 0x20_0000_0000_0000,
    ensures
        n <= millis_of(digits, k, false) <= n + 1,
{
    law_durations_keep_order(n * ten_to(k), digits, k, false);
    law_durations_keep_order(digits, (n + 1) * ten_to(k), k, false);
    lemma_zeros_do_not_matter(n, k, false);
    lemma_zeros_do_not_matter(n + 1, k, false);
    law_whole_milliseconds_are_exact(n);
    law_whole_milliseconds_are_exact(n + 1);
}

/// A number is one or more digits, with a point before, between or behind them or none.
pub proof fn law_number_is_digits_and_a_point(
    whole: Seq<char>,
    fraction: Seq<char>,
    unit: Seq<char>,
)
    requires
        forall|i: int| 0 <= i < whole.len() ==> '0' <= #[trigger] whole[i] <= '9',
        forall|i: int| 0 <= i < fraction.len() ==> '0' <= #[trigger] fraction[i] <= '9',
    ensures
        ({
            let pointed = whole + seq!['.'] + fraction;
            let seconds = unit != "ms"@;
            &&& whole.len() > 0 ==> duration_of(whole, unit) == Some(
                millis_of(digits_value(whole), 0, seconds),
            )
            &&& whole.len() + fraction.len() > 0 ==> duration_of(pointed, unit) == Some(
                millis_of(digits_value(whole + fraction), fraction.len(), seconds),
            )
            &&& whole.len() == 0 ==> duration_of(whole, unit) is None
            &&& whole.len() + fraction.len() == 0 ==> duration_of(pointed, unit) is None
        }),
{
    let pointed = whole + seq!['.'] + fraction;
    let n = whole.len() as int;
    assert forall|i: int| 0 <= i < n implies whole[i] != '.' && is_digit(#[trigger] whole[i]) by {}
    assert forall|i: int| 0 <= i < fraction.len() implies is_digit(#[trigger] fraction[i]) by {}
    assert(all_digits(whole));
    assert(all_digits(fraction));
    lemma_len_before_is(whole, '.', n);
    assert(whole.take(n) =~= whole);
    assert(whole + Seq::<char>::empty() =~= whole);
    assert(pointed[n] == '.');
    assert forall|i: int| 0 <= i < n implies pointed[i] != '.' by {
        assert(pointed[i] == whole[i]);
    }
    lemma_len_before_is(pointed, '.', n);
    assert(pointed.take(n) =~= whole);
    assert(pointed.skip(n + 1) =~= fraction);
}

/// A text with any other character, or with two points, is no number.
pub proof fn law_any_other_text_is_no_number(text: Seq<char>, i: int, j: int, unit: Seq<char>)
    requires
        0 <= i < text.len(),
        ({
            ||| text[i] != '.' && !('0' <= text[i] <= '9')
            ||| i < j < text.len() && text[i] == '.' && text[j] == '.'
        }),
    ensures
        duration_of(text, unit) is None,
{
    lemma_len_before(text, '.');
    let point = len_before(text, '.') as int;
    let whole = text.take(point);
    let fraction = if point < text.len() {
        text.skip(point + 1)
    } else {
        seq![]
    };
    let bad = if text[i] != '.' {
        i
    } else {
        j
    };
    if bad < point {
        assert(whole[bad] == text[bad]);
        assert(!is_digit(whole[bad]));
    } else if bad > point {
        assert(fraction[bad - point - 1] == text[bad]);
        assert(!is_digit(fraction[bad - point - 1]));
    }
    assert(!(all_digits(whole) && all_digits(fraction)));
    assert(decimal_fraction(text) is None);
}

/// Whole seconds and whole milliseconds that are written in decimal come out exactly, where
/// the milliseconds have at most 53 bits.
pub proof fn law_written_seconds_are_exact(n: nat)
    ensures
        n * 1000 < 0x20_0000_0000_0000 ==> duration_of(decimal(n), "s"@) == Some(n * 1000),
        n < 0x20_0000_0000_0000 ==> duration_of(decimal(n), "ms"@) == Some(n),
{
    reveal_strlit("s");
    reveal_strlit("ms");
    lemma_decimal(n);
    let text = decimal(n);
    assert forall|i: int| 0 <= i < text.len() implies '0' <= #[trigger] text[i] <= '9' by {
        assert(is_digit(text[i]));
    }
    law_number_is_digits_and_a_point(text, Seq::empty(), "s"@);
    law_number_is_digits_and_a_point(text, Seq::empty(), "ms"@);
    assert("s"@.len() != "ms"@.len());
    if n * 1000 < 0x20_0000_0000_0000 {
        law_whole_seconds_are_exact(n);
    }
    if n < 0x20_0000_0000_0000 {
        law_whole_milliseconds_are_exact(n);
    }
}

/// The digits of two texts, one behind the other.
proof fn lemma_digits_append(a: Seq<char>, b: Seq<char>)
    requires
        all_digits(b),
    ensures
        digits_value(a + b) == digits_value(a) * ten_to(b.len()) + digits_value(b),
        digits_value(b) < ten_to(b.len()),
    decreases b.len(),
{
    if b.len() == 0 {
        assert(a + b =~= a);
        assert(digits_value(a) * 1 == digits_value(a));
    } else {
        let f = b.drop_last();
        assert forall|i: int| 0 <= i < f.len() implies is_digit(#[trigger] f[i]) by {
            assert(f[i] == b[i]);
        }
        lemma_digits_append(a, f);
        assert((a + b).drop_last() =~= a + f);
        assert((a + b).last() == b.last());
        assert(is_digit(b[b.len() - 1]));
        let v = digits_value(a);
        let t = ten_to(f.len());
        assert(ten_to(b.len()) == 10 * t);
        assert((v * t + digits_value(f)) * 10 == v * (10 * t) + digits_value(f) * 10)
            by (nonlinear_arith);
    }
}

/// Seconds that are written in decimal with a fraction come out between the whole seconds
/// below and above them.
pub proof fn law_written_fraction_lies_between(n: nat, fraction: Seq<char>)
    requires
        forall|i: int| 0 <= i < fraction.len() ==> '0' <= #[trigger] fraction[i] <= '9',
        (n + 1) * 1000 < 0x20_0000_0000_0000,
    ensures
        ({
            let millis = duration_of(decimal(n) + seq!['.'] + fraction, "s"@);
            &&& millis is Some
            &&& n * 1000 <= millis->0 <= (n + 1) * 1000
        }),
{
    reveal_strlit("s");
    reveal_strlit("ms");
    assert("s"@.len() != "ms"@.len());
    lemma_decimal(n);
    let text = decimal(n);
    assert forall|i: int| 0 <= i < text.len() implies '0' <= #[trigger] text[i] <= '9' by {
        assert(is_digit(text[i]));
    }
    assert forall|i: int| 0 <= i < fraction.len() implies is_digit(#[trigger] fraction[i]) by {}
    law_number_is_digits_and_a_point(text, fraction, "s"@);
    lemma_digits_append(text, fraction);
    let k = fraction.len();
    assert((n + 1) * ten_to(k) == n * ten_to(k) + ten_to(k)) by (nonlinear_arith);
    law_duration_lies_between_whole_seconds(digits_value(text + fraction), k, n);
}

} // verus!
