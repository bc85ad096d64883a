//! What a number comes to when it is held in double precision, and how such a
//! number is written.
//!
//! A double holds 53 significant bits. Every number here is a fraction of two
//! whole numbers, so nothing is lost until it is rounded to as many.

use vstd::prelude::*;

use crate::natural;
use crate::natural::Natural;
use crate::text;

verus! {

/// Two to the 53rd: the whole numbers up to it are doubles, every one.
pub const TOP: u64 = 0x20_0000_0000_0000;

/// Two to the `n`.
pub open spec fn two_to(n: nat) -> nat
    decreases n,
{
    if n == 0 {
        1
    } else {
        2 * two_to((n - 1) as nat)
    }
}

/// The whole number nearest to `num / den`, a half rounding up.
pub open spec fn nearest(num: nat, den: nat) -> nat
    recommends
        den > 0,
{
    (2 * num + den) / (2 * den)
}

/// The whole number nearest to `num / den`, a half rounding to the even one.
pub open spec fn nearest_even(num: nat, den: nat) -> nat
    recommends
        den > 0,
{
    let whole = num / den;
    let rest = num % den;
    if 2 * rest > den || (2 * rest == den && whole % 2 == 1) {
        whole + 1
    } else {
        whole
    }
}

/// How often `num / den` is halved before it is no more than [`TOP`].
pub open spec fn halvings(num: nat, den: nat) -> nat
    decreases
            (if num > TOP * den {
                (num - TOP * den) as nat
            } else {
                0
            }),
{
    if den == 0 || num <= TOP * den {
        0
    } else {
        1 + halvings(num, 2 * den)
    }
}

/// How often `num / den` can be doubled and still be no more than [`TOP`].
pub open spec fn doublings(num: nat, den: nat) -> nat
    decreases
            (if num < TOP * den {
                (TOP * den - num) as nat
            } else {
                0
            }),
{
    if num == 0 || 2 * num > TOP * den {
        0
    } else {
        1 + doublings(2 * num, den)
    }
}

/// The double nearest to `num / den`, where that is above [`TOP`]: a whole
/// number, rounded to its first 53 bits.
pub open spec fn double_above(num: nat, den: nat) -> nat {
    let scale = two_to(halvings(num, den));
    nearest_even(num, den * scale) * scale
}

/// The whole number nearest to the double nearest to `num / den`, where that
/// is up to [`TOP`].
pub open spec fn rounded(num: nat, den: nat) -> nat {
    let scale = two_to(doublings(num, den));
    nearest(nearest_even(num * scale, den), scale)
}

/// The double that a whole number reads as.
pub open spec fn reads_as(n: nat) -> nat {
    double_above(n, 1)
}

/// The number ending in `k` zeroes that is nearest to a double among those on
/// either side that read as it, the one above where they are as near. Nothing
/// if neither does.
pub open spec fn with_zeroes(double: nat, k: nat) -> Option<nat> {
    let ten = natural::ten_to(k);
    let below = double / ten * ten;
    let above = below + ten;
    if reads_as(below) == double && (reads_as(above) != double || 2 * (double - below) < ten) {
        Some(below)
    } else if reads_as(above) == double {
        Some(above)
    } else {
        None
    }
}

/// The number that reads as a double and ends in as many zeroes as any up to
/// `k`.
pub open spec fn shortest_from(double: nat, k: nat) -> nat
    decreases k,
{
    match with_zeroes(double, k) {
        Some(n) => n,
        None => if k == 0 {
            double
        } else {
            shortest_from(double, (k - 1) as nat)
        },
    }
}

/// How a double that is a whole number is written: with no more digits than
/// tell it from the others, and zeroes for the rest.
pub open spec fn shortest(double: nat) -> nat {
    shortest_from(double, text::decimal_of(double).len())
}

/// The first power of two that is too much for a double.
pub const LIMIT: u64 = 1024;

/// How the whole number nearest to the double nearest to `num / den` is
/// written. The double is infinite if it is too large, or was before it was
/// divided by `per`.
pub open spec fn shown(num: nat, den: nat, per: nat) -> Seq<char> {
    if num <= TOP * den {
        text::decimal_of(rounded(num, den))
    } else if double_above(num, den) * per >= two_to(LIMIT as nat) {
        "inf"@
    } else {
        text::decimal_of(shortest(double_above(num, den)))
    }
}

/// How the double nearest to `num / den` is written to one decimal, a half
/// rounding to the even one.
pub open spec fn to_a_tenth(num: nat, den: nat) -> Seq<char> {
    if num <= TOP * den {
        let scale = two_to(doublings(num, den));
        let tenths = nearest_even(10 * nearest_even(num * scale, den), scale);
        text::decimal_of(tenths / 10) + seq!['.'] + text::decimal_of(tenths % 10)
    } else if double_above(num, den) >= two_to(LIMIT as nat) {
        "inf"@
    } else {
        text::decimal_of(double_above(num, den)) + seq!['.'] + text::decimal_of(0)
    }
}

/// Two to the zero is one, and once a number is the number.
proof fn lemma_two_to_zero(n: int)
    ensures
        two_to(0) == 1,
        two_to(0) * n == n,
        n * two_to(0) == n,
{
    assert(two_to(0) == 1);
    assert(two_to(0) * n == n && n * two_to(0) == n) by (nonlinear_arith)
        requires
            two_to(0) == 1,
    ;
}

/// A power of two is not zero, and a greater power is no smaller.
proof fn lemma_twos_grow(a: nat, b: nat)
    requires
        a <= b,
    ensures
        1 <= two_to(a) <= two_to(b),
    decreases b,
{
    if a < b {
        lemma_twos_grow(a, (b - 1) as nat);
    } else if b > 0 {
        lemma_twos_grow((a - 1) as nat, (b - 1) as nat);
    }
}

/// What is left of a number that has been halved so often.
proof fn lemma_halvings(num: nat, den: nat)
    requires
        den > 0,
    ensures
        num <= TOP * (den * two_to(halvings(num, den))),
        num > TOP * den ==> 2 * num > TOP * (den * two_to(halvings(num, den))),
    decreases halvings(num, den),
{
    if num <= TOP * den {
        lemma_two_to_zero(den as int);
    } else {
        let more = halvings(num, 2 * den);
        lemma_halvings(num, 2 * den);
        assert((2 * den) * two_to(more) == den * (2 * two_to(more))) by (nonlinear_arith);
        if num <= TOP * (2 * den) {
            lemma_two_to_zero((2 * den) as int);
        }
    }
}

/// A number is halved so often, if that leaves more than half of the most it
/// may.
proof fn lemma_halvings_are_these(num: nat, den: nat, h: nat)
    requires
        den > 0,
        num <= TOP * (den * two_to(h)),
        h > 0 ==> 2 * num > TOP * (den * two_to(h)),
    ensures
        halvings(num, den) == h,
    decreases h,
{
    if h == 0 {
        lemma_two_to_zero(den as int);
    } else {
        let less = two_to((h - 1) as nat);
        lemma_twos_grow(0, (h - 1) as nat);
        assert(den * (2 * less) == (2 * den) * less) by (nonlinear_arith);
        assert((2 * den) * less >= 2 * den) by (nonlinear_arith)
            requires
                less >= 1,
        ;
        lemma_halvings_are_these(num, 2 * den, (h - 1) as nat);
    }
}

/// What a number comes to that has been doubled so often.
proof fn lemma_doublings(num: nat, den: nat)
    requires
        0 < num <= TOP * den,
    ensures
        num * two_to(doublings(num, den)) <= TOP * den,
        2 * (num * two_to(doublings(num, den))) > TOP * den,
    decreases doublings(num, den),
{
    if 2 * num > TOP * den {
        lemma_two_to_zero(num as int);
    } else {
        let more = doublings(2 * num, den);
        lemma_doublings(2 * num, den);
        assert((2 * num) * two_to(more) == num * (2 * two_to(more))) by (nonlinear_arith);
    }
}

/// Rounding does not leave the whole numbers on either side.
proof fn lemma_nearest_even_between(num: nat, den: nat, low: nat, high: nat)
    requires
        den > 0,
        low * den <= num <= high * den,
    ensures
        low <= nearest_even(num, den) <= high,
{
    let whole = num / den;
    let rest = num % den;
    vstd::arithmetic::div_mod::lemma_fundamental_div_mod(num as int, den as int);
    assert(low <= whole) by (nonlinear_arith)
        requires
            low * den <= num,
            num == den * whole + rest,
            rest < den,
            den > 0,
    ;
    assert(whole <= high && (rest > 0 ==> whole < high)) by (nonlinear_arith)
        requires
            num <= high * den,
            num == den * whole + rest,
            den > 0,
    ;
}

/// A whole number of times a number is not rounded.
proof fn lemma_whole_is_not_rounded(n: nat, den: nat)
    requires
        den > 0,
    ensures
        nearest_even(n * den, den) == n,
        nearest(n * den, den) == n,
{
    vstd::arithmetic::div_mod::lemma_fundamental_div_mod_converse(
        (n * den) as int,
        den as int,
        n as int,
        0,
    );
    assert(2 * (n * den) + den == n * (2 * den) + den) by (nonlinear_arith);
    vstd::arithmetic::div_mod::lemma_fundamental_div_mod_converse(
        (2 * (n * den) + den) as int,
        (2 * den) as int,
        n as int,
        den as int,
    );
}

/// A double above [`TOP`] is so many times a power of two, and no less than
/// half of what it was rounded from.
proof fn lemma_double_above(num: nat, den: nat)
    requires
        den > 0,
        num > TOP * den,
    ensures
        halvings(num, den) > 0,
        ({
            let scale = two_to(halvings(num, den));
            let bits = nearest_even(num, den * scale);
            &&& TOP <= 2 * bits
            &&& bits <= TOP
            &&& double_above(num, den) == bits * scale
        }),
        num <= 2 * (den * double_above(num, den)),
{
    let scale = two_to(halvings(num, den));
    lemma_halvings(num, den);
    lemma_twos_grow(0, halvings(num, den));
    assert(den * scale > 0) by (nonlinear_arith)
        requires
            den > 0,
            scale >= 1,
    ;
    let half: nat = 0x10_0000_0000_0000;
    assert(half * (den * scale) <= num);
    lemma_nearest_even_between(num, den * scale, half, TOP as nat);
    let bits = nearest_even(num, den * scale);
    assert(2 * (den * (bits * scale)) == (2 * bits) * (den * scale)) by (nonlinear_arith);
    assert((2 * bits) * (den * scale) >= TOP * (den * scale)) by (nonlinear_arith)
        requires
            2 * bits >= TOP,
    ;
}

/// A whole number up to [`TOP`] reads as itself.
pub proof fn lemma_few_digits_read_as_themselves(n: nat)
    requires
        n <= TOP,
    ensures
        reads_as(n) == n,
{
    lemma_two_to_zero(1);
    lemma_whole_is_not_rounded(n, 1);
    lemma_two_to_zero(n as int);
}

/// A double reads as itself.
pub proof fn lemma_a_double_reads_as_itself(num: nat, den: nat)
    requires
        den > 0,
    ensures
        reads_as(double_above(num, den)) == double_above(num, den),
{
    if num <= TOP * den {
        lemma_two_to_zero(den as int);
        lemma_nearest_even_between(num, den, 0, TOP as nat);
        lemma_two_to_zero(nearest_even(num, den) as int);
        lemma_few_digits_read_as_themselves(nearest_even(num, den));
    } else {
        lemma_a_great_double_reads_as_itself(num, den);
    }
}

/// A double above [`TOP`] reads as itself.
proof fn lemma_a_great_double_reads_as_itself(num: nat, den: nat)
    requires
        den > 0,
        num > TOP * den,
    ensures
        reads_as(double_above(num, den)) == double_above(num, den),
{
    lemma_double_above(num, den);
    let h = halvings(num, den);
    let scale = two_to(h);
    let bits = nearest_even(num, den * scale);
    let double = bits * scale;
    let less = two_to((h - 1) as nat);
    lemma_twos_grow(0, (h - 1) as nat);
    assert(scale == 2 * less);
    assert(1 * scale == scale && 1 * less == less);
    if 2 * bits == TOP {
        assert(double == TOP * less) by (nonlinear_arith)
            requires
                double == bits * scale,
                2 * bits == TOP,
                scale == 2 * less,
        ;
        lemma_halvings_are_these(double, 1, (h - 1) as nat);
        lemma_whole_is_not_rounded(TOP as nat, less);
    } else {
        assert(double <= TOP * scale) by (nonlinear_arith)
            requires
                double == bits * scale,
                bits <= TOP,
        ;
        assert(2 * double > TOP * scale) by (nonlinear_arith)
            requires
                double == bits * scale,
                2 * bits > TOP,
                scale >= 1,
        ;
        lemma_halvings_are_these(double, 1, h);
        lemma_whole_is_not_rounded(bits, scale);
    }
}

/// Powers of two multiply by adding up.
proof fn lemma_twos_multiply(a: nat, b: nat)
    ensures
        two_to(a + b) == two_to(a) * two_to(b),
    decreases a,
{
    if a > 0 {
        lemma_twos_multiply((a - 1) as nat, b);
        let less = two_to((a - 1) as nat);
        assert((a + b - 1) as nat == (a - 1) as nat + b);
        assert(2 * (less * two_to(b)) == (2 * less) * two_to(b)) by (nonlinear_arith);
    } else {
        lemma_two_to_zero(two_to(b) as int);
    }
}

/// What needs no more bits than a double has is not rounded.
proof fn lemma_few_bits_are_kept(bits: nat, k: nat, den: nat)
    requires
        bits <= TOP,
        den > 0,
    ensures
        double_above(bits * two_to(k) * den, den) == bits * two_to(k),
{
    let value = bits * two_to(k);
    let num = value * den;
    let h = halvings(num, den);
    let scale = two_to(h);
    lemma_halvings(num, den);
    lemma_twos_grow(0, h);
    lemma_twos_grow(0, k);
    if h == 0 {
        lemma_two_to_zero(den as int);
        lemma_whole_is_not_rounded(value, den);
        lemma_two_to_zero(value as int);
    } else if h <= k {
        let rest = two_to((k - h) as nat);
        lemma_twos_multiply((k - h) as nat, h);
        assert(num == (bits * rest) * (den * scale)) by (nonlinear_arith)
            requires
                num == bits * two_to(k) * den,
                two_to(k) == rest * scale,
        ;
        assert(den * scale > 0) by (nonlinear_arith)
            requires
                den > 0,
                scale >= 1,
        ;
        lemma_whole_is_not_rounded(bits * rest, den * scale);
        assert((bits * rest) * scale == bits * (rest * scale)) by (nonlinear_arith);
    } else {
        assert(num > TOP * den);
        lemma_twos_grow(k + 1, h);
        let more = two_to(k);
        assert(2 * (bits * more * den) <= TOP * (den * scale)) by (nonlinear_arith)
            requires
                bits <= TOP,
                scale >= 2 * more,
        {
            assert(bits * more * den <= TOP * more * den);
            assert(TOP * den * scale >= TOP * den * (2 * more));
        }
    }
}

/// A double, moved up by so many bits, is not rounded.
pub proof fn lemma_a_double_is_kept(n: nat, k: nat, den: nat)
    requires
        reads_as(n) == n,
        den > 0,
    ensures
        double_above(n * two_to(k) * den, den) == n * two_to(k),
{
    let h = halvings(n, 1);
    let scale = two_to(h);
    let bits = nearest_even(n, 1 * scale);
    lemma_halvings(n, 1);
    lemma_twos_grow(0, h);
    assert(1 * scale == scale);
    lemma_nearest_even_between(n, scale, 0, TOP as nat);
    lemma_twos_multiply(h, k);
    assert(n * two_to(k) == bits * two_to(h + k)) by (nonlinear_arith)
        requires
            n == bits * scale,
            two_to(h + k) == scale * two_to(k),
    ;
    lemma_few_bits_are_kept(bits, h + k, den);
}

/// Rounding is off by half of the last bit at most: one part in [`TOP`], of
/// what is nothing or has as many bits as a double before the point.
pub proof fn lemma_rounding_is_slight(num: nat, den: nat)
    requires
        den > 0,
        num == 0 || 2 * num >= TOP * den,
    ensures
        (TOP - 1) * num <= TOP * (double_above(num, den) * den) <= (TOP + 1) * num,
{
    let h = halvings(num, den);
    let scale = two_to(h);
    let part = den * scale;
    let bits = nearest_even(num, part);
    lemma_halvings(num, den);
    lemma_twos_grow(0, h);
    assert(part > 0) by (nonlinear_arith)
        requires
            part == den * scale,
            den > 0,
            scale >= 1,
    ;
    if num == 0 {
        lemma_whole_is_not_rounded(0, part);
        assert(bits * scale * den == 0) by (nonlinear_arith)
            requires
                bits == 0,
        ;
    } else {
        if h == 0 {
            lemma_two_to_zero(den as int);
        }
        assert(2 * num >= TOP * part);
        vstd::arithmetic::div_mod::lemma_fundamental_div_mod(num as int, part as int);
        let whole = num / part;
        assert(part * (whole + 1) == part * whole + part) by (nonlinear_arith);
        assert(bits * scale * den == part * bits) by (nonlinear_arith)
            requires
                part == den * scale,
        ;
    }
}

/// A whole number over a power of two is a double, so it is rounded once: to
/// the nearest whole number, a half upwards.
pub proof fn lemma_a_fraction_of_two_is_rounded(n: nat, k: nat)
    requires
        n <= TOP,
        k == 10 || k == 20,
    ensures
        two_to(10) == 1024,
        two_to(20) == 1024 * 1024,
        rounded(n, two_to(k)) == (2 * n + two_to(k)) / (2 * two_to(k)),
        n <= TOP * two_to(k),
{
    let den = two_to(k);
    reveal_with_fuel(two_to, 21);
    let d = doublings(n, den);
    let scale = two_to(d);
    lemma_twos_grow(0, d);
    assert(n <= TOP * den);
    if n == 0 {
        assert(n * scale == 0);
        lemma_whole_is_not_rounded(0, den);
        assert((2 * 0 + scale) / (2 * scale) == 0) by (nonlinear_arith)
            requires
                scale >= 1,
        ;
        assert((2 * 0 + den) / (2 * den) == 0) by (nonlinear_arith)
            requires
                den >= 1,
        ;
    } else {
        lemma_doublings(n, den);
        if d < k {
            lemma_twos_grow(d + 1, k);
            assert(2 * (n * scale) <= TOP * den) by (nonlinear_arith)
                requires
                    n <= TOP,
                    2 * scale <= den,
            ;
        }
        lemma_twos_multiply((d - k) as nat, k);
        let rest = two_to((d - k) as nat);
        lemma_twos_grow(0, (d - k) as nat);
        assert(n * scale == (n * rest) * den) by (nonlinear_arith)
            requires
                scale == rest * den,
        ;
        lemma_whole_is_not_rounded(n * rest, den);
        assert(nearest_even(n * scale, den) == n * rest);
        assert((2 * (n * rest) + scale) == rest * (2 * n + den)) by (nonlinear_arith)
            requires
                scale == rest * den,
        ;
        assert(2 * scale == rest * (2 * den)) by (nonlinear_arith)
            requires
                scale == rest * den,
        ;
        vstd::arithmetic::div_mod::lemma_div_multiples_vanish_quotient(
            rest as int,
            (2 * n + den) as int,
            (2 * den) as int,
        );
    }
}

/// One power of two, written out.
pub proof fn lemma_two_to_64()
    ensures
        two_to(64) == 0x1_0000_0000_0000_0000,
{
    reveal_with_fuel(two_to, 65);
}

/// A greater number is rounded to no smaller a whole one.
proof fn lemma_nearest_even_grows(a: nat, b: nat, den: nat)
    requires
        a <= b,
        den > 0,
    ensures
        nearest_even(a, den) <= nearest_even(b, den),
{
    let low = a / den;
    let high = b / den;
    vstd::arithmetic::div_mod::lemma_div_is_ordered(a as int, b as int, den as int);
    vstd::arithmetic::div_mod::lemma_fundamental_div_mod(a as int, den as int);
    vstd::arithmetic::div_mod::lemma_fundamental_div_mod(b as int, den as int);
    if low == high {
        assert(a % den <= b % den);
    }
}

/// A greater number is rounded to no smaller a double.
pub proof fn lemma_rounding_grows(a: nat, b: nat, den: nat)
    requires
        a <= b,
        den > 0,
    ensures
        double_above(a, den) <= double_above(b, den),
{
    let ha = halvings(a, den);
    let hb = halvings(b, den);
    let sa = two_to(ha);
    let sb = two_to(hb);
    lemma_halvings(a, den);
    lemma_halvings(b, den);
    lemma_twos_grow(0, ha);
    lemma_twos_grow(0, hb);
    assert(den * sa > 0 && den * sb > 0) by (nonlinear_arith)
        requires
            den > 0,
            sa >= 1,
            sb >= 1,
    ;
    if ha > hb {
        lemma_twos_grow(hb + 1, ha);
        assert(TOP * (den * sa) >= 2 * (TOP * (den * sb))) by (nonlinear_arith)
            requires
                sa >= 2 * sb,
                den > 0,
        {
            assert(den * sa >= den * (2 * sb));
        }
        assert(false);
    } else if ha == hb {
        lemma_nearest_even_grows(a, b, den * sa);
        assert(nearest_even(a, den * sa) * sa <= nearest_even(b, den * sa) * sa)
            by (nonlinear_arith)
            requires
                nearest_even(a, den * sa) <= nearest_even(b, den * sa),
        ;
    } else {
        lemma_twos_grow(ha + 1, hb);
        lemma_double_above(b, den);
        lemma_nearest_even_between(a, den * sa, 0, TOP as nat);
        let bits = nearest_even(b, den * sb);
        assert(nearest_even(a, den * sa) * sa <= TOP * sa) by (nonlinear_arith)
            requires
                nearest_even(a, den * sa) <= TOP,
        ;
        assert(TOP * sa <= bits * sb) by (nonlinear_arith)
            requires
                TOP <= 2 * bits,
                2 * sa <= sb,
        {
            assert(2 * bits * sb >= TOP * sb);
            assert(TOP * sb >= TOP * (2 * sa));
        }
    }
}

/// A greater number reads as no smaller a double.
pub proof fn lemma_reading_grows(a: nat, b: nat)
    requires
        a <= b,
    ensures
        reads_as(a) <= reads_as(b),
{
    lemma_rounding_grows(a, b, 1);
}

/// What is written for a double reads as the double.
pub proof fn lemma_the_shortest_reads_back(double: nat, k: nat)
    requires
        reads_as(double) == double,
    ensures
        reads_as(shortest_from(double, k)) == double,
    decreases k,
{
    if with_zeroes(double, k) is None && k > 0 {
        lemma_the_shortest_reads_back(double, (k - 1) as nat);
    }
}

/// What has been shown once is shown again as it is.
pub proof fn lemma_shown_stays_shown(num: nat, den: nat, per: nat)
    requires
        den > 0,
        per > 0,
    ensures
        ({
            let n = if num <= TOP * den {
                rounded(num, den)
            } else {
                shortest(double_above(num, den))
            };
            shown(num, den, per) == "inf"@ || (shown(num, den, per) == text::decimal_of(n) && shown(
                n,
                1,
                1,
            ) == text::decimal_of(n))
        }),
{
    if num <= TOP * den {
        lemma_rounded_bound(num, den);
        lemma_whole_is_kept(rounded(num, den));
    } else {
        let double = double_above(num, den);
        if double * per < two_to(LIMIT as nat) {
            let n = shortest(double);
            lemma_a_double_reads_as_itself(num, den);
            lemma_the_shortest_reads_back(double, text::decimal_of(double).len());
            if n <= TOP {
                lemma_whole_is_kept(n);
            } else {
                assert(double_above(n, 1) == double);
                assert(double * 1 <= double * per) by (nonlinear_arith)
                    requires
                        per >= 1,
                ;
            }
        }
    }
}

/// A whole number up to [`TOP`] is rounded to itself.
pub proof fn lemma_whole_is_kept(n: nat)
    requires
        n <= TOP,
    ensures
        rounded(n, 1) == n,
        shown(n, 1, 1) == text::decimal_of(n),
{
    let scale = two_to(doublings(n, 1));
    lemma_twos_grow(0, doublings(n, 1));
    lemma_whole_is_not_rounded(n * scale, 1);
    assert(n * scale * 1 == n * scale);
    lemma_whole_is_not_rounded(n, scale);
}

/// So does a whole number of times the number it is divided by.
pub proof fn lemma_multiple_is_kept(n: nat, den: nat, per: nat)
    requires
        n <= TOP,
        den > 0,
    ensures
        shown(n * den, den, per) == text::decimal_of(n),
{
    let scale = two_to(doublings(n * den, den));
    lemma_twos_grow(0, doublings(n * den, den));
    assert(n * den <= TOP * den) by (nonlinear_arith)
        requires
            n <= TOP,
    ;
    assert(n * den * scale == (n * scale) * den) by (nonlinear_arith);
    lemma_whole_is_not_rounded(n * scale, den);
    lemma_whole_is_not_rounded(n, scale);
}

/// What is up to [`TOP`] is rounded to no more than that.
proof fn lemma_rounded_bound(num: nat, den: nat)
    requires
        den > 0,
        num <= TOP * den,
    ensures
        rounded(num, den) <= TOP,
{
    let scale = two_to(doublings(num, den));
    lemma_twos_grow(0, doublings(num, den));
    if num == 0 {
        lemma_two_to_zero(0);
    } else {
        lemma_doublings(num, den);
    }
    let bits = nearest_even(num * scale, den);
    lemma_nearest_even_between(num * scale, den, 0, TOP as nat);
    vstd::arithmetic::div_mod::lemma_fundamental_div_mod(
        (2 * bits + scale) as int,
        (2 * scale) as int,
    );
    let r = nearest(bits, scale);
    assert(r <= bits) by (nonlinear_arith)
        requires
            2 * scale * r <= 2 * bits + scale,
            scale >= 1,
    {
        if r >= bits + 1 {
            assert(2 * scale * r >= 2 * scale * (bits + 1));
            assert(2 * scale * bits >= 2 * bits);
        }
    }
}

/// Less than a quarter is rounded to nothing.
pub proof fn lemma_a_little_is_nothing(num: nat, den: nat)
    requires
        4 * num < den,
    ensures
        num <= TOP * den,
        rounded(num, den) == 0,
{
    let scale = two_to(doublings(num, den));
    if num == 0 {
        lemma_two_to_zero(0);
        assert(num * scale == 0);
        lemma_whole_is_not_rounded(0, den);
        assert(nearest_even(num * scale, den) == 0);
        lemma_whole_is_not_rounded(0, 1);
    } else {
        lemma_doublings(num, den);
        let bits = nearest_even(num * scale, den);
        lemma_nearest_even_between(num * scale, den, 0, TOP as nat);
        assert(2 * TOP < scale) by (nonlinear_arith)
            requires
                2 * (num * scale) > TOP * den,
                den > 4 * num,
                num > 0,
        {
            assert(TOP * den >= TOP * (4 * num));
            assert(2 * (num * scale) > 4 * TOP * num);
            assert(num * (2 * scale) > num * (4 * TOP));
        }
        vstd::arithmetic::div_mod::lemma_basic_div(
            (2 * bits + scale) as int,
            (2 * scale) as int,
        );
    }
}

/// Less than a fortieth is no tenth.
pub proof fn lemma_a_little_is_no_tenth(num: nat, den: nat)
    requires
        40 * num < den,
    ensures
        to_a_tenth(num, den) == text::decimal_of(0) + seq!['.'] + text::decimal_of(0),
{
    let scale = two_to(doublings(num, den));
    let bits = nearest_even(num * scale, den);
    lemma_twos_grow(0, doublings(num, den));
    if num == 0 {
        assert(num * scale == 0);
        lemma_whole_is_not_rounded(0, den);
        lemma_whole_is_not_rounded(0, scale);
    } else {
        lemma_doublings(num, den);
        lemma_nearest_even_between(num * scale, den, 0, TOP as nat);
        assert(20 * TOP < scale) by (nonlinear_arith)
            requires
                2 * (num * scale) > TOP * den,
                den > 40 * num,
                num > 0,
        {
            assert(TOP * den >= TOP * (40 * num));
            assert(num * (2 * scale) > num * (40 * TOP));
        }
        vstd::arithmetic::div_mod::lemma_basic_div((10 * bits) as int, scale as int);
        vstd::arithmetic::div_mod::lemma_small_mod(10 * bits, scale);
    }
}

/// What is far too large is infinite.
proof fn lemma_too_much_is_infinite(num: nat, den: nat, per: nat)
    requires
        den > 0,
        num > TOP * den,
        num * per >= den * (2 * two_to(LIMIT as nat)),
    ensures
        double_above(num, den) * per >= two_to(LIMIT as nat),
{
    lemma_double_above(num, den);
    let double = double_above(num, den);
    let limit = two_to(LIMIT as nat);
    assert(double * per >= limit) by (nonlinear_arith)
        requires
            num <= 2 * (den * double),
            num * per >= den * (2 * limit),
            den > 0,
    {
        assert(num * per <= 2 * (den * double) * per);
        assert(2 * den * (double * per) >= 2 * den * limit);
    }
}

/// Ten is more than two three times over.
proof fn lemma_tens_outgrow_twos(n: nat)
    ensures
        natural::ten_to(n) >= two_to(3 * n),
    decreases n,
{
    if n > 0 {
        lemma_tens_outgrow_twos((n - 1) as nat);
        assert(two_to(3 * n) == 2 * two_to((3 * n - 1) as nat));
        assert(two_to((3 * n - 1) as nat) == 2 * two_to((3 * n - 2) as nat));
        assert(two_to((3 * n - 2) as nat) == 2 * two_to((3 * n - 3) as nat));
    }
}

/// Two is less than ten.
pub proof fn lemma_twos_trail_tens(n: nat)
    ensures
        1 <= two_to(n) <= natural::ten_to(n),
    decreases n,
{
    if n > 0 {
        lemma_twos_trail_tens((n - 1) as nat);
    }
}

/// The power of ten that is infinite in whatever unit it counts.
pub const FAR: u64 = 400;

/// One power of two, written out.
proof fn lemma_two_to_74()
    ensures
        two_to(74) == 0x400_0000_0000_0000_0000,
{
    reveal_with_fuel(two_to, 75);
}

/// How great such a power is.
proof fn lemma_a_great_power(num: nat)
    requires
        num >= natural::ten_to(FAR as nat),
    ensures
        num >= 2 * two_to(LIMIT as nat),
        num > TOP * 0x10_0000,
{
    lemma_tens_outgrow_twos(FAR as nat);
    lemma_twos_grow(1025, 1200);
    lemma_twos_grow(74, 1200);
    assert(two_to(1025) == 2 * two_to(LIMIT as nat));
    lemma_two_to_74();
}

/// A number with a great power of ten in it is infinite, in whatever unit it
/// counts.
pub proof fn lemma_a_great_power_is_infinite(num: nat, per: nat)
    requires
        num >= natural::ten_to(FAR as nat),
        0 < per <= 0x10_0000,
    ensures
        shown(num, per, per) == "inf"@,
        to_a_tenth(num, 1) == "inf"@,
{
    let limit = two_to(LIMIT as nat);
    lemma_a_great_power(num);
    assert(num * per >= per * (2 * limit)) by (nonlinear_arith)
        requires
            num >= 2 * limit,
    ;
    lemma_too_much_is_infinite(num, per, per);
    lemma_too_much_is_infinite(num, 1, 1);
}

/// The whole number nearest to `num / den`, a half rounding to the even one.
fn round_even(num: &Natural, den: &Natural) -> (r: u64)
    requires
        0 < den@,
        num@ <= TOP * den@,
    ensures
        r == nearest_even(num@, den@),
        r <= TOP,
{
    proof {
        lemma_nearest_even_between(num@, den@, 0, TOP as nat);
    }
    let (whole, rest) = num.divided(den);
    let twice = rest.scaled(2, 0);
    assert(twice@ == 2 * rest@);
    let up = if !den.at_least(&twice) {
        true
    } else {
        twice.at_least(den) && whole % 2 == 1
    };
    if up {
        whole + 1
    } else {
        whole
    }
}

/// The double nearest to `num / den`, rounded to its first 53 bits.
pub fn above(num: &Natural, den: &Natural) -> (r: Natural)
    requires
        0 < den@,
    ensures
        r@ == double_above(num@, den@),
{
    let mut scale = Natural::of(1);
    let mut grown = den.scaled(1, 0);
    let mut most = den.scaled(TOP, 0);
    proof {
        assert(den@ * 1 == den@);
        lemma_two_to_zero(two_to(halvings(num@, den@)) as int);
        assert(den@ * scale@ == den@);
        assert(den@ * TOP == TOP * den@);
    }
    while !most.at_least(num)
        invariant
            0 < grown@,
            grown@ == den@ * scale@,
            most@ == TOP * grown@,
            two_to(halvings(num@, den@)) == scale@ * two_to(halvings(num@, grown@)),
        decreases halvings(num@, grown@),
    {
        proof {
            let left = two_to(halvings(num@, 2 * grown@));
            assert(scale@ * (2 * left) == (scale@ * 2) * left) by (nonlinear_arith);
            assert(den@ * (scale@ * 2) == (den@ * scale@) * 2) by (nonlinear_arith);
            assert(halvings(num@, grown@) == 1 + halvings(num@, 2 * grown@));
        }
        scale = scale.scaled(2, 0);
        grown = grown.scaled(2, 0);
        most = most.scaled(2, 0);
    }
    proof {
        lemma_two_to_zero(scale@ as int);
    }
    let bits = round_even(num, &grown);
    assert(scale@ * bits == bits * scale@) by (nonlinear_arith);
    scale.scaled(bits, 0)
}

/// The first 53 bits of the double nearest to `num / den`, and the power of
/// two they are divided by.
fn spread(num: &Natural, den: &Natural) -> (r: (u64, u64))
    requires
        0 < den@,
        den@ <= 40 * num@,
        num@ <= TOP * den@,
    ensures
        1 <= r.1 <= 40 * TOP,
        r.1 == two_to(doublings(num@, den@)),
        r.0 == nearest_even(num@ * (r.1 as nat), den@),
        r.0 <= TOP,
{
    let most = den.scaled(TOP, 0);
    let mut scale: u64 = 1;
    let mut grown = num.scaled(1, 0);
    let mut twice = num.scaled(2, 0);
    proof {
        assert(num@ * 1 == num@);
        assert(num@ * scale == num@);
        assert(den@ * scale == den@);
        assert(den@ * TOP == TOP * den@);
        lemma_two_to_zero(two_to(doublings(num@, den@)) as int);
    }
    while most.at_least(&twice)
        invariant
            0 < den@,
            0 < grown@,
            grown@ == num@ * scale,
            twice@ == 2 * grown@,
            most@ == TOP * den@,
            grown@ <= TOP * den@,
            den@ * scale <= 40 * grown@,
            1 <= scale <= 40 * TOP,
            two_to(doublings(num@, den@)) == scale * two_to(doublings(grown@, den@)),
        decreases doublings(grown@, den@),
    {
        proof {
            assert(scale <= 20 * TOP) by (nonlinear_arith)
                requires
                    den@ * scale <= 40 * grown@,
                    2 * grown@ <= TOP * den@,
                    den@ > 0,
            ;
            let left = two_to(doublings(2 * grown@, den@));
            assert(scale * (2 * left) == (scale * 2) * left) by (nonlinear_arith);
            assert(num@ * (scale * 2) == (num@ * scale) * 2) by (nonlinear_arith);
            assert(den@ * (scale * 2) == (den@ * scale) * 2) by (nonlinear_arith);
            assert(doublings(grown@, den@) == 1 + doublings(2 * grown@, den@));
        }
        scale = scale * 2;
        grown = grown.scaled(2, 0);
        twice = twice.scaled(2, 0);
    }
    proof {
        lemma_two_to_zero(scale as int);
    }
    (round_even(&grown, den), scale)
}

/// Whether two numbers are the same.
fn same(a: &Natural, b: &Natural) -> (r: bool)
    ensures
        r == (a@ == b@),
{
    a.at_least(b) && b.at_least(a)
}

/// Whether a whole number reads as a double.
fn reads(n: &Natural, double: &Natural) -> (r: bool)
    ensures
        r == (reads_as(n@) == double@),
{
    let one = Natural::of(1);
    same(&above(n, &one), double)
}

/// The number ending in `k` zeroes that stands for a double.
fn ending(double: &Natural, k: usize) -> (r: Option<Natural>)
    ensures
        match r {
            Some(n) => with_zeroes(double@, k as nat) == Some(n@),
            None => with_zeroes(double@, k as nat) is None,
        },
{
    let ghost ten = natural::ten_to(k as nat);
    let (low, high) = double.split(k);
    let below = high.shifted(k as u128);
    let next = high.scaled(1, 1);
    let above = next.shifted(k as u128);
    let step = Natural::of(1).shifted(k as u128);
    let twice = low.scaled(2, 0);
    proof {
        natural::lemma_ten_is_positive(k as nat);
        vstd::arithmetic::div_mod::lemma_fundamental_div_mod(double@ as int, ten as int);
        assert(ten * high@ == high@ * ten) by (nonlinear_arith);
        assert(next@ == high@ + 1);
        assert((high@ + 1) * ten == high@ * ten + ten) by (nonlinear_arith);
        assert(step@ == ten) by (nonlinear_arith)
            requires
                step@ == 1 * ten,
        ;
        assert(double@ - below@ == low@);
    }
    let down = reads(&below, double);
    let up = reads(&above, double);
    if down && (!up || !twice.at_least(&step)) {
        Some(below)
    } else if up {
        Some(above)
    } else {
        None
    }
}

/// How a double that is a whole number is written.
fn written(double: Natural) -> (r: String)
    ensures
        r@ == text::decimal_of(shortest(double@)),
{
    let whole = double.written();
    let mut k: usize = whole.as_str().unicode_len();
    loop
        invariant
            whole@ == text::decimal_of(double@),
            shortest(double@) == shortest_from(double@, k as nat),
        decreases k,
    {
        match ending(&double, k) {
            Some(n) => {
                return n.written();
            },
            None => {
                if k == 0 {
                    return whole;
                }
                k -= 1;
            },
        }
    }
}

/// A number, doubled so often.
pub fn doubled(n: &Natural, times: u64) -> (r: Natural)
    ensures
        r@ == n@ * two_to(times as nat),
{
    let mut r = n.scaled(1, 0);
    let mut i: u64 = 0;
    proof {
        assert(n@ * 1 == n@);
        lemma_two_to_zero(n@ as int);
    }
    while i < times
        invariant
            i <= times,
            r@ == n@ * two_to(i as nat),
        decreases times - i,
    {
        assert(n@ * (2 * two_to(i as nat)) == (n@ * two_to(i as nat)) * 2) by (nonlinear_arith);
        r = r.scaled(2, 0);
        i += 1;
    }
    r
}

/// How the whole number nearest to the double nearest to `num / den` is
/// written.
pub fn show(num: &Natural, den: &Natural, per: u64) -> (r: String)
    requires
        0 < den@,
    ensures
        r@ == shown(num@, den@, per as nat),
{
    let most = den.scaled(TOP, 0);
    assert(den@ * TOP == TOP * den@);
    if most.at_least(num) {
        let little = num.scaled(4, 0);
        if !little.at_least(den) {
            proof {
                lemma_a_little_is_nothing(num@, den@);
            }
            return text::decimal(0);
        }
        let (bits, scale) = spread(num, den);
        return text::decimal((2 * bits + scale) / (2 * scale));
    }
    let limit = doubled(&Natural::of(1), LIMIT);
    assert(1 * two_to(LIMIT as nat) == two_to(LIMIT as nat));
    // One that is as much again is not worth rounding.
    if num.scaled(per, 0).at_least(&doubled(den, LIMIT + 1)) {
        proof {
            lemma_too_much_is_infinite(num@, den@, per as nat);
        }
        return "inf".to_string();
    }
    let double = above(num, den);
    if double.scaled(per, 0).at_least(&limit) {
        "inf".to_string()
    } else {
        written(double)
    }
}

/// A whole number and one decimal.
fn with_tenth(whole: &str, tenth: u64) -> (r: String)
    ensures
        r@ == whole@ + seq!['.'] + text::decimal_of(tenth as nat),
{
    let mut r = whole.to_string();
    r.push('.');
    let behind = text::decimal(tenth);
    r.append(behind.as_str());
    assert(r@ =~= whole@ + seq!['.'] + text::decimal_of(tenth as nat));
    r
}

/// How the double nearest to `num / den` is written to one decimal.
pub fn show_tenths(num: &Natural, den: &Natural) -> (r: String)
    requires
        0 < den@,
    ensures
        r@ == to_a_tenth(num@, den@),
{
    let most = den.scaled(TOP, 0);
    assert(den@ * TOP == TOP * den@);
    if most.at_least(num) {
        let little = num.scaled(40, 0);
        if !little.at_least(den) {
            proof {
                lemma_a_little_is_no_tenth(num@, den@);
            }
            let nothing = text::decimal(0);
            return with_tenth(nothing.as_str(), 0);
        }
        let (bits, scale) = spread(num, den);
        let ten: u64 = 10 * bits;
        let whole: u64 = ten / scale;
        let rest: u64 = ten % scale;
        let tenths: u64 = if 2 * rest > scale || (2 * rest == scale && whole % 2 == 1) {
            whole + 1
        } else {
            whole
        };
        assert(tenths == nearest_even(10 * (bits as nat), scale as nat));
        let units = text::decimal(tenths / 10);
        return with_tenth(units.as_str(), tenths % 10);
    }
    let limit = doubled(&Natural::of(1), LIMIT);
    assert(1 * two_to(LIMIT as nat) == two_to(LIMIT as nat));
    // One that is as much again is not worth rounding.
    if num.at_least(&doubled(den, LIMIT + 1)) {
        proof {
            lemma_too_much_is_infinite(num@, den@, 1);
        }
        return "inf".to_string();
    }
    let double = above(num, den);
    if double.at_least(&limit) {
        "inf".to_string()
    } else {
        let units = double.written();
        with_tenth(units.as_str(), 0)
    }
}

/// The most that is rounded in one machine word.
pub const WORD: u128 = 0x4000_0000_0000_0000_0000_0000_0000_0000;

/// The double nearest to `num / den`, in machine words.
pub fn word_above(num: u128, den: u128) -> (r: u128)
    requires
        num < WORD,
        1 <= den <= 4096,
    ensures
        r == double_above(num as nat, den as nat),
        r <= 2 * num + 1,
{
    let mut scale: u128 = 1;
    let mut grown: u128 = den;
    let top = TOP as u128;
    proof {
        lemma_two_to_zero(two_to(halvings(num as nat, den as nat)) as int);
        assert(den * scale == den);
    }
    while num > top * grown
        invariant
            num < WORD,
            top == TOP,
            1 <= scale,
            1 <= den <= grown,
            grown == den * scale,
            scale <= grown,
            TOP * grown <= 2 * WORD,
            scale > 1 ==> TOP * grown < 2 * num,
            two_to(halvings(num as nat, den as nat)) == scale * two_to(
                halvings(num as nat, grown as nat),
            ),
        decreases halvings(num as nat, grown as nat),
    {
        proof {
            let left = two_to(halvings(num as nat, 2 * (grown as nat)));
            assert(scale * (2 * left) == (scale * 2) * left) by (nonlinear_arith);
            assert(den * (scale * 2) == (den * scale) * 2) by (nonlinear_arith);
            assert(halvings(num as nat, grown as nat) == 1 + halvings(
                num as nat,
                2 * (grown as nat),
            ));
        }
        scale = scale * 2;
        grown = grown * 2;
    }
    proof {
        lemma_two_to_zero(scale as int);
        lemma_nearest_even_between(num as nat, grown as nat, 0, TOP as nat);
    }
    let whole: u128 = num / grown;
    let rest: u128 = num % grown;
    proof {
        vstd::arithmetic::div_mod::lemma_fundamental_div_mod(num as int, grown as int);
        assert(whole <= TOP) by (nonlinear_arith)
            requires
                num <= TOP * grown,
                num == grown * whole + rest,
                grown >= 1,
        ;
    }
    let bits: u128 = if 2 * rest > grown || (2 * rest == grown && whole % 2 == 1) {
        whole + 1
    } else {
        whole
    };
    assert(bits == nearest_even(num as nat, grown as nat));
    proof {
        assert(bits <= 2 * whole + 1);
        assert(bits * scale <= 2 * num + 1) by (nonlinear_arith)
            requires
                bits <= whole + 1,
                bits <= TOP,
                num == grown * whole + rest,
                1 <= scale <= grown,
                scale > 1 ==> TOP * grown < 2 * num,
        {
            if scale > 1 {
                assert(bits * scale <= TOP * scale);
                assert(TOP * scale <= TOP * grown);
            } else {
                assert(grown * whole >= whole);
            }
        }
    }
    bits * scale
}

/// How so many tenths are written.
pub open spec fn tenths(t: nat) -> Seq<char> {
    text::decimal_of(t / 10) + seq!['.'] + text::decimal_of(t % 10)
}

/// Rounding is off by half at most.
proof fn lemma_off_by_half(num: nat, den: nat)
    requires
        den > 0,
    ensures
        2 * (nearest_even(num, den) * den) <= 2 * num + den,
        2 * num <= 2 * (nearest_even(num, den) * den) + den,
{
    let whole = num / den;
    vstd::arithmetic::div_mod::lemma_fundamental_div_mod(num as int, den as int);
    assert(den * whole == whole * den) by (nonlinear_arith);
    assert((whole + 1) * den == whole * den + den) by (nonlinear_arith);
}

/// A number written to one decimal is written as the nearest tenth, or nearly:
/// no further from it than seven tenths of a tenth, as long as a double has a
/// few bits to spare for it.
pub proof fn lemma_the_tenth_is_near(num: nat, den: nat) -> (t: nat)
    requires
        den > 0,
        32 * num <= TOP * den,
    ensures
        to_a_tenth(num, den) == tenths(t),
        10 * (t * den) <= 10 * (10 * num) + 7 * den,
        10 * (10 * num) <= 10 * (t * den) + 7 * den,
{
    let scale = two_to(doublings(num, den));
    let bits = nearest_even(num * scale, den);
    let t = nearest_even(10 * bits, scale);
    lemma_twos_grow(0, doublings(num, den));
    if num == 0 {
        assert(num * scale == 0);
        lemma_whole_is_not_rounded(0, den);
        lemma_whole_is_not_rounded(0, scale);
        assert(t * den == 0) by (nonlinear_arith)
            requires
                t == 0,
        ;
    } else {
        lemma_doublings(num, den);
        assert(scale > 16) by (nonlinear_arith)
            requires
                2 * (num * scale) > TOP * den,
                32 * num <= TOP * den,
                num > 0,
        {
            assert(2 * (num * scale) > 32 * num);
            assert(num * (2 * scale) > num * 32);
        }
        lemma_a_power_above_sixteen(doublings(num, den));
        lemma_off_by_half(num * scale, den);
        lemma_off_by_half(10 * bits, scale);
        // Both roundings, counted in parts of a tenth of the double's last bit.
        assert(2 * (t * scale) * den <= (2 * (10 * bits) + scale) * den) by (nonlinear_arith)
            requires
                2 * (t * scale) <= 2 * (10 * bits) + scale,
        ;
        assert((2 * (10 * bits)) * den <= (2 * (t * scale) + scale) * den) by (nonlinear_arith)
            requires
                2 * (10 * bits) <= 2 * (t * scale) + scale,
        ;
        assert(32 * den <= scale * den) by (nonlinear_arith)
            requires
                scale >= 32,
        ;
        let up = scale * (10 * (t * den));
        let down = scale * (10 * (10 * num) + 7 * den);
        assert(up <= down) by (nonlinear_arith)
            requires
                up == scale * (10 * (t * den)),
                down == scale * (10 * (10 * num) + 7 * den),
                2 * (t * scale) * den <= (2 * (10 * bits) + scale) * den,
                2 * (bits * den) <= 2 * (num * scale) + den,
                32 * den <= scale * den,
        ;
        assert(10 * (t * den) <= 10 * (10 * num) + 7 * den) by (nonlinear_arith)
            requires
                scale * (10 * (t * den)) <= scale * (10 * (10 * num) + 7 * den),
                scale > 0,
        ;
        let up = scale * (10 * (10 * num));
        let down = scale * (10 * (t * den) + 7 * den);
        assert(up <= down) by (nonlinear_arith)
            requires
                up == scale * (10 * (10 * num)),
                down == scale * (10 * (t * den) + 7 * den),
                (2 * (10 * bits)) * den <= (2 * (t * scale) + scale) * den,
                2 * (num * scale) <= 2 * (bits * den) + den,
                32 * den <= scale * den,
        ;
        assert(10 * (10 * num) <= 10 * (t * den) + 7 * den) by (nonlinear_arith)
            requires
                scale * (10 * (10 * num)) <= scale * (10 * (t * den) + 7 * den),
                scale > 0,
        ;
    }
    t
}

/// A power of two above sixteen is thirty-two at least.
proof fn lemma_a_power_above_sixteen(k: nat)
    requires
        two_to(k) > 16,
    ensures
        two_to(k) >= 32,
{
    reveal_with_fuel(two_to, 6);
    if k <= 4 {
        lemma_twos_grow(k, 4);
    } else {
        lemma_twos_grow(5, k);
    }
}

/// A whole number of tenths is written as those tenths.
pub proof fn lemma_tenths_are_written_as_they_are(t: nat)
    requires
        4 * t <= TOP,
    ensures
        to_a_tenth(t, 10) == tenths(t),
{
    let u = lemma_the_tenth_is_near(t, 10);
    assert(u == t);
}

/// A whole number is written with a zero behind the point.
pub proof fn lemma_a_whole_number_has_no_tenths(n: nat)
    requires
        32 * n <= TOP,
    ensures
        to_a_tenth(n, 1) == text::decimal_of(n) + seq!['.', '0'],
{
    let t = lemma_the_tenth_is_near(n, 1);
    assert(t == 10 * n);
    assert(text::decimal_of(0) =~= seq!['0']) by {
        text::lemma_a_number_is_written_short(0);
    }
    assert(tenths(t) =~= text::decimal_of(n) + seq!['.', '0']);
}

/// The greater of two powers of two is the greater.
pub proof fn lemma_greater_powers(a: nat, b: nat)
    requires
        a < b,
    ensures
        1 <= two_to(a) < two_to(b),
{
    lemma_twos_grow(0, a);
    lemma_twos_grow(a + 1, b);
}

/// Three powers of ten trail ten powers of two.
pub proof fn lemma_tens_trail_more_twos(k: nat)
    ensures
        natural::ten_to(3 * k) <= two_to(10 * k),
    decreases k,
{
    if k > 0 {
        let less = (k - 1) as nat;
        lemma_tens_trail_more_twos(less);
        natural::lemma_tens_multiply(3, 3 * less);
        lemma_twos_multiply(10, 10 * less);
        assert(natural::ten_to(3) == 1000 && two_to(10) == 1024) by {
            reveal_with_fuel(natural::ten_to, 4);
            reveal_with_fuel(two_to, 11);
        }
        assert(3 + 3 * less == 3 * k && 10 + 10 * less == 10 * k);
        assert(1000 * natural::ten_to(3 * less) <= 1024 * two_to(10 * less)) by (nonlinear_arith)
            requires
                natural::ten_to(3 * less) <= two_to(10 * less),
        ;
    } else {
        assert(natural::ten_to(0) == 1 && two_to(0) == 1);
    }
}

/// A number in whole units is the nearest of them, or nearly: no further from it
/// than seven tenths, as long as a double has a few bits to spare for it.
pub proof fn lemma_the_whole_is_near(num: nat, den: nat)
    requires
        den > 0,
        32 * num <= TOP * den,
    ensures
        10 * (rounded(num, den) * den) <= 10 * num + 7 * den,
        10 * num <= 10 * (rounded(num, den) * den) + 7 * den,
{
    let scale = two_to(doublings(num, den));
    let bits = nearest_even(num * scale, den);
    let n = nearest(bits, scale);
    lemma_twos_grow(0, doublings(num, den));
    if num == 0 {
        assert(num * scale == 0);
        lemma_whole_is_not_rounded(0, den);
        lemma_whole_is_not_rounded(0, scale);
        assert(n * den == 0) by (nonlinear_arith)
            requires
                n == 0,
        ;
    } else {
        lemma_doublings(num, den);
        assert(scale > 16) by (nonlinear_arith)
            requires
                2 * (num * scale) > TOP * den,
                32 * num <= TOP * den,
                num > 0,
        {
            assert(2 * (num * scale) > 32 * num);
            assert(num * (2 * scale) > num * 32);
        }
        lemma_a_power_above_sixteen(doublings(num, den));
        lemma_off_by_half(num * scale, den);
        lemma_half_upwards(bits, scale);
        assert(2 * (n * scale) * den <= (2 * bits + scale) * den) by (nonlinear_arith)
            requires
                2 * (n * scale) <= 2 * bits + scale,
        ;
        assert((2 * bits) * den <= (2 * (n * scale) + scale) * den) by (nonlinear_arith)
            requires
                2 * bits <= 2 * (n * scale) + scale,
        ;
        assert(32 * den <= scale * den) by (nonlinear_arith)
            requires
                scale >= 32,
        ;
        assert(scale * (10 * (n * den)) <= scale * (10 * num + 7 * den)) by (nonlinear_arith)
            requires
                2 * (n * scale) * den <= (2 * bits + scale) * den,
                2 * (bits * den) <= 2 * (num * scale) + den,
                32 * den <= scale * den,
        ;
        assert(10 * (n * den) <= 10 * num + 7 * den) by (nonlinear_arith)
            requires
                scale * (10 * (n * den)) <= scale * (10 * num + 7 * den),
                scale > 0,
        ;
        assert(scale * (10 * num) <= scale * (10 * (n * den) + 7 * den)) by (nonlinear_arith)
            requires
                (2 * bits) * den <= (2 * (n * scale) + scale) * den,
                2 * (num * scale) <= 2 * (bits * den) + den,
                32 * den <= scale * den,
        ;
        assert(10 * num <= 10 * (n * den) + 7 * den) by (nonlinear_arith)
            requires
                scale * (10 * num) <= scale * (10 * (n * den) + 7 * den),
                scale > 0,
        ;
    }
}

/// Rounding a half upwards is off by half at most too.
proof fn lemma_half_upwards(num: nat, den: nat)
    requires
        den > 0,
    ensures
        2 * (nearest(num, den) * den) <= 2 * num + den,
        2 * num <= 2 * (nearest(num, den) * den) + den,
{
    let n = nearest(num, den);
    vstd::arithmetic::div_mod::lemma_fundamental_div_mod((2 * num + den) as int, (2 * den) as int);
    assert((2 * den) * n == 2 * (n * den)) by (nonlinear_arith);
}

} // verus!
