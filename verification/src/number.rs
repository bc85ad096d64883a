//! Reading a number the way a floating-point one is read: a decimal of any
//! length, with an exponent or without, or one of the words for what is no such
//! number.

use vstd::prelude::*;

use crate::natural::Natural;
use crate::text;

verus! {

/// What an amount reads as.
pub enum Number {
    /// Not a number, written as one.
    Nan,
    Infinite { negative: bool },
    /// So many times a power of ten.
    Finite { negative: bool, digits: nat, exponent: int },
}

/// A letter without its case.
pub open spec fn lower(c: char) -> char {
    if 'A' <= c <= 'Z' {
        (c as nat + 32) as char
    } else {
        c
    }
}

/// A text without the case of its letters.
pub open spec fn lowered(s: Seq<char>) -> Seq<char> {
    s.map_values(|c: char| lower(c))
}

/// An amount without its sign.
pub open spec fn unsigned_part(s: Seq<char>) -> Seq<char> {
    if s.len() > 0 && (s[0] == '-' || s[0] == '+') {
        s.drop_first()
    } else {
        s
    }
}

/// Whether there is a minus in front.
pub open spec fn is_negative(s: Seq<char>) -> bool {
    s.len() > 0 && s[0] == '-'
}

/// What stands before and after the decimal point of an unsigned amount.
pub open spec fn point_parts(s: Seq<char>) -> (Seq<char>, Seq<char>) {
    match text::halves(s, '.') {
        Some(parts) => parts,
        None => (s, Seq::empty()),
    }
}

/// The digits of a decimal and how many of them stand behind the point: one
/// digit at least, and at most one point among them.
pub open spec fn decimal_part(s: Seq<char>) -> Option<(nat, nat)> {
    let (whole, fraction) = point_parts(s);
    if text::all_digits(whole) && text::all_digits(fraction) && 0 < whole.len() + fraction.len() {
        Some((text::digits_value(whole + fraction), fraction.len()))
    } else {
        None
    }
}

/// The power of ten that stands behind an `e`: a sign or none, and digits.
pub open spec fn power_part(s: Seq<char>) -> Option<int> {
    let digits = unsigned_part(s);
    if digits.len() > 0 && text::all_digits(digits) {
        Some(
            if is_negative(s) {
                -text::digits_value(digits)
            } else {
                text::digits_value(digits) as int
            },
        )
    } else {
        None
    }
}

/// What an amount reads as: a decimal with an exponent or without, or one of
/// the words for what is no such number. Nothing for anything else.
pub open spec fn number_of(s: Seq<char>) -> Option<Number> {
    let negative = is_negative(s);
    let body = lowered(unsigned_part(s));
    if body == "nan"@ {
        Some(Number::Nan)
    } else if body == "inf"@ || body == "infinity"@ {
        Some(Number::Infinite { negative })
    } else {
        let (amount, power) = match text::halves(body, 'e') {
            Some((amount, power)) => (amount, power_part(power)),
            None => (body, Some(0int)),
        };
        match (decimal_part(amount), power) {
            (Some((digits, places)), Some(power)) => Some(
                Number::Finite { negative, digits, exponent: power - places },
            ),
            _ => None,
        }
    }
}

/// The number, or zero for a negative one.
pub open spec fn upwards(n: int) -> nat {
    if n > 0 {
        n as nat
    } else {
        0
    }
}

/// A sign, where there is one to write.
pub open spec fn sign(negative: bool) -> Seq<char> {
    if negative {
        seq!['-']
    } else {
        Seq::empty()
    }
}

/// A text without the case of its letters.
fn lower_text(s: &str) -> (r: String)
    ensures
        r@ == lowered(s@),
{
    let cs = text::chars(s);
    let mut r = String::new();
    let mut i: usize = 0;
    assert(lowered(cs@.take(0)) =~= Seq::empty());
    while i < cs.len()
        invariant
            i <= cs.len(),
            r@ == lowered(cs@.take(i as int)),
        decreases cs.len() - i,
    {
        let c = cs[i];
        if 'A' <= c && c <= 'Z' {
            r.push((c as u8 + 32u8) as char);
        } else {
            r.push(c);
        }
        assert(cs@.take(i + 1) == cs@.take(i as int).push(c));
        assert(r@ =~= lowered(cs@.take(i + 1)));
        i += 1;
    }
    assert(cs@.take(i as int) == cs@);
    r
}

/// An amount without its sign, and whether that is a minus.
fn without_sign(s: &str) -> (r: (bool, &str))
    ensures
        r.0 == is_negative(s@),
        r.1@ == unsigned_part(s@),
{
    let len = s.unicode_len();
    let negative = len > 0 && s.get_char(0) == '-';
    if negative || (len > 0 && s.get_char(0) == '+') {
        assert(s@.subrange(1, len as int) == s@.drop_first());
        (negative, s.substring_char(1, len))
    } else {
        (negative, s)
    }
}

/// Whether `cs` is nothing but digits.
fn digits_only(cs: &Vec<char>) -> (r: bool)
    ensures
        r == text::all_digits(cs@),
{
    let mut i: usize = 0;
    while i < cs.len()
        invariant
            i <= cs.len(),
            forall|j: int| 0 <= j < i ==> text::is_digit(#[trigger] cs@[j]),
        decreases cs.len() - i,
    {
        if !text::digit(cs[i]) {
            assert(!text::is_digit(cs@[i as int]));
            return false;
        }
        i += 1;
    }
    true
}

/// The digits of a decimal and how many of them stand behind the point.
fn read_decimal(s: &str) -> (r: Option<(Natural, usize)>)
    ensures
        match r {
            Some((digits, places)) => decimal_part(s@) == Some(
                (digits@, places as nat),
            ),
            None => decimal_part(s@) is None,
        },
{
    let (whole, fraction) = match text::split_once(s, '.') {
        Some(parts) => parts,
        None => {
            assert(s@.subrange(0, 0) == Seq::<char>::empty());
            (s, s.substring_char(0, 0))
        },
    };
    let mut all = text::chars(whole);
    let mut tail = text::chars(fraction);
    let places = tail.len();
    let plain = digits_only(&all) && digits_only(&tail);
    all.append(&mut tail);
    proof {
        let (w, f) = point_parts(s@);
        assert(w == whole@ && f == fraction@);
        assert(all@ == w + f);
        if text::all_digits(w) && text::all_digits(f) {
            assert forall|i: int| 0 <= i < all@.len() implies text::is_digit(
                #[trigger] all@[i],
            ) by {
                if i < w.len() {
                    assert(all@[i] == w[i]);
                } else {
                    assert(all@[i] == f[i - w.len()]);
                }
            }
        }
    }
    if plain && all.len() > 0 {
        Some((Natural::spelled(&all), places))
    } else {
        None
    }
}

/// The most a power of ten is counted to. What is beyond it is far beyond
/// anything it could be the power of.
pub const MOST: i128 = 0x1000_0000_0000_0000_0000_0000_0000;

/// Whether `e` says as much of a power of ten as there is to know: it is the
/// power, or they are on the same side of everything.
pub open spec fn tells(e: i128, power: int) -> bool {
    ||| e == power
    ||| e >= MOST / 2 && power >= e
    ||| e <= -MOST / 2 && power <= e
}

/// The power of ten that stands behind an `e`.
fn read_power(s: &str) -> (r: Option<i128>)
    ensures
        match r {
            Some(power) => {
                &&& power_part(s@) matches Some(exact)
                &&& -MOST <= power <= MOST
                &&& power == exact || (power == MOST && exact >= MOST) || (power == -MOST
                    && exact <= -MOST)
            },
            None => power_part(s@) is None,
        },
{
    let (negative, digits) = without_sign(s);
    let cs = text::chars(digits);
    if cs.len() == 0 || !digits_only(&cs) {
        return None;
    }
    let mut n: i128 = 0;
    let mut i: usize = 0;
    while i < cs.len()
        invariant
            i <= cs.len(),
            text::all_digits(cs@),
            0 <= n <= MOST,
            n == text::digits_value(cs@.take(i as int)) || (n == MOST && text::digits_value(
                cs@.take(i as int),
            ) >= MOST),
        decreases cs.len() - i,
    {
        assert(text::is_digit(cs@[i as int]));
        assert(cs@.take(i + 1).drop_last() == cs@.take(i as int));
        let next: i128 = n * 10 + (cs[i] as i128 - '0' as i128);
        n = if next > MOST {
            MOST
        } else {
            next
        };
        i += 1;
    }
    assert(cs@.take(i as int) == cs@);
    if negative {
        Some(-n)
    } else {
        Some(n)
    }
}

/// What an amount reads as, as it is worked out.
pub enum Reading {
    Nan,
    Infinite(bool),
    /// Negative or not, so many times a power of ten.
    Finite(bool, Natural, i128),
}

/// What an amount reads as.
pub fn read_number(s: &str) -> (r: Option<Reading>)
    ensures
        match r {
            Some(Reading::Nan) => number_of(s@) == Some(Number::Nan),
            Some(Reading::Infinite(negative)) => number_of(s@) == Some(
                Number::Infinite { negative },
            ),
            Some(Reading::Finite(negative, digits, e)) => {
                &&& number_of(s@) matches Some(Number::Finite { negative: n, digits: d, exponent })
                &&& n == negative
                &&& digits@ == d
                &&& tells(e, exponent)
                &&& e >= -2 * MOST
            },
            None => number_of(s@) is None,
        },
{
    let (negative, bare) = without_sign(s);
    let body = lower_text(bare);
    if text::same(body.as_str(), "nan") {
        return Some(Reading::Nan);
    }
    if text::same(body.as_str(), "inf") || text::same(body.as_str(), "infinity") {
        return Some(Reading::Infinite(negative));
    }
    let (amount, power) = match text::split_once(body.as_str(), 'e') {
        Some((amount, power)) => (amount, read_power(power)),
        None => (body.as_str(), Some(0)),
    };
    match (read_decimal(amount), power) {
        (Some((digits, places)), Some(power)) => Some(
            Reading::Finite(negative, digits, power - places as i128),
        ),
        _ => None,
    }
}

/// What a written number reads as, with or without a sign in front.
pub proof fn lemma_number_reads_back(n: nat, negative: bool)
    ensures
        number_of(sign(negative) + text::decimal_of(n)) == Some(
            Number::Finite { negative, digits: n, exponent: 0 },
        ),
{
    let digits = text::decimal_of(n);
    let s = sign(negative) + digits;
    text::lemma_decimal_is_digits(n);
    assert(text::is_digit(digits[0]));
    assert(unsigned_part(s) =~= digits);
    assert forall|i: int| 0 <= i < digits.len() implies lower(#[trigger] digits[i]) == digits[i] by {
        assert(text::is_digit(digits[i]));
    }
    assert(lowered(digits) =~= digits);
    reveal_strlit("nan");
    reveal_strlit("inf");
    reveal_strlit("infinity");
    lemma_digits_are_one_piece(digits, 'e');
    lemma_digits_are_one_piece(digits, '.');
    assert(digits + Seq::<char>::empty() =~= digits);
}

/// Digits are not cut at anything else.
proof fn lemma_digits_are_one_piece(digits: Seq<char>, c: char)
    requires
        text::all_digits(digits),
        !text::is_digit(c),
    ensures
        text::halves(digits, c) is None,
{
    text::lemma_halves_rejoin(digits, c);
    match text::halves(digits, c) {
        Some((before, after)) => {
            assert(digits[before.len() as int] == c);
        },
        None => {},
    }
}

/// The words for what is no number read back as what they stand for.
pub proof fn lemma_words_read_back(negative: bool)
    ensures
        number_of("NaN"@) == Some(Number::Nan),
        number_of(sign(negative) + "inf"@) == Some(Number::Infinite { negative }),
{
    reveal_strlit("NaN");
    reveal_strlit("nan");
    reveal_strlit("inf");
    assert(unsigned_part("NaN"@) == "NaN"@);
    assert(lowered("NaN"@) =~= "nan"@);
    let s = sign(negative) + "inf"@;
    assert(unsigned_part(s) =~= "inf"@);
    assert(lowered("inf"@) =~= "inf"@);
    assert("inf"@[0] == 'i' && "nan"@[0] == 'n');
}

/// Digits and points have no case.
proof fn lemma_plain_has_no_case(s: Seq<char>)
    requires
        forall|i: int|
            0 <= i < s.len() ==> text::is_digit(#[trigger] s[i]) || s[i] == '.' || s[i] == 'e'
                || s[i] == '-' || s[i] == '+',
    ensures
        lowered(s) == s,
{
    assert forall|i: int| 0 <= i < s.len() implies lower(#[trigger] s[i]) == s[i] by {
        assert(text::is_digit(s[i]) || s[i] == '.' || s[i] == 'e' || s[i] == '-' || s[i] == '+');
    }
    assert(lowered(s) =~= s);
}

/// Digits in two parts, a point between them.
pub open spec fn pointed(whole: Seq<char>, fraction: Seq<char>) -> Seq<char> {
    whole.push('.') + fraction
}

/// Digits with a point among them are no word, and come apart at the point.
proof fn lemma_pointed(whole: Seq<char>, fraction: Seq<char>)
    requires
        text::all_digits(whole),
        text::all_digits(fraction),
    ensures
        text::halves(pointed(whole, fraction), '.') == Some((whole, fraction)),
        text::halves(pointed(whole, fraction), 'e') is None,
        forall|i: int|
            0 <= i < pointed(whole, fraction).len() ==> text::is_digit(
                #[trigger] pointed(whole, fraction)[i],
            ) || pointed(whole, fraction)[i] == '.',
{
    let s = pointed(whole, fraction);
    assert forall|i: int| 0 <= i < s.len() implies text::is_digit(#[trigger] s[i]) || s[i] == '.' by {
        if i < whole.len() {
            assert(text::is_digit(whole[i]));
        } else if i > whole.len() {
            assert(text::is_digit(fraction[i - whole.len() - 1]));
        }
    }
    assert(!whole.contains('.')) by {
        if whole.contains('.') {
            let i = choose|i: int| 0 <= i < whole.len() && whole[i] == '.';
            assert(text::is_digit(whole[i]));
        }
    }
    text::lemma_halves_of_a_join(whole, '.', fraction);
    text::lemma_halves_rejoin(s, 'e');
    match text::halves(s, 'e') {
        Some((before, after)) => {
            assert(s[before.len() as int] == 'e');
        },
        None => {},
    }
}

/// A decimal with a point reads as its digits, divided by ten for every digit
/// behind the point, with a minus in front or without.
pub proof fn lemma_a_decimal_reads_as_its_digits(
    negative: bool,
    whole: Seq<char>,
    fraction: Seq<char>,
)
    requires
        text::all_digits(whole),
        text::all_digits(fraction),
        whole.len() + fraction.len() > 0,
    ensures
        number_of(sign(negative) + pointed(whole, fraction)) == Some(
            Number::Finite {
                negative,
                digits: text::digits_value(whole + fraction),
                exponent: -(fraction.len() as int),
            },
        ),
        number_of(seq!['+'] + pointed(whole, fraction)) == number_of(pointed(whole, fraction)),
{
    let body = pointed(whole, fraction);
    let s = sign(negative) + body;
    lemma_pointed(whole, fraction);
    assert(text::is_digit(body[0]) || body[0] == '.');
    assert(unsigned_part(s) =~= body);
    assert((seq!['+'] + body).drop_first() =~= body);
    lemma_plain_has_no_case(body);
    lemma_no_word(body);
    assert(sign(false) + body =~= body);
    assert(unsigned_part(body) == body);
}

/// What starts with a digit or a point is none of the words.
proof fn lemma_no_word(body: Seq<char>)
    requires
        body.len() > 0,
        text::is_digit(body[0]) || body[0] == '.',
    ensures
        body != "nan"@,
        body != "inf"@,
        body != "infinity"@,
{
    reveal_strlit("nan");
    reveal_strlit("inf");
    reveal_strlit("infinity");
    assert("nan"@[0] == 'n' && "inf"@[0] == 'i' && "infinity"@[0] == 'i');
}

/// A number behind an `e`, in either case, moves the point by so many places:
/// to the right, or with a minus to the left.
pub proof fn lemma_an_exponent_moves_the_point(
    whole: Seq<char>,
    fraction: Seq<char>,
    e: char,
    left: bool,
    places: Seq<char>,
)
    requires
        text::all_digits(whole),
        text::all_digits(fraction),
        whole.len() + fraction.len() > 0,
        e == 'e' || e == 'E',
        text::all_digits(places),
        places.len() > 0,
    ensures
        number_of(pointed(whole, fraction).push(e) + (sign(left) + places)) == Some(
            Number::Finite {
                negative: false,
                digits: text::digits_value(whole + fraction),
                exponent: (if left {
                    -text::digits_value(places)
                } else {
                    text::digits_value(places) as int
                }) - fraction.len(),
            },
        ),
{
    let amount = pointed(whole, fraction);
    let power = sign(left) + places;
    let s = amount.push(e) + power;
    let body = amount.push('e') + power;
    lemma_pointed(whole, fraction);
    assert(text::is_digit(amount[0]) || amount[0] == '.');
    assert(s[0] == amount[0] && body[0] == amount[0]);
    assert(unsigned_part(s) == s);
    assert forall|i: int| 0 <= i < s.len() implies lower(#[trigger] s[i]) == body[i] by {
        if i < amount.len() {
            assert(text::is_digit(amount[i]) || amount[i] == '.');
        } else if i > amount.len() {
            let k = i - amount.len() - 1;
            assert(s[i] == power[k]);
            if left && k == 0 {
            } else if left {
                assert(text::is_digit(places[k - 1]));
            } else {
                assert(text::is_digit(places[k]));
            }
        }
    }
    assert(lowered(s) =~= body);
    lemma_no_word(body);
    assert(!amount.contains('e')) by {
        if amount.contains('e') {
            let i = choose|i: int| 0 <= i < amount.len() && amount[i] == 'e';
            assert(text::is_digit(amount[i]) || amount[i] == '.');
        }
    }
    text::lemma_halves_of_a_join(amount, 'e', power);
    assert(text::is_digit(places[0]));
    assert(unsigned_part(power) =~= places);
}

/// Nothing is no number, and neither is anything with a character in it that no
/// number has, unless it is one of the words.
pub proof fn lemma_what_is_no_number(s: Seq<char>, i: int)
    requires
        0 <= i < s.len(),
        !text::is_digit(s[i]),
        s[i] != '.' && s[i] != 'e' && s[i] != 'E' && s[i] != '+' && s[i] != '-',
        lowered(unsigned_part(s)) != "nan"@,
        lowered(unsigned_part(s)) != "inf"@,
        lowered(unsigned_part(s)) != "infinity"@,
    ensures
        number_of(s) is None,
        number_of(Seq::empty()) is None,
{
    let bare = unsigned_part(s);
    let body = lowered(bare);
    let k = if bare.len() < s.len() {
        i - 1
    } else {
        i
    };
    assert(bare[k] == s[i]);
    assert(body[k] == lower(s[i]));
    let odd = body[k];
    assert(!text::is_digit(odd) && odd != '.' && odd != 'e' && odd != '+' && odd != '-');
    text::lemma_halves_rejoin(body, 'e');
    match text::halves(body, 'e') {
        Some((amount, power)) => {
            if k < amount.len() {
                assert(amount[k] == odd);
                lemma_odd_is_no_decimal(amount, k);
            } else {
                let p = k - amount.len() - 1;
                assert(power[p] == odd);
                let digits = unsigned_part(power);
                let q = if digits.len() < power.len() {
                    p - 1
                } else {
                    p
                };
                assert(digits[q] == odd);
                assert(!text::all_digits(digits)) by {
                    assert(!text::is_digit(digits[q]));
                }
            }
        },
        None => {
            lemma_odd_is_no_decimal(body, k);
        },
    }
    let none = Seq::<char>::empty();
    assert(unsigned_part(none) == none);
    assert(lowered(none) =~= none);
    reveal_strlit("nan");
    reveal_strlit("inf");
    reveal_strlit("infinity");
    assert(text::halves(none, 'e') is None);
    assert(text::halves(none, '.') is None);
}

/// A decimal is digits and a point.
proof fn lemma_odd_is_no_decimal(s: Seq<char>, k: int)
    requires
        0 <= k < s.len(),
        !text::is_digit(s[k]),
        s[k] != '.',
    ensures
        decimal_part(s) is None,
{
    let (whole, fraction) = point_parts(s);
    text::lemma_halves_rejoin(s, '.');
    match text::halves(s, '.') {
        Some((before, after)) => {
            if k < before.len() {
                assert(!text::is_digit(before[k]));
            } else {
                assert(!text::is_digit(after[k - before.len() - 1]));
            }
        },
        None => {
            assert(!text::is_digit(whole[k]));
        },
    }
}

/// Digits without a point read as they are, with an exponent behind them or
/// without, and a sign in front or none.
pub proof fn lemma_digits_read_as_they_are(
    negative: bool,
    digits: Seq<char>,
    e: char,
    left: bool,
    places: Seq<char>,
)
    requires
        text::all_digits(digits),
        digits.len() > 0,
        e == 'e' || e == 'E',
        text::all_digits(places),
        places.len() > 0,
    ensures
        number_of(sign(negative) + digits) == Some(
            Number::Finite { negative, digits: text::digits_value(digits), exponent: 0 },
        ),
        number_of(sign(negative) + (digits.push(e) + (sign(left) + places))) == Some(
            Number::Finite {
                negative,
                digits: text::digits_value(digits),
                exponent: if left {
                    -text::digits_value(places)
                } else {
                    text::digits_value(places) as int
                },
            },
        ),
        number_of(sign(negative) + digits.push(e)) is None,
{
    let power = sign(left) + places;
    let bare = digits.push(e) + power;
    let body = digits.push('e') + power;
    let s = sign(negative) + bare;
    assert(text::is_digit(digits[0]));
    assert(text::is_digit(places[0]));
    assert(unsigned_part(sign(negative) + digits) =~= digits);
    assert(unsigned_part(s) =~= bare);
    assert(unsigned_part(sign(negative) + digits.push(e)) =~= digits.push(e));
    assert forall|i: int| 0 <= i < digits.len() implies lower(#[trigger] digits[i]) == digits[i] by {
        assert(text::is_digit(digits[i]));
    }
    assert(lowered(digits) =~= digits);
    assert(lowered(digits.push(e)) =~= digits.push('e'));
    assert forall|i: int| 0 <= i < bare.len() implies lower(#[trigger] bare[i]) == body[i] by {
        if i < digits.len() {
            assert(lower(digits[i]) == digits[i]);
        } else if i > digits.len() {
            let k = i - digits.len() - 1;
            assert(bare[i] == power[k]);
            if left && k == 0 {
            } else if left {
                assert(text::is_digit(places[k - 1]));
            } else {
                assert(text::is_digit(places[k]));
            }
        }
    }
    assert(lowered(bare) =~= body);
    lemma_no_word(digits);
    lemma_no_word(body);
    lemma_no_word(digits.push('e'));
    lemma_digits_are_one_piece(digits, 'e');
    lemma_digits_are_one_piece(digits, '.');
    assert(digits + Seq::<char>::empty() =~= digits);
    assert(!digits.contains('e')) by {
        if digits.contains('e') {
            let i = choose|i: int| 0 <= i < digits.len() && digits[i] == 'e';
            assert(text::is_digit(digits[i]));
        }
    }
    text::lemma_halves_of_a_join(digits, 'e', power);
    text::lemma_halves_of_a_join(digits, 'e', Seq::empty());
    assert(digits.push('e') + Seq::<char>::empty() =~= digits.push('e'));
    assert(unsigned_part(power) =~= places);
}

/// The words for what is no number are read in any case, with a sign in front
/// or none.
pub proof fn lemma_the_words(s: Seq<char>)
    ensures
        lowered(unsigned_part(s)) == "nan"@ ==> number_of(s) == Some(Number::Nan),
        lowered(unsigned_part(s)) == "inf"@ || lowered(unsigned_part(s)) == "infinity"@
            ==> number_of(s) == Some(Number::Infinite { negative: s.len() > 0 && s[0] == '-' }),
{
    reveal_strlit("nan");
    reveal_strlit("inf");
    reveal_strlit("infinity");
    assert("nan"@[0] == 'n' && "inf"@[0] == 'i' && "infinity"@[0] == 'i');
}

/// A capital without its case is the letter thirty-two places on, and nothing
/// else changes.
pub proof fn lemma_what_lower_case_is(c: char)
    ensures
        'A' <= c <= 'Z' ==> lower(c) as int == c as int + 32,
        !('A' <= c <= 'Z') ==> lower(c) == c,
        sign(true) == seq!['-'],
        sign(false).len() == 0,
{
}

} // verus!
