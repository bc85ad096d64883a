//! Slurm's trackable-resource lists, as `squeue --Format=tres-alloc` and
//! `sacct --format=AllocTRES` both report them: `cpu=96,mem=4800G,node=3,
//! billing=96,gres/gpu=24`. Both are totals across the job's nodes, unlike
//! squeue's older `%b` and `%m`, which are per node.

use vstd::prelude::*;

use crate::double;
use crate::natural;
use crate::natural::Natural;
use crate::number;
use crate::number::{Number, Reading};
use crate::text;

verus! {

/// The value of the first of `entries` that is `key=value`.
pub open spec fn lookup(entries: Seq<Seq<char>>, key: Seq<char>) -> Option<Seq<char>>
    decreases entries.len(),
{
    if entries.len() == 0 {
        None
    } else {
        let rest = lookup(entries.drop_first(), key);
        match text::halves(entries[0], '=') {
            Some((name, value)) => if name == key {
                Some(value)
            } else {
                rest
            },
            None => rest,
        }
    }
}

/// The value a TRES list gives `key`: the list is entries between commas, and
/// an entry without an `=` names nothing.
pub open spec fn value_of(spec: Seq<char>, key: Seq<char>) -> Option<Seq<char>> {
    lookup(text::pieces(spec, ','), key)
}

/// Pull one value out of a TRES list.
pub fn value<'a>(spec: &'a str, key: &str) -> (r: Option<&'a str>)
    ensures
        match r {
            Some(value) => value_of(spec@, key@) == Some(value@),
            None => value_of(spec@, key@) is None,
        },
{
    let entries = text::split(spec, ',');
    let ghost all = text::slices(entries@);
    assert(all.skip(0) == all);
    let mut i: usize = 0;
    while i < entries.len()
        invariant
            i <= entries.len(),
            all == text::slices(entries@),
            all == text::pieces(spec@, ','),
            lookup(all, key@) == lookup(all.skip(i as int), key@),
        decreases entries.len() - i,
    {
        assert(all.skip(i as int).drop_first() == all.skip(i + 1));
        assert(all.skip(i as int)[0] == entries@[i as int]@);
        match text::split_once(entries[i], '=') {
            Some((name, value)) => {
                if text::same(name, key) {
                    return Some(value);
                }
            },
            None => {},
        }
        i += 1;
    }
    None
}

/// How many of a unit make a gigabyte, and how many gigabytes make one.
pub open spec fn unit_scale(unit: char) -> Option<(nat, nat)> {
    if unit == 'K' {
        Some((1024 * 1024, 1))
    } else if unit == 'M' {
        Some((1024, 1))
    } else if unit == 'G' {
        Some((1, 1))
    } else if unit == 'T' {
        Some((1, 1024))
    } else {
        None
    }
}

/// A number of some unit in whole gigabytes, as double precision has it.
pub open spec fn whole_gigabytes(number: Number, per: nat, of: nat) -> Seq<char> {
    match number {
        Number::Nan => "NaN"@,
        Number::Infinite { negative } => number::sign(negative) + "inf"@,
        Number::Finite { negative, digits, exponent } => number::sign(negative) + double::shown(
            digits * of * natural::ten_to(number::upwards(exponent)),
            per * natural::ten_to(number::upwards(-exponent)),
            per,
        ),
    }
}

/// A memory amount in whole gigabytes. One that is not a number and a known
/// unit is as it was.
pub open spec fn gigabytes_of(mem: Seq<char>) -> Seq<char> {
    if mem.len() == 0 {
        mem
    } else {
        match (unit_scale(mem.last()), number::number_of(mem.drop_last())) {
            (Some((per, of)), Some(number)) => whole_gigabytes(number, per, of) + seq!['G'],
            _ => mem,
        }
    }
}

/// How many of a unit make a gigabyte, and how many gigabytes make one.
fn scale(unit: char) -> (r: Option<(u64, u64)>)
    ensures
        match r {
            Some((per, of)) => {
                &&& unit_scale(unit) == Some((per as nat, of as nat))
                &&& 1 <= per <= 1024 * 1024
                &&& 1 <= of <= 1024
            },
            None => unit_scale(unit) is None,
        },
{
    if unit == 'K' {
        Some((1024 * 1024, 1))
    } else if unit == 'M' {
        Some((1024, 1))
    } else if unit == 'G' {
        Some((1, 1))
    } else if unit == 'T' {
        Some((1, 1024))
    } else {
        None
    }
}

/// So many times a power of ten of some unit, in whole gigabytes.
fn show_amount(
    digits: &Natural,
    e: i128,
    Ghost(power): Ghost<int>,
    per: u64,
    of: u64,
) -> (r: String)
    requires
        number::tells(e, power),
        e >= -2 * number::MOST,
        1 <= per <= 1024 * 1024,
        1 <= of,
    ensures
        r@ == double::shown(
            digits@ * (of as nat) * natural::ten_to(number::upwards(power)),
            (per as nat) * natural::ten_to(number::upwards(-power)),
            per as nat,
        ),
{
    let amount = digits.scaled(of, 0);
    let ghost num = amount@ * natural::ten_to(number::upwards(power));
    let ghost den = (per as nat) * natural::ten_to(number::upwards(-power));
    proof {
        natural::lemma_ten_is_positive(number::upwards(power));
        natural::lemma_ten_is_positive(number::upwards(-power));
        assert(den >= 1) by (nonlinear_arith)
            requires
                den == (per as nat) * natural::ten_to(number::upwards(-power)),
                per >= 1,
                natural::ten_to(number::upwards(-power)) >= 1,
        ;
    }
    let one = Natural::of(1);
    if !amount.at_least(&one) {
        proof {
            assert(num == 0) by (nonlinear_arith)
                requires
                    num == amount@ * natural::ten_to(number::upwards(power)),
                    amount@ == 0,
            ;
            double::lemma_a_little_is_nothing(num, den);
        }
        return text::decimal(0);
    }
    // A power of ten beyond what a double holds is not worth writing out.
    if e > double::FAR as i128 {
        proof {
            natural::lemma_tens_grow(double::FAR as nat, power as nat);
            assert(num >= natural::ten_to(power as nat)) by (nonlinear_arith)
                requires
                    num == amount@ * natural::ten_to(power as nat),
                    amount@ >= 1,
            ;
            natural::lemma_ten_to_zero(per as int);
            double::lemma_a_great_power_is_infinite(num, per as nat);
        }
        return "inf".to_string();
    }
    if e >= 0 {
        let top = amount.shifted(e as u128);
        let bottom = Natural::of(per as u128);
        proof {
            natural::lemma_ten_to_zero(per as int);
        }
        return double::show(&top, &bottom, per);
    }
    let places = amount.len();
    if -e > places as i128 {
        proof {
            natural::lemma_tens_grow((places + 1) as nat, (-power) as nat);
            natural::lemma_ten_to_zero(amount@ as int);
            assert(den >= natural::ten_to((-power) as nat)) by (nonlinear_arith)
                requires
                    den == (per as nat) * natural::ten_to((-power) as nat),
                    per >= 1,
            ;
            double::lemma_a_little_is_nothing(num, den);
        }
        return text::decimal(0);
    }
    let bottom = Natural::of(per as u128).shifted((-e) as u128);
    proof {
        natural::lemma_ten_to_zero(amount@ as int);
    }
    double::show(&amount, &bottom, per)
}

/// A job is allocated memory in whatever unit it asked in, so put them all in
/// gigabytes and let the column compare like with like.
pub fn gigabytes(mem: &str) -> (r: String)
    ensures
        r@ == gigabytes_of(mem@),
{
    let len = mem.unicode_len();
    if len == 0 {
        return mem.to_string();
    }
    assert(mem@.subrange(0, len - 1) == mem@.drop_last());
    let number = number::read_number(mem.substring_char(0, len - 1));
    match (scale(mem.get_char(len - 1)), number) {
        (Some((per, of)), Some(number)) => {
            let mut r = String::new();
            match number {
                Reading::Nan => {
                    r.append("NaN");
                },
                Reading::Infinite(negative) => {
                    if negative {
                        r.push('-');
                    }
                    r.append("inf");
                    assert(r@ =~= number::sign(negative) + "inf"@);
                },
                Reading::Finite(negative, digits, e) => {
                    let ghost power = number::number_of(mem@.drop_last())->0->exponent;
                    let whole = show_amount(&digits, e, Ghost(power), per, of);
                    if negative {
                        r.push('-');
                    }
                    r.append(whole.as_str());
                    assert(r@ =~= number::sign(negative) + whole@);
                },
            }
            r.push('G');
            assert(r@ =~= gigabytes_of(mem@));
            r
        },
        _ => mem.to_string(),
    }
}

/// What a column shows for one resource of a TRES list, a `-` for none.
pub open spec fn resource_of(spec: Seq<char>, key: Seq<char>) -> Seq<char> {
    match value_of(spec, key) {
        Some(value) => value,
        None => seq!['-'],
    }
}

/// What a column shows for one resource of a TRES list. A job that asked for
/// none has no entry at all, rather than a zero.
pub fn resource(spec: &str, key: &str) -> (r: String)
    ensures
        r@ == resource_of(spec@, key@),
{
    match value(spec, key) {
        Some(value) => value.to_string(),
        None => dash(),
    }
}

/// What the memory column shows for a TRES list, a `-` for none.
pub open spec fn memory_of(spec: Seq<char>) -> Seq<char> {
    match value_of(spec, "mem"@) {
        Some(mem) => gigabytes_of(mem),
        None => seq!['-'],
    }
}

/// What the memory column shows for a TRES list.
pub fn memory(spec: &str) -> (r: String)
    ensures
        r@ == memory_of(spec@),
{
    match value(spec, "mem") {
        Some(mem) => gigabytes(mem),
        None => dash(),
    }
}

/// What a column shows for nothing.
pub fn dash() -> (r: String)
    ensures
        r@ == seq!['-'],
{
    let mut r = String::new();
    r.push('-');
    assert(r@ == seq!['-']);
    r
}

/// The first entry for a key is found, whatever stands around it.
proof fn lemma_lookup_finds_the_first(
    before: Seq<Seq<char>>,
    key: Seq<char>,
    value: Seq<char>,
    after: Seq<Seq<char>>,
)
    requires
        !key.contains('='),
        lookup(before, key) is None,
    ensures
        lookup(before.push(key.push('=') + value) + after, key) == Some(value),
    decreases before.len(),
{
    let entry = key.push('=') + value;
    let all = before.push(entry) + after;
    if before.len() == 0 {
        text::lemma_halves_of_a_join(key, '=', value);
        assert(all[0] == entry);
    } else {
        assert(all[0] == before[0]);
        assert(all.drop_first() == before.drop_first().push(entry) + after);
        lemma_lookup_finds_the_first(before.drop_first(), key, value, after);
    }
}

/// A list gives a key the value of the first entry for it: entries for other
/// keys in front of it do not matter, nor does anything after it.
pub proof fn lemma_the_first_entry_answers(
    before: Seq<Seq<char>>,
    key: Seq<char>,
    value: Seq<char>,
    after: Seq<Seq<char>>,
)
    requires
        !key.contains('='),
        lookup(before, key) is None,
        forall|i: int|
            0 <= i < before.len() + 1 + after.len() ==> !(#[trigger] (before.push(
                key.push('=') + value,
            ) + after)[i]).contains(','),
    ensures
        value_of(text::joined(before.push(key.push('=') + value) + after, ','), key) == Some(
            value,
        ),
{
    text::lemma_joined_comes_apart_everywhere(before.push(key.push('=') + value) + after, ',');
    lemma_lookup_finds_the_first(before, key, value, after);
}

/// Every number in one of the four units comes out in gigabytes, and anything
/// else passes through rather than vanishing.
pub proof fn lemma_every_number_is_in_gigabytes(mem: Seq<char>)
    ensures
        mem.len() > 0 && unit_scale(mem.last()) is Some && number::number_of(mem.drop_last()) is Some
            ==> gigabytes_of(mem).len() > 0 && gigabytes_of(mem).last() == 'G',
        !(mem.len() > 0 && unit_scale(mem.last()) is Some && number::number_of(mem.drop_last()) is Some)
            ==> gigabytes_of(mem) == mem,
{
}

/// Gigabytes are gigabytes: converting once more changes nothing.
pub proof fn lemma_gigabytes_stay_gigabytes(mem: Seq<char>)
    ensures
        gigabytes_of(gigabytes_of(mem)) == gigabytes_of(mem),
{
    if mem.len() > 0 {
        match (unit_scale(mem.last()), number::number_of(mem.drop_last())) {
            (Some((per, of)), Some(number)) => {
                let whole = whole_gigabytes(number, per, of);
                let once = gigabytes_of(mem);
                assert(once.last() == 'G');
                assert(once.drop_last() =~= whole);
                match number {
                    Number::Nan => {
                        number::lemma_words_read_back(false);
                    },
                    Number::Infinite { negative } => {
                        number::lemma_words_read_back(negative);
                    },
                    Number::Finite { negative, digits, exponent } => {
                        lemma_finite_stays(negative, digits, exponent, per, of);
                    },
                }
            },
            _ => {},
        }
    }
}

/// What a finite number comes to in gigabytes comes to the same again.
proof fn lemma_finite_stays(negative: bool, digits: nat, exponent: int, per: nat, of: nat)
    requires
        per > 0,
    ensures
        ({
            let whole = whole_gigabytes(Number::Finite { negative, digits, exponent }, per, of);
            number::number_of(whole) matches Some(again) && whole_gigabytes(again, 1, 1) == whole
        }),
{
    let num = digits * of * natural::ten_to(number::upwards(exponent));
    let den = per * natural::ten_to(number::upwards(-exponent));
    natural::lemma_ten_is_positive(number::upwards(-exponent));
    assert(den >= 1) by (nonlinear_arith)
        requires
            den == per * natural::ten_to(number::upwards(-exponent)),
            per >= 1,
            natural::ten_to(number::upwards(-exponent)) >= 1,
    ;
    double::lemma_shown_stays_shown(num, den, per);
    number::lemma_words_read_back(negative);
    let n = if num <= double::TOP * den {
        double::rounded(num, den)
    } else {
        double::shortest(double::double_above(num, den))
    };
    number::lemma_number_reads_back(n, negative);
    natural::lemma_ten_to_zero(n as int);
    natural::lemma_ten_to_zero(1);
}

/// What a whole amount in some unit reads as.
proof fn lemma_whole_amount(n: nat, unit: char, per: nat, of: nat)
    requires
        unit_scale(unit) == Some((per, of)),
    ensures
        gigabytes_of(text::decimal_of(n).push(unit)) == double::shown(n * of, per, per).push('G'),
{
    let digits = text::decimal_of(n);
    number::lemma_number_reads_back(n, false);
    assert(number::sign(false) + digits =~= digits);
    assert(digits.push(unit).drop_last() =~= digits);
    natural::lemma_ten_to_zero((n * of) as int);
    natural::lemma_ten_to_zero(per as int);
    let shown = double::shown(n * of, per, per);
    assert(number::sign(false) + shown + seq!['G'] =~= shown.push('G'));
}

/// The same amount of memory reads the same in every unit, so the column
/// compares like with like.
pub proof fn lemma_units_agree(n: nat)
    requires
        n <= double::TOP,
    ensures
        gigabytes_of(text::decimal_of(n * (1024 * 1024)).push('K')) == text::decimal_of(n).push(
            'G',
        ),
        gigabytes_of(text::decimal_of(n * 1024).push('M')) == text::decimal_of(n).push('G'),
        gigabytes_of(text::decimal_of(n).push('G')) == text::decimal_of(n).push('G'),
        gigabytes_of(text::decimal_of(n).push('T')) == gigabytes_of(
            text::decimal_of(n * 1024).push('G'),
        ),
{
    lemma_whole_amount(n * (1024 * 1024), 'K', 1024 * 1024, 1);
    lemma_whole_amount(n * 1024, 'M', 1024, 1);
    lemma_whole_amount(n, 'G', 1, 1);
    lemma_whole_amount(n, 'T', 1, 1024);
    lemma_whole_amount(n * 1024, 'G', 1, 1);
    double::lemma_multiple_is_kept(n, 1024 * 1024, 1024 * 1024);
    double::lemma_multiple_is_kept(n, 1024, 1024);
    double::lemma_multiple_is_kept(n, 1, 1);
}

/// A list gives a key the value of one of its entries, the first that names the
/// key, and gives it nothing when no entry does.
pub proof fn lemma_an_entry_answers_or_none_does(spec: Seq<char>, key: Seq<char>)
    requires
        !key.contains('='),
    ensures
        ({
            let entries = text::pieces(spec, ',');
            match value_of(spec, key) {
                Some(value) => exists|i: int|
                    0 <= i < entries.len() && #[trigger] entries[i] == key.push('=') + value
                        && forall|j: int|
                        0 <= j < i ==> !text::begins(#[trigger] entries[j], key.push('=')),
                None => forall|i: int|
                    0 <= i < entries.len() ==> !text::begins(#[trigger] entries[i], key.push('=')),
            }
        }),
{
    lemma_lookup_is_the_first(text::pieces(spec, ','), key);
}

/// An entry names a key when it starts with the key and an equals sign.
proof fn lemma_what_an_entry_names(entry: Seq<char>, key: Seq<char>)
    requires
        !key.contains('='),
    ensures
        match text::halves(entry, '=') {
            Some((name, value)) => {
                &&& name == key ==> entry == key.push('=') + value
                &&& name == key <==> text::begins(entry, key.push('='))
            },
            None => !text::begins(entry, key.push('=')),
        },
{
    text::lemma_halves_rejoin(entry, '=');
    match text::halves(entry, '=') {
        Some((name, value)) => {
            if name == key {
                assert(entry.take(key.len() as int + 1) == key.push('='));
            }
            if text::begins(entry, key.push('=')) {
                let rest = entry.skip(key.len() as int + 1);
                assert(entry == key.push('=') + rest);
                text::lemma_halves_of_a_join(key, '=', rest);
            }
        },
        None => {
            if text::begins(entry, key.push('=')) {
                assert(entry[key.len() as int] == entry.take(key.len() as int + 1)[key.len() as int]);
                assert(entry.contains('='));
            }
        },
    }
}

/// What is looked up is the first entry for the key.
proof fn lemma_lookup_is_the_first(entries: Seq<Seq<char>>, key: Seq<char>)
    requires
        !key.contains('='),
    ensures
        match lookup(entries, key) {
            Some(value) => exists|i: int|
                0 <= i < entries.len() && #[trigger] entries[i] == key.push('=') + value
                    && forall|j: int|
                    0 <= j < i ==> !text::begins(#[trigger] entries[j], key.push('=')),
            None => forall|i: int|
                0 <= i < entries.len() ==> !text::begins(#[trigger] entries[i], key.push('=')),
        },
    decreases entries.len(),
{
    if entries.len() > 0 {
        let rest = entries.drop_first();
        lemma_what_an_entry_names(entries[0], key);
        lemma_lookup_is_the_first(rest, key);
        if text::begins(entries[0], key.push('=')) {
            assert(entries[0] == key.push('=') + lookup(entries, key)->0);
        } else {
            match lookup(entries, key) {
                Some(value) => {
                    let i = choose|i: int|
                        0 <= i < rest.len() && #[trigger] rest[i] == key.push('=') + value
                            && forall|j: int|
                            0 <= j < i ==> !text::begins(#[trigger] rest[j], key.push('='));
                    assert(entries[i + 1] == key.push('=') + value);
                    assert forall|j: int| 0 <= j < i + 1 implies !text::begins(
                        #[trigger] entries[j],
                        key.push('='),
                    ) by {
                        if j > 0 {
                            assert(entries[j] == rest[j - 1]);
                        }
                    }
                },
                None => {
                    assert forall|i: int| 0 <= i < entries.len() implies !text::begins(
                        #[trigger] entries[i],
                        key.push('='),
                    ) by {
                        if i > 0 {
                            assert(entries[i] == rest[i - 1]);
                        }
                    }
                },
            }
        }
    }
}

/// A column shows the value a list gives its resource, memory in gigabytes, and
/// a dash where the list gives none.
pub proof fn lemma_a_column_shows_the_value(spec: Seq<char>, key: Seq<char>)
    ensures
        match value_of(spec, key) {
            Some(value) => resource_of(spec, key) == value,
            None => resource_of(spec, key) == seq!['-'],
        },
        match value_of(spec, "mem"@) {
            Some(value) => memory_of(spec) == gigabytes_of(value),
            None => memory_of(spec) == seq!['-'],
        },
{
}

/// A whole amount of a smaller unit comes to the nearest gigabyte, a half
/// rounding up.
pub proof fn lemma_memory_is_the_nearest_gigabyte(n: nat)
    requires
        n <= double::TOP,
    ensures
        gigabytes_of(text::decimal_of(n).push('M')) == text::decimal_of((n + 512) / 1024).push('G'),
        gigabytes_of(text::decimal_of(n).push('K')) == text::decimal_of(
            (n + 512 * 1024) / (1024 * 1024),
        ).push('G'),
{
    lemma_whole_amount(n, 'M', 1024, 1);
    lemma_whole_amount(n, 'K', 1024 * 1024, 1);
    double::lemma_a_fraction_of_two_is_rounded(n, 10);
    double::lemma_a_fraction_of_two_is_rounded(n, 20);
    assert((2 * n + 1024) / 2048 == (n + 512) / 1024);
    assert((2 * n + 0x10_0000) / 0x20_0000 == (n + 0x8_0000) / 0x10_0000);
}

/// Any amount of memory, with a point in it or an exponent, comes to the nearest
/// gigabyte, or nearly: no further from it than seven tenths of one, as long as
/// a double has a few bits to spare for it. Its sign stays.
pub proof fn lemma_any_memory_is_near_its_gigabytes(
    mem: Seq<char>,
    negative: bool,
    digits: nat,
    exponent: int,
    per: nat,
    of: nat,
) -> (n: nat)
    requires
        mem.len() > 0,
        unit_scale(mem.last()) == Some((per, of)),
        number::number_of(mem.drop_last()) == Some(
            Number::Finite { negative, digits, exponent },
        ),
        32 * (digits * of * natural::ten_to(number::upwards(exponent))) <= double::TOP * (per
            * natural::ten_to(number::upwards(-exponent))),
    ensures
        ({
            let num = digits * of * natural::ten_to(number::upwards(exponent));
            let den = per * natural::ten_to(number::upwards(-exponent));
            &&& gigabytes_of(mem) == number::sign(negative) + text::decimal_of(n) + seq!['G']
            &&& 10 * (n * den) <= 10 * num + 7 * den
            &&& 10 * num <= 10 * (n * den) + 7 * den
        }),
{
    let num = digits * of * natural::ten_to(number::upwards(exponent));
    let den = per * natural::ten_to(number::upwards(-exponent));
    natural::lemma_ten_is_positive(number::upwards(-exponent));
    assert(den >= 1) by (nonlinear_arith)
        requires
            den == per * natural::ten_to(number::upwards(-exponent)),
            per >= 1,
            natural::ten_to(number::upwards(-exponent)) >= 1,
    ;
    double::lemma_the_whole_is_near(num, den);
    double::rounded(num, den)
}

/// There are 1024 of each unit to the next, and no other unit is known.
pub proof fn lemma_the_units(unit: char)
    ensures
        unit_scale('K') == Some((1024nat * 1024, 1nat)),
        unit_scale('M') == Some((1024nat, 1nat)),
        unit_scale('G') == Some((1nat, 1nat)),
        unit_scale('T') == Some((1nat, 1024nat)),
        unit != 'K' && unit != 'M' && unit != 'G' && unit != 'T' ==> unit_scale(unit) is None,
{
}

} // verus!
