//! Reading text: the small vocabulary every parser here is written in.
//!
//! A specification speaks of a text as the sequence of its characters. The
//! executable half of each pair takes and returns string slices.

use vstd::prelude::*;

verus! {

/// `String::push` appends one character to the end of the string and leaves
/// the rest of it alone.
pub assume_specification[ String::push ](s: &mut String, c: char)
    ensures
        final(s)@ == old(s)@.push(c),
;

/// The text a run of bytes holds, with what is not UTF-8 in it replaced.
pub uninterp spec fn utf8_lossy(bytes: Seq<u8>) -> Seq<char>;

/// `String::from_utf8_lossy` reads bytes as text. What it makes of a run of
/// bytes has a name here; of bytes that are UTF-8 throughout, it is the text
/// they encode.
#[verifier::external_body]
pub(crate) fn from_utf8_lossy(bytes: &[u8]) -> (r: String)
    ensures
        r@ == utf8_lossy(bytes@),
        vstd::utf8::valid_utf8(bytes@) ==> r@ == vstd::utf8::decode_utf8(bytes@),
{
    String::from_utf8_lossy(bytes).into_owned()
}

/// Whether `c` has Unicode's `White_Space` property.
pub open spec fn is_space(c: char) -> bool {
    ||| '\u{9}' <= c <= '\u{d}'
    ||| c == ' '
    ||| c == '\u{85}'
    ||| c == '\u{a0}'
    ||| c == '\u{1680}'
    ||| '\u{2000}' <= c <= '\u{200a}'
    ||| c == '\u{2028}'
    ||| c == '\u{2029}'
    ||| c == '\u{202f}'
    ||| c == '\u{205f}'
    ||| c == '\u{3000}'
}

/// Whether `c` is a control character, Unicode's general category `Cc`.
pub open spec fn is_control(c: char) -> bool {
    c <= '\u{1f}' || '\u{7f}' <= c <= '\u{9f}'
}

/// Whether `c` is one of the ten ASCII digits.
pub open spec fn is_digit(c: char) -> bool {
    '0' <= c <= '9'
}

/// Whether `c` is an ASCII letter.
pub open spec fn is_letter(c: char) -> bool {
    'a' <= c <= 'z' || 'A' <= c <= 'Z'
}

/// The text without the white space it starts with.
pub open spec fn trimmed_start(s: Seq<char>) -> Seq<char>
    decreases s.len(),
{
    if s.len() > 0 && is_space(s[0]) {
        trimmed_start(s.drop_first())
    } else {
        s
    }
}

/// The text without the white space it ends with.
pub open spec fn trimmed_end(s: Seq<char>) -> Seq<char>
    decreases s.len(),
{
    if s.len() > 0 && is_space(s.last()) {
        trimmed_end(s.drop_last())
    } else {
        s
    }
}

/// The text without the white space at either end.
pub open spec fn trimmed(s: Seq<char>) -> Seq<char> {
    trimmed_end(trimmed_start(s))
}

/// The text without the run of `c` it ends with.
pub open spec fn without_trailing(s: Seq<char>, c: char) -> Seq<char>
    decreases s.len(),
{
    if s.len() > 0 && s.last() == c {
        without_trailing(s.drop_last(), c)
    } else {
        s
    }
}

/// Whether `prefix` is how `s` starts.
pub open spec fn begins(s: Seq<char>, prefix: Seq<char>) -> bool {
    prefix.len() <= s.len() && s.take(prefix.len() as int) == prefix
}

/// The text without however many copies of `prefix` it starts with.
pub open spec fn without_leading(s: Seq<char>, prefix: Seq<char>) -> Seq<char>
    decreases s.len(),
{
    if prefix.len() > 0 && begins(s, prefix) {
        without_leading(s.skip(prefix.len() as int), prefix)
    } else {
        s
    }
}

/// Where `c` first occurs in `s`, looking no earlier than `from`.
pub open spec fn index_from(s: Seq<char>, c: char, from: int) -> Option<int>
    decreases s.len() - from,
{
    if from < 0 || from >= s.len() {
        None
    } else if s[from] == c {
        Some(from)
    } else {
        index_from(s, c, from + 1)
    }
}

/// Whether `needle` occurs in `s` at `at`.
pub open spec fn occurs(s: Seq<char>, needle: Seq<char>, at: int) -> bool {
    0 <= at && at + needle.len() <= s.len() && s.subrange(at, at + needle.len()) == needle
}

/// Where `needle` first occurs in `s`, looking no earlier than `from`.
pub open spec fn find_from(s: Seq<char>, needle: Seq<char>, from: int) -> Option<int>
    decreases s.len() - from + 1,
{
    if from < 0 || from + needle.len() > s.len() {
        None
    } else if occurs(s, needle, from) {
        Some(from)
    } else {
        find_from(s, needle, from + 1)
    }
}

/// Where `needle` last occurs in `s`, looking no later than `from`.
pub open spec fn find_back(s: Seq<char>, needle: Seq<char>, from: int) -> Option<int>
    decreases from + 1,
{
    if from < 0 {
        None
    } else if occurs(s, needle, from) {
        Some(from)
    } else {
        find_back(s, needle, from - 1)
    }
}

/// What stands before and after the first `c`, or nothing without one.
pub open spec fn halves(s: Seq<char>, c: char) -> Option<(Seq<char>, Seq<char>)> {
    match index_from(s, c, 0) {
        Some(i) => Some((s.take(i), s.skip(i + 1))),
        None => None,
    }
}

/// What stands before and after the first `needle`, or nothing without one.
pub open spec fn halves_at(s: Seq<char>, needle: Seq<char>) -> Option<(Seq<char>, Seq<char>)> {
    match find_from(s, needle, 0) {
        Some(i) => Some((s.take(i), s.skip(i + needle.len()))),
        None => None,
    }
}

/// What stands before and after the last `needle`, or nothing without one.
pub open spec fn halves_at_last(s: Seq<char>, needle: Seq<char>) -> Option<(Seq<char>, Seq<char>)> {
    match find_back(s, needle, s.len() - needle.len()) {
        Some(i) => Some((s.take(i), s.skip(i + needle.len()))),
        None => None,
    }
}

/// The text in pieces, cut at every `c` until there are `limit` of them. The
/// last piece keeps any `c` of its own. There is always at least one piece.
pub open spec fn fields(s: Seq<char>, c: char, limit: nat) -> Seq<Seq<char>>
    decreases s.len(),
{
    if s.len() == 0 {
        seq![Seq::empty()]
    } else {
        let before = fields(s.drop_last(), c, limit);
        if s.last() == c && before.len() < limit {
            before.push(Seq::empty())
        } else {
            before.drop_last().push(before.last().push(s.last()))
        }
    }
}

/// The text in pieces, cut at every `c`.
pub open spec fn pieces(s: Seq<char>, c: char) -> Seq<Seq<char>>
    decreases s.len(),
{
    if s.len() == 0 {
        seq![Seq::empty()]
    } else {
        let before = pieces(s.drop_last(), c);
        if s.last() == c {
            before.push(Seq::empty())
        } else {
            before.drop_last().push(before.last().push(s.last()))
        }
    }
}

/// A line without the carriage return that was half of its line ending.
pub open spec fn without_return(line: Seq<char>) -> Seq<char> {
    if line.len() > 0 && line.last() == '\r' {
        line.drop_last()
    } else {
        line
    }
}

/// The lines of a text. A line ends with `\n` or `\r\n`, and the last one need
/// not: what stands after the final line ending is a line only if it is not
/// empty.
pub open spec fn lines_of(s: Seq<char>) -> Seq<Seq<char>> {
    let cut = pieces(s, '\n');
    let ended = cut.drop_last().map_values(|line: Seq<char>| without_return(line));
    if cut.last().len() == 0 {
        ended
    } else {
        ended.push(cut.last())
    }
}

/// The last of `lines` that is more than white space, without the white space
/// at either end of it.
pub open spec fn last_said(lines: Seq<Seq<char>>) -> Option<Seq<char>>
    decreases lines.len(),
{
    if lines.len() == 0 {
        None
    } else if trimmed(lines.last()).len() > 0 {
        Some(trimmed(lines.last()))
    } else {
        last_said(lines.drop_last())
    }
}

/// The views of a list of strings.
pub open spec fn views(list: Seq<String>) -> Seq<Seq<char>> {
    list.map_values(|s: String| s@)
}

/// The views of a list of string slices.
pub open spec fn slices(list: Seq<&str>) -> Seq<Seq<char>> {
    list.map_values(|s: &str| s@)
}

/// How many characters `s` starts with that are not white space.
pub open spec fn word_len(s: Seq<char>) -> nat
    decreases s.len(),
{
    if s.len() > 0 && !is_space(s[0]) {
        1 + word_len(s.drop_first())
    } else {
        0
    }
}

/// The first word of a text: its leading run of anything but white space.
pub open spec fn first_word(s: Seq<char>) -> Seq<char> {
    trimmed_start(s).take(word_len(trimmed_start(s)) as int)
}

/// What follows the first word of a text.
pub open spec fn after_word(s: Seq<char>) -> Seq<char> {
    trimmed_start(s).skip(word_len(trimmed_start(s)) as int)
}

/// Whether `s` is nothing but digits.
pub open spec fn all_digits(s: Seq<char>) -> bool {
    forall|i: int| 0 <= i < s.len() ==> is_digit(#[trigger] s[i])
}

/// The number a run of digits spells.
pub open spec fn digits_value(s: Seq<char>) -> nat
    decreases s.len(),
{
    if s.len() == 0 {
        0
    } else {
        digits_value(s.drop_last()) * 10 + (s.last() as nat - '0' as nat) as nat
    }
}

/// The number `s` spells: one or more digits behind an optional `+`, no
/// greater than `max`. Anything else is not a number.
pub open spec fn unsigned(s: Seq<char>, max: nat) -> Option<nat> {
    let digits = if s.len() > 0 && s[0] == '+' {
        s.drop_first()
    } else {
        s
    };
    if digits.len() > 0 && all_digits(digits) && digits_value(digits) <= max {
        Some(digits_value(digits))
    } else {
        None
    }
}

/// The digit that stands for `n`.
pub open spec fn digit_of(n: nat) -> char {
    ('0' as nat + n) as char
}

/// How a number is written, without leading zeroes.
pub open spec fn decimal_of(n: nat) -> Seq<char>
    decreases n,
{
    if n < 10 {
        seq![digit_of(n)]
    } else {
        decimal_of(n / 10).push(digit_of(n % 10))
    }
}

/// Whether `c` is white space.
pub fn space(c: char) -> (r: bool)
    ensures
        r == is_space(c),
{
    ('\u{9}' <= c && c <= '\u{d}') || c == ' ' || c == '\u{85}' || c == '\u{a0}' || c == '\u{1680}'
        || ('\u{2000}' <= c && c <= '\u{200a}') || c == '\u{2028}' || c == '\u{2029}' || c
        == '\u{202f}' || c == '\u{205f}' || c == '\u{3000}'
}

/// Whether `c` is a control character.
pub fn control(c: char) -> (r: bool)
    ensures
        r == is_control(c),
{
    c <= '\u{1f}' || ('\u{7f}' <= c && c <= '\u{9f}')
}

/// Whether `c` is an ASCII digit.
pub fn digit(c: char) -> (r: bool)
    ensures
        r == is_digit(c),
{
    '0' <= c && c <= '9'
}

/// Whether `c` is an ASCII letter.
pub fn letter(c: char) -> (r: bool)
    ensures
        r == is_letter(c),
{
    ('a' <= c && c <= 'z') || ('A' <= c && c <= 'Z')
}

/// The characters of a text.
pub fn chars(s: &str) -> (r: Vec<char>)
    ensures
        r@ == s@,
{
    let mut r: Vec<char> = Vec::new();
    for c in it: s.chars()
        invariant
            it.seq() == s@,
            r@ == s@.take(it.index()),
    {
        r.push(c);
    }
    r
}

/// Whether two texts are the same.
pub fn same(a: &str, b: &str) -> (r: bool)
    ensures
        r == (a@ == b@),
{
    let left = chars(a);
    let right = chars(b);
    if left.len() != right.len() {
        return false;
    }
    let mut i: usize = 0;
    while i < left.len()
        invariant
            i <= left.len() == right.len(),
            left@ == a@,
            right@ == b@,
            a@.take(i as int) == b@.take(i as int),
        decreases left.len() - i,
    {
        if left[i] != right[i] {
            return false;
        }
        i += 1;
    }
    assert(a@.take(i as int) == a@);
    assert(b@.take(i as int) == b@);
    true
}

/// The text without the white space at either end.
pub fn trim(s: &str) -> (r: &str)
    ensures
        r@ == trimmed(s@),
{
    let cs = chars(s);
    let mut i: usize = 0;
    assert(cs@.skip(0) == cs@);
    while i < cs.len() && space(cs[i])
        invariant
            i <= cs.len(),
            trimmed_start(cs@) == trimmed_start(cs@.skip(i as int)),
        decreases cs.len() - i,
    {
        assert(cs@.skip(i as int).drop_first() == cs@.skip(i + 1));
        i += 1;
    }
    let mut j: usize = cs.len();
    assert(cs@.subrange(i as int, j as int) == cs@.skip(i as int));
    while j > i && space(cs[j - 1])
        invariant
            i <= j <= cs.len(),
            trimmed_end(cs@.skip(i as int)) == trimmed_end(cs@.subrange(i as int, j as int)),
        decreases j,
    {
        assert(cs@.subrange(i as int, j as int).drop_last() == cs@.subrange(i as int, j - 1));
        j -= 1;
    }
    s.substring_char(i, j)
}

/// The text without the run of `c` it ends with.
pub fn trim_end_matches(s: &str, c: char) -> (r: &str)
    ensures
        r@ == without_trailing(s@, c),
{
    let cs = chars(s);
    let mut j: usize = cs.len();
    assert(cs@.take(j as int) == cs@);
    while j > 0 && cs[j - 1] == c
        invariant
            j <= cs.len(),
            without_trailing(cs@, c) == without_trailing(cs@.take(j as int), c),
        decreases j,
    {
        assert(cs@.take(j as int).drop_last() == cs@.take(j - 1));
        j -= 1;
    }
    assert(cs@.subrange(0, j as int) == cs@.take(j as int));
    s.substring_char(0, j)
}

/// Whether `prefix` is how `s` starts.
pub fn starts_with(s: &str, prefix: &str) -> (r: bool)
    ensures
        r == begins(s@, prefix@),
{
    let n = prefix.unicode_len();
    if n > s.unicode_len() {
        return false;
    }
    assert(s@.subrange(0, n as int) == s@.take(n as int));
    same(s.substring_char(0, n), prefix)
}

/// What follows `prefix`, for a text that starts with it.
pub fn strip_prefix<'a>(s: &'a str, prefix: &str) -> (r: Option<&'a str>)
    ensures
        r is Some <==> begins(s@, prefix@),
        r matches Some(rest) ==> rest@ == s@.skip(prefix@.len() as int),
{
    if starts_with(s, prefix) {
        Some(s.substring_char(prefix.unicode_len(), s.unicode_len()))
    } else {
        None
    }
}

/// The text without however many copies of `prefix` it starts with.
pub fn trim_start_matches<'a>(s: &'a str, prefix: &str) -> (r: &'a str)
    ensures
        r@ == without_leading(s@, prefix@),
{
    if prefix.is_empty() {
        return s;
    }
    let mut rest = s;
    loop
        invariant
            prefix@.len() > 0,
            without_leading(s@, prefix@) == without_leading(rest@, prefix@),
        decreases rest@.len(),
    {
        match strip_prefix(rest, prefix) {
            Some(next) => {
                rest = next;
            },
            None => {
                return rest;
            },
        }
    }
}

/// Where `c` first occurs.
pub fn index_of(cs: &Vec<char>, c: char) -> (r: Option<usize>)
    ensures
        match r {
            Some(i) => i < cs.len() && index_from(cs@, c, 0) == Some(i as int),
            None => index_from(cs@, c, 0) is None,
        },
{
    let mut i: usize = 0;
    while i < cs.len()
        invariant
            i <= cs.len(),
            index_from(cs@, c, 0) == index_from(cs@, c, i as int),
        decreases cs.len() - i,
    {
        if cs[i] == c {
            return Some(i);
        }
        i += 1;
    }
    None
}

/// What stands before and after the first `c`.
pub fn split_once(s: &str, c: char) -> (r: Option<(&str, &str)>)
    ensures
        match r {
            Some((before, after)) => halves(s@, c) == Some((before@, after@)),
            None => halves(s@, c) is None,
        },
{
    let cs = chars(s);
    match index_of(&cs, c) {
        Some(i) => {
            assert(s@.subrange(0, i as int) == s@.take(i as int));
            assert(s@.subrange(i + 1, s@.len() as int) == s@.skip(i + 1));
            Some((s.substring_char(0, i), s.substring_char(i + 1, cs.len())))
        },
        None => None,
    }
}

/// Whether `needle` occurs in `s` at `at`.
fn occurs_at(s: &str, needle: &str, at: usize) -> (r: bool)
    requires
        at + needle@.len() <= s@.len(),
    ensures
        r == occurs(s@, needle@, at as int),
{
    let len = s.unicode_len();
    let n = needle.unicode_len();
    assert(at + n <= len);
    same(s.substring_char(at, at + n), needle)
}

/// What stands before and after the `needle` at `at`.
fn cut_around<'a>(s: &'a str, needle: &str, at: usize) -> (r: (&'a str, &'a str))
    requires
        at + needle@.len() <= s@.len(),
    ensures
        r.0@ == s@.take(at as int),
        r.1@ == s@.skip(at + needle@.len()),
{
    assert(s@.subrange(0, at as int) == s@.take(at as int));
    assert(s@.subrange(at + needle@.len(), s@.len() as int) == s@.skip(at + needle@.len()));
    let len = s.unicode_len();
    let n = needle.unicode_len();
    assert(at + n <= len);
    (s.substring_char(0, at), s.substring_char(at + n, len))
}

/// What stands before and after the first `needle`.
pub fn split_once_at<'a>(s: &'a str, needle: &str) -> (r: Option<(&'a str, &'a str)>)
    ensures
        match r {
            Some((before, after)) => halves_at(s@, needle@) == Some((before@, after@)),
            None => halves_at(s@, needle@) is None,
        },
{
    let len = s.unicode_len();
    let n = needle.unicode_len();
    if n > len {
        return None;
    }
    let mut i: usize = 0;
    while i <= len - n
        invariant
            len == s@.len(),
            n == needle@.len(),
            n <= len,
            i <= len - n + 1,
            find_from(s@, needle@, 0) == find_from(s@, needle@, i as int),
        decreases len - i + 1,
    {
        if occurs_at(s, needle, i) {
            return Some(cut_around(s, needle, i));
        }
        if i == len - n {
            assert(find_from(s@, needle@, i + 1) is None);
            return None;
        }
        i += 1;
    }
    None
}

/// What stands before and after the last `needle`.
pub fn rsplit_once_at<'a>(s: &'a str, needle: &str) -> (r: Option<(&'a str, &'a str)>)
    ensures
        match r {
            Some((before, after)) => halves_at_last(s@, needle@) == Some((before@, after@)),
            None => halves_at_last(s@, needle@) is None,
        },
{
    let len = s.unicode_len();
    let n = needle.unicode_len();
    if n > len {
        return None;
    }
    let mut i: usize = len - n;
    loop
        invariant
            len == s@.len(),
            n == needle@.len(),
            i + n <= len,
            find_back(s@, needle@, len - n) == find_back(s@, needle@, i as int),
        decreases i,
    {
        if occurs_at(s, needle, i) {
            return Some(cut_around(s, needle, i));
        }
        if i == 0 {
            assert(find_back(s@, needle@, -1) is None);
            return None;
        }
        i -= 1;
    }
}

/// The text in pieces, cut at every `c`, or only until there are as many of
/// them as a limit allows.
fn cut<'a>(s: &'a str, c: char, limit: Option<usize>) -> (r: Vec<&'a str>)
    ensures
        slices(r@) == fields(
            s@,
            c,
            match limit {
                Some(limit) => limit as nat,
                None => s@.len() + 1,
            },
        ),
{
    let ghost most = match limit {
        Some(limit) => limit as nat,
        None => s@.len() + 1,
    };
    let cs = chars(s);
    let mut out: Vec<&'a str> = Vec::new();
    let mut start: usize = 0;
    let mut i: usize = 0;
    assert(slices(out@).push(cs@.subrange(0, 0)) =~~= fields(cs@.take(0), c, most));
    while i < cs.len()
        invariant
            start <= i <= cs.len(),
            cs@ == s@,
            most == (match limit {
                Some(limit) => limit as nat,
                None => s@.len() + 1,
            }),
            out@.len() <= start,
            slices(out@).push(cs@.subrange(start as int, i as int)) == fields(
                cs@.take(i as int),
                c,
                most,
            ),
        decreases cs.len() - i,
    {
        let ghost before = fields(cs@.take(i as int), c, most);
        assert(cs@.take(i + 1).drop_last() == cs@.take(i as int));
        assert(before.drop_last() == slices(out@));
        assert(before.last() == cs@.subrange(start as int, i as int));
        let more = match limit {
            Some(limit) => limit > 1 && out.len() < limit - 1,
            None => true,
        };
        if cs[i] == c && more {
            let piece = s.substring_char(start, i);
            let ghost gone = out@;
            out.push(piece);
            start = i + 1;
            assert(slices(out@) == slices(gone).push(piece@));
            assert(cs@.subrange(start as int, i + 1) == Seq::<char>::empty());
        } else {
            assert(cs@.subrange(start as int, i + 1) == cs@.subrange(start as int, i as int).push(
                cs@[i as int],
            ));
        }
        i += 1;
    }
    let ghost gone = out@;
    let last = s.substring_char(start, i);
    out.push(last);
    assert(slices(out@) == slices(gone).push(last@));
    assert(cs@.take(i as int) == cs@);
    out
}

/// The text in pieces, cut at every `c` until there are `limit` of them.
pub fn splitn(s: &str, c: char, limit: usize) -> (r: Vec<&str>)
    ensures
        slices(r@) == fields(s@, c, limit as nat),
{
    cut(s, c, Some(limit))
}

/// The text in pieces, cut at every `c`.
pub fn split(s: &str, c: char) -> (r: Vec<&str>)
    ensures
        slices(r@) == pieces(s@, c),
{
    proof {
        lemma_pieces_are_fields(s@, c, s@.len() + 1);
    }
    cut(s, c, None)
}

/// The text of a run of characters.
pub fn string_of(cs: &Vec<char>) -> (r: String)
    ensures
        r@ == cs@,
{
    let mut r = String::new();
    let mut i: usize = 0;
    while i < cs.len()
        invariant
            i <= cs.len(),
            r@ == cs@.take(i as int),
        decreases cs.len() - i,
    {
        r.push(cs[i]);
        i += 1;
    }
    r
}

/// The lines of a text, without their line endings.
pub fn lines(s: &str) -> (r: Vec<String>)
    ensures
        views(r@) == lines_of(s@),
{
    let mut out: Vec<String> = Vec::new();
    let mut current: Vec<char> = Vec::new();
    let ghost mut done: Seq<Seq<char>> = Seq::empty();
    assert(done.push(current@) =~~= pieces(s@.take(0), '\n'));
    for c in it: s.chars()
        invariant
            it.seq() == s@,
            done.push(current@) == pieces(s@.take(it.index()), '\n'),
            views(out@) == done.map_values(|line: Seq<char>| without_return(line)),
    {
        let ghost i = it.index();
        assert(s@.take(i + 1).drop_last() == s@.take(i));
        proof {
            let before = pieces(s@.take(i), '\n');
            assert(before.drop_last() == done);
            assert(before.last() == current@);
        }
        if c == '\n' {
            let ghost ended = current@;
            if current.len() > 0 && current[current.len() - 1] == '\r' {
                current.pop();
            }
            let line = string_of(&current);
            let ghost gone = out@;
            out.push(line);
            proof {
                assert(line@ == without_return(ended));
                assert(views(out@) == views(gone).push(line@));
                done = done.push(ended);
                assert(done.drop_last().map_values(|line: Seq<char>| without_return(line))
                    == views(gone));
            }
            current = Vec::new();
        } else {
            current.push(c);
        }
    }
    assert(s@.take(s@.len() as int) == s@);
    assert(pieces(s@, '\n').drop_last() == done);
    if current.len() > 0 {
        let ghost gone = out@;
        let line = string_of(&current);
        out.push(line);
        assert(views(out@) == views(gone).push(line@));
    }
    out
}

/// The last line of a text that is more than white space.
pub fn last_line(s: &str) -> (r: Option<String>)
    ensures
        match r {
            Some(line) => last_said(lines_of(s@)) == Some(line@),
            None => last_said(lines_of(s@)) is None,
        },
{
    let lines = lines(s);
    let ghost all = views(lines@);
    let mut i: usize = lines.len();
    assert(all.take(i as int) == all);
    while i > 0
        invariant
            i <= lines.len(),
            all == views(lines@),
            all == lines_of(s@),
            last_said(all) == last_said(all.take(i as int)),
        decreases i,
    {
        i -= 1;
        assert(all.take(i + 1).last() == lines@[i as int]@);
        assert(all.take(i + 1).drop_last() == all.take(i as int));
        let line = trim(lines[i].as_str());
        if !line.is_empty() {
            return Some(line.to_string());
        }
    }
    None
}

/// The second word of a text, where it has one.
pub fn second_word(s: &str) -> (r: Option<&str>)
    ensures
        r is Some <==> first_word(after_word(s@)).len() > 0,
        r matches Some(word) ==> word@ == first_word(after_word(s@)),
{
    let rest = skip_word(s);
    let start = skip_space(rest);
    let n = leading_word(start);
    assert(start@.subrange(0, n as int) == start@.take(n as int));
    if n > 0 {
        Some(start.substring_char(0, n))
    } else {
        None
    }
}

/// The text without the white space it starts with.
fn skip_space(s: &str) -> (r: &str)
    ensures
        r@ == trimmed_start(s@),
{
    let cs = chars(s);
    let mut i: usize = 0;
    assert(cs@.skip(0) == cs@);
    while i < cs.len() && space(cs[i])
        invariant
            i <= cs.len(),
            trimmed_start(cs@) == trimmed_start(cs@.skip(i as int)),
        decreases cs.len() - i,
    {
        assert(cs@.skip(i as int).drop_first() == cs@.skip(i + 1));
        i += 1;
    }
    assert(s@.subrange(i as int, s@.len() as int) == s@.skip(i as int));
    s.substring_char(i, cs.len())
}

/// How many characters `s` starts with that are not white space.
fn leading_word(s: &str) -> (r: usize)
    ensures
        r == word_len(s@) <= s@.len(),
{
    let cs = chars(s);
    let mut i: usize = 0;
    assert(cs@.skip(0) == cs@);
    while i < cs.len() && !space(cs[i])
        invariant
            i <= cs.len(),
            word_len(cs@) == i + word_len(cs@.skip(i as int)),
        decreases cs.len() - i,
    {
        assert(cs@.skip(i as int).drop_first() == cs@.skip(i + 1));
        i += 1;
    }
    i
}

/// What follows the first word of a text.
fn skip_word(s: &str) -> (r: &str)
    ensures
        r@ == after_word(s@),
{
    let start = skip_space(s);
    let n = leading_word(start);
    assert(start@.subrange(n as int, start@.len() as int) == start@.skip(n as int));
    start.substring_char(n, start.unicode_len())
}

/// The number `s` spells, if it is one no greater than `max`.
pub fn parse_unsigned(s: &str, max: u64) -> (r: Option<u64>)
    ensures
        match r {
            Some(n) => unsigned(s@, max as nat) == Some(n as nat),
            None => unsigned(s@, max as nat) is None,
        },
{
    let len = s.unicode_len();
    let digits = if len > 0 && s.get_char(0) == '+' {
        assert(s@.subrange(1, len as int) == s@.drop_first());
        s.substring_char(1, len)
    } else {
        s
    };
    let cs = chars(digits);
    if cs.len() == 0 {
        return None;
    }
    let mut n: u64 = 0;
    let mut over = false;
    let mut i: usize = 0;
    while i < cs.len()
        invariant
            i <= cs.len(),
            cs@ == digits@,
            digits@ == (if s@.len() > 0 && s@[0] == '+' {
                s@.drop_first()
            } else {
                s@
            }),
            all_digits(digits@.take(i as int)),
            !over ==> n == digits_value(digits@.take(i as int)) <= max,
            over ==> digits_value(digits@.take(i as int)) > max,
        decreases cs.len() - i,
    {
        let c = cs[i];
        if !digit(c) {
            assert(!is_digit(digits@[i as int]));
            return None;
        }
        let unit: u64 = c as u64 - '0' as u64;
        assert(digits@.take(i + 1).drop_last() == digits@.take(i as int));
        assert forall|j: int| 0 <= j < i + 1 implies is_digit(#[trigger] digits@.take(i + 1)[j]) by {
            if j < i {
                assert(digits@.take(i as int)[j] == digits@.take(i + 1)[j]);
            }
        }
        if over || n > max / 10 {
            over = true;
        } else if unit > max - n * 10 {
            over = true;
        } else {
            n = n * 10 + unit;
        }
        i += 1;
    }
    assert(digits@.take(i as int) == digits@);
    if over {
        None
    } else {
        Some(n)
    }
}

/// How a number is written.
pub fn decimal(n: u64) -> (r: String)
    ensures
        r@ == decimal_of(n as nat),
    decreases n,
{
    let mut r = if n < 10 {
        String::new()
    } else {
        decimal(n / 10)
    };
    let unit: u8 = (n % 10) as u8;
    r.push((48u8 + unit) as char);
    assert(r@ == decimal_of(n as nat));
    r
}

/// The pieces with a `c` between each and the next.
pub open spec fn joined(pieces: Seq<Seq<char>>, c: char) -> Seq<char>
    decreases pieces.len(),
{
    if pieces.len() == 0 {
        Seq::empty()
    } else if pieces.len() == 1 {
        pieces[0]
    } else {
        joined(pieces.drop_last(), c).push(c) + pieces.last()
    }
}

/// A longer last piece makes the whole longer by as much.
proof fn lemma_joined_grows(pieces: Seq<Seq<char>>, c: char, added: char)
    requires
        pieces.len() > 0,
    ensures
        joined(pieces.drop_last().push(pieces.last().push(added)), c) == joined(pieces, c).push(
            added,
        ),
{
    let longer = pieces.drop_last().push(pieces.last().push(added));
    assert(longer.drop_last() == pieces.drop_last());
    assert(joined(longer, c) =~= joined(pieces, c).push(added));
}

/// Text cut at most so many times is all still there: put together again with
/// what it was cut at, the pieces are the text. None but a last piece that the
/// limit left whole holds any of what it was cut at.
pub proof fn lemma_fields_rejoin(s: Seq<char>, c: char, limit: nat)
    ensures
        joined(fields(s, c, limit), c) == s,
        1 <= fields(s, c, limit).len(),
        limit >= 1 ==> fields(s, c, limit).len() <= limit,
        forall|i: int|
            0 <= i < fields(s, c, limit).len() && i < limit - 1 ==> !(#[trigger] fields(
                s,
                c,
                limit,
            )[i]).contains(c),
    decreases s.len(),
{
    if s.len() > 0 {
        let short = s.drop_last();
        let before = fields(short, c, limit);
        let after = fields(s, c, limit);
        lemma_fields_rejoin(short, c, limit);
        assert(short.push(s.last()) == s);
        if s.last() == c && before.len() < limit {
            assert(after.drop_last() == before);
            assert(joined(after, c) == joined(before, c).push(c) + Seq::<char>::empty());
            assert forall|i: int| 0 <= i < after.len() && i < limit - 1 implies !(
            #[trigger] after[i]).contains(c) by {
                if i < before.len() {
                    assert(after[i] == before[i]);
                }
            }
        } else {
            lemma_joined_grows(before, c, s.last());
            assert forall|i: int| 0 <= i < after.len() && i < limit - 1 implies !(
            #[trigger] after[i]).contains(c) by {
                assert(!before[i].contains(c));
                if i < before.len() - 1 {
                    assert(after[i] == before[i]);
                } else {
                    assert(after[i] == before[i].push(s.last()));
                    assert(s.last() != c);
                    if after[i].contains(c) {
                        let j = choose|j: int| 0 <= j < after[i].len() && after[i][j] == c;
                        assert(before[i][j] == c);
                    }
                }
            }
        }
    }
}

/// Text cut everywhere is all still there, and no piece holds any of what it
/// was cut at.
pub proof fn lemma_pieces_rejoin(s: Seq<char>, c: char)
    ensures
        joined(pieces(s, c), c) == s,
        1 <= pieces(s, c).len(),
        forall|i: int|
            0 <= i < pieces(s, c).len() ==> !(#[trigger] pieces(s, c)[i]).contains(c),
    decreases s.len(),
{
    if s.len() > 0 {
        let short = s.drop_last();
        let before = pieces(short, c);
        let after = pieces(s, c);
        lemma_pieces_rejoin(short, c);
        assert(short.push(s.last()) == s);
        if s.last() == c {
            assert(after.drop_last() == before);
            assert(joined(after, c) == joined(before, c).push(c) + Seq::<char>::empty());
            assert forall|i: int| 0 <= i < after.len() implies !(#[trigger] after[i]).contains(
                c,
            ) by {
                if i < before.len() {
                    assert(after[i] == before[i]);
                }
            }
        } else {
            lemma_joined_grows(before, c, s.last());
            assert forall|i: int| 0 <= i < after.len() implies !(#[trigger] after[i]).contains(
                c,
            ) by {
                assert(!before[i].contains(c));
                if i < before.len() - 1 {
                    assert(after[i] == before[i]);
                } else if after[i].contains(c) {
                    let j = choose|j: int| 0 <= j < after[i].len() && after[i][j] == c;
                    assert(before[i][j] == c);
                }
            }
        }
    }
}

/// Pieces that were put together come apart again as they were. All but the
/// last that the limit allows must be free of what stands between them.
pub proof fn lemma_joined_comes_apart(parts: Seq<Seq<char>>, c: char, limit: nat)
    requires
        1 <= parts.len() <= limit,
        forall|i: int|
            0 <= i < parts.len() && i < limit - 1 ==> !(#[trigger] parts[i]).contains(c),
    ensures
        fields(joined(parts, c), c, limit) == parts,
    decreases joined(parts, c).len(),
{
    let s = joined(parts, c);
    let init = parts.drop_last();
    let last = parts.last();
    if last.len() > 0 {
        let shorter = init.push(last.drop_last());
        assert(shorter.drop_last() == init);
        assert(last.drop_last().push(last.last()) == last);
        assert forall|i: int| 0 <= i < shorter.len() && i < limit - 1 implies !(
        #[trigger] shorter[i]).contains(c) by {
            assert(!parts[i].contains(c));
            if i == shorter.len() - 1 && shorter[i].contains(c) {
                let j = choose|j: int| 0 <= j < shorter[i].len() && shorter[i][j] == c;
                assert(parts[i][j] == c);
            }
        }
        lemma_joined_grows(shorter, c, last.last());
        assert(shorter.drop_last().push(shorter.last().push(last.last())) == parts);
        lemma_joined_comes_apart(shorter, c, limit);
        assert(s.drop_last() == joined(shorter, c));
        assert(s.last() == last.last());
        if parts.len() < limit {
            assert(!parts[parts.len() - 1].contains(c));
            assert(last[last.len() - 1] == last.last());
        }
    } else if parts.len() == 1 {
        assert(s == Seq::<char>::empty());
        assert(parts == seq![Seq::<char>::empty()]);
    } else {
        assert forall|i: int| 0 <= i < init.len() && i < limit - 1 implies !(
        #[trigger] init[i]).contains(c) by {
            assert(init[i] == parts[i]);
        }
        assert(s == joined(init, c).push(c));
        lemma_joined_comes_apart(init, c, limit);
        assert(s.drop_last() == joined(init, c));
        assert(last == Seq::<char>::empty());
        assert(init.push(last) == parts);
    }
}

/// The place found is the first one from where the search began.
pub proof fn lemma_index_is_the_first(s: Seq<char>, c: char, from: int)
    requires
        0 <= from,
    ensures
        match index_from(s, c, from) {
            Some(i) => from <= i < s.len() && s[i] == c && forall|j: int|
                from <= j < i ==> s[j] != c,
            None => forall|j: int| from <= j < s.len() ==> s[j] != c,
        },
    decreases s.len() - from,
{
    if from < s.len() && s[from] != c {
        lemma_index_is_the_first(s, c, from + 1);
    }
}

/// Text cut in two at a character is the two halves with it in between, and
/// the cut is at the first one there is.
pub proof fn lemma_halves_rejoin(s: Seq<char>, c: char)
    ensures
        match halves(s, c) {
            Some((before, after)) => s == before.push(c) + after && !before.contains(c),
            None => !s.contains(c),
        },
{
    lemma_index_is_the_first(s, c, 0);
    match index_from(s, c, 0) {
        Some(i) => {
            assert(s == s.take(i).push(c) + s.skip(i + 1));
        },
        None => {},
    }
}

/// The place found is the first one from where the search began.
pub proof fn lemma_find_is_the_first(s: Seq<char>, needle: Seq<char>, from: int)
    requires
        0 <= from,
    ensures
        match find_from(s, needle, from) {
            Some(i) => from <= i && occurs(s, needle, i) && forall|j: int|
                from <= j < i ==> !occurs(s, needle, j),
            None => forall|j: int| from <= j ==> !occurs(s, needle, j),
        },
    decreases s.len() - from + 1,
{
    if from + needle.len() <= s.len() && !occurs(s, needle, from) {
        lemma_find_is_the_first(s, needle, from + 1);
    }
}

/// The place found is the last one up to where the search began.
pub proof fn lemma_find_back_is_the_last(s: Seq<char>, needle: Seq<char>, from: int)
    ensures
        match find_back(s, needle, from) {
            Some(i) => i <= from && occurs(s, needle, i) && forall|j: int|
                i < j <= from ==> !occurs(s, needle, j),
            None => forall|j: int| j <= from ==> !occurs(s, needle, j),
        },
    decreases from + 1,
{
    if from >= 0 && !occurs(s, needle, from) {
        lemma_find_back_is_the_last(s, needle, from - 1);
    }
}

/// What is left once the white space at the start is gone.
proof fn lemma_trimmed_start(s: Seq<char>)
    ensures
        trimmed_start(s).len() > 0 ==> !is_space(trimmed_start(s)[0]),
        exists|i: int| 0 <= i <= s.len() && trimmed_start(s) == #[trigger] s.skip(i),
    decreases s.len(),
{
    if s.len() > 0 && is_space(s[0]) {
        lemma_trimmed_start(s.drop_first());
        let i = choose|i: int|
            0 <= i <= s.drop_first().len() && trimmed_start(s.drop_first()) == (
            #[trigger] s.drop_first().skip(i));
        assert(s.skip(i + 1) == s.drop_first().skip(i));
    } else {
        assert(s.skip(0) == s);
    }
}

/// What is left once the white space at the end is gone.
proof fn lemma_trimmed_end(s: Seq<char>)
    ensures
        trimmed_end(s).len() > 0 ==> !is_space(trimmed_end(s).last()) && trimmed_end(s)[0] == s[0],
        trimmed_end(s).len() <= s.len(),
    decreases s.len(),
{
    if s.len() > 0 && is_space(s.last()) {
        lemma_trimmed_end(s.drop_last());
    }
}

/// Trimmed text has no white space at either end, so trimming it once more
/// changes nothing.
pub proof fn lemma_trimmed_stays_trimmed(s: Seq<char>)
    ensures
        trimmed(s).len() > 0 ==> !is_space(trimmed(s)[0]) && !is_space(trimmed(s).last()),
        trimmed(trimmed(s)) == trimmed(s),
{
    lemma_trimmed_start(s);
    lemma_trimmed_end(trimmed_start(s));
}

/// A written number is digits, the right ones.
pub proof fn lemma_decimal_is_digits(n: nat)
    ensures
        decimal_of(n).len() > 0,
        all_digits(decimal_of(n)),
        digits_value(decimal_of(n)) == n,
    decreases n,
{
    let s = decimal_of(n);
    let unit = digit_of(n % 10);
    assert(is_digit(unit));
    if n < 10 {
        assert(n % 10 == n);
        assert(s.drop_last() == Seq::<char>::empty());
        assert(digits_value(s.drop_last()) == 0);
    } else {
        lemma_decimal_is_digits(n / 10);
        let before = decimal_of(n / 10);
        assert(s.drop_last() == before);
        assert forall|i: int| 0 <= i < s.len() implies is_digit(#[trigger] s[i]) by {
            if i < before.len() {
                assert(s[i] == before[i]);
            }
        }
    }
}

/// A number that was written reads back as itself.
pub proof fn lemma_numbers_read_back(n: nat, max: nat)
    requires
        n <= max,
    ensures
        unsigned(decimal_of(n), max) == Some(n),
{
    lemma_decimal_is_digits(n);
    assert(is_digit(decimal_of(n)[0]));
}

/// Cutting everywhere is cutting without reaching the limit.
proof fn lemma_pieces_are_fields(s: Seq<char>, c: char, limit: nat)
    requires
        s.len() < limit,
    ensures
        pieces(s, c) == fields(s, c, limit),
        pieces(s, c).len() <= s.len() + 1,
    decreases s.len(),
{
    if s.len() > 0 {
        lemma_pieces_are_fields(s.drop_last(), c, limit);
    }
}

/// Pieces that were put together come apart again as they were, when none of
/// them holds what stands between them.
pub proof fn lemma_joined_comes_apart_everywhere(parts: Seq<Seq<char>>, c: char)
    requires
        1 <= parts.len(),
        forall|i: int| 0 <= i < parts.len() ==> !(#[trigger] parts[i]).contains(c),
    ensures
        pieces(joined(parts, c), c) == parts,
{
    let limit = joined(parts, c).len() + parts.len();
    lemma_pieces_are_fields(joined(parts, c), c, limit);
    lemma_joined_comes_apart(parts, c, limit);
}

/// Two halves that were put together around a character come apart at it, when
/// the first does not hold it.
pub proof fn lemma_halves_of_a_join(before: Seq<char>, c: char, after: Seq<char>)
    requires
        !before.contains(c),
    ensures
        halves(before.push(c) + after, c) == Some((before, after)),
{
    let s = before.push(c) + after;
    lemma_index_is_the_first(s, c, 0);
    assert(s[before.len() as int] == c);
    match index_from(s, c, 0) {
        Some(i) => {
            if i < before.len() {
                assert(before[i] == c);
            }
            assert(s.take(i) == before);
            assert(s.skip(i + 1) == after);
        },
        None => {},
    }
}

/// A needle occurs where it was put, and not before what holds no character
/// that it starts with.
proof fn lemma_where_a_needle_occurs(before: Seq<char>, needle: Seq<char>, after: Seq<char>, i: int)
    requires
        needle.len() > 0,
        !before.contains(needle[0]),
        0 <= i < before.len(),
    ensures
        !occurs(before + needle + after, needle, i),
{
    let s = before + needle + after;
    if occurs(s, needle, i) {
        assert(s.subrange(i, i + needle.len())[0] == s[i]);
        assert(before[i] == needle[0]);
    }
}

/// Two halves that were put together around a needle come apart at it, when
/// the first does not hold the character the needle starts with.
pub proof fn lemma_halves_at_the_first(before: Seq<char>, needle: Seq<char>, after: Seq<char>)
    requires
        needle.len() > 0,
        !before.contains(needle[0]),
    ensures
        halves_at(before + needle + after, needle) == Some((before, after)),
{
    let s = before + needle + after;
    let at = before.len() as int;
    assert(s.subrange(at, at + needle.len()) =~= needle);
    lemma_find_is_the_first(s, needle, 0);
    let found = find_from(s, needle, 0);
    if found is None {
        assert(!occurs(s, needle, at));
    } else if found->0 < at {
        lemma_where_a_needle_occurs(before, needle, after, found->0);
    } else if found->0 > at {
        assert(!occurs(s, needle, at));
    }
    assert(s.take(at) =~= before);
    assert(s.skip(at + needle.len()) =~= after);
}

/// Two halves that were put together around a needle come apart at the last
/// one, when neither the second half nor the rest of the needle holds the
/// character the needle starts with.
pub proof fn lemma_halves_at_the_last(before: Seq<char>, needle: Seq<char>, after: Seq<char>)
    requires
        needle.len() > 0,
        forall|i: int| 0 < i < needle.len() ==> #[trigger] needle[i] != needle[0],
        !after.contains(needle[0]),
    ensures
        halves_at_last(before + needle + after, needle) == Some((before, after)),
{
    let s = before + needle + after;
    let at = before.len() as int;
    let from = s.len() - needle.len();
    assert(s.subrange(at, at + needle.len()) == needle);
    lemma_find_back_is_the_last(s, needle, from);
    assert(occurs(s, needle, at));
    match find_back(s, needle, from) {
        Some(i) => {
            if i > at {
                assert(s.subrange(i, i + needle.len())[0] == s[i]);
                if i < at + needle.len() {
                    assert(s[i] == needle[i - at]);
                } else {
                    assert(s[i] == after[i - at - needle.len()]);
                }
            }
            assert(s.take(at) == before);
            assert(s.skip(at + needle.len()) == after);
        },
        None => {},
    }
}

/// A text of nothing but white space.
pub open spec fn blank(s: Seq<char>) -> bool {
    forall|i: int| 0 <= i < s.len() ==> is_space(#[trigger] s[i])
}

/// The blank, the tab and both halves of a line ending are white space, and no
/// character that prints on a typewriter is.
pub proof fn lemma_what_white_space_is(c: char)
    ensures
        is_space(' ') && is_space('\t') && is_space('\n') && is_space('\r'),
        '!' <= c <= '~' ==> !is_space(c),
{
}

/// Everything below the blank is a control character, and nothing that prints
/// on a typewriter is.
pub proof fn lemma_what_a_control_character_is(c: char)
    ensures
        c < ' ' ==> is_control(c),
        is_control('\u{7f}'),
        ' ' <= c <= '~' || c >= '\u{a0}' ==> !is_control(c),
{
}

/// White space in front of what does not start with any is all that goes.
proof fn lemma_space_in_front_goes(before: Seq<char>, s: Seq<char>)
    requires
        blank(before),
        s.len() == 0 || !is_space(s[0]),
    ensures
        trimmed_start(before + s) == s,
    decreases before.len(),
{
    let all = before + s;
    if before.len() == 0 {
        assert(all == s);
    } else {
        assert(all[0] == before[0]);
        assert(all.drop_first() == before.drop_first() + s);
        lemma_space_in_front_goes(before.drop_first(), s);
    }
}

/// White space behind what does not end with any is all that goes.
proof fn lemma_space_behind_goes(s: Seq<char>, after: Seq<char>)
    requires
        blank(after),
        s.len() == 0 || !is_space(s.last()),
    ensures
        trimmed_end(s + after) == s,
    decreases after.len(),
{
    let all = s + after;
    if after.len() == 0 {
        assert(all == s);
    } else {
        assert(all.last() == after[after.len() - 1]);
        assert(all.drop_last() == s + after.drop_last());
        lemma_space_behind_goes(s, after.drop_last());
    }
}

/// White space is trimmed to nothing.
proof fn lemma_blank_goes(s: Seq<char>)
    requires
        blank(s),
    ensures
        trimmed_start(s) == Seq::<char>::empty(),
{
    assert(s + Seq::<char>::empty() == s);
    lemma_space_in_front_goes(s, Seq::empty());
}

/// Trimming takes the white space around a text, all of it and nothing else.
pub proof fn lemma_trimming_takes_what_is_around(before: Seq<char>, s: Seq<char>, after: Seq<char>)
    requires
        blank(before),
        blank(after),
        s.len() > 0 ==> !is_space(s[0]) && !is_space(s.last()),
    ensures
        trimmed(before + s + after) == s,
        trimmed(s) == s,
{
    if s.len() > 0 {
        assert(before + s + after == before + (s + after));
        assert((s + after)[0] == s[0]);
        lemma_space_in_front_goes(before, s + after);
        lemma_space_behind_goes(s, after);
        lemma_space_in_front_goes(Seq::empty(), s);
        lemma_space_behind_goes(s, Seq::empty());
        assert(Seq::<char>::empty() + s == s);
        assert(s + Seq::<char>::empty() == s);
    } else {
        assert(s == Seq::<char>::empty());
        assert(blank(before + s + after)) by {
            assert forall|i: int| 0 <= i < (before + s + after).len() implies is_space(
                #[trigger] (before + s + after)[i],
            ) by {
                if i < before.len() {
                    assert((before + s + after)[i] == before[i]);
                } else {
                    assert((before + s + after)[i] == after[i - before.len()]);
                }
            }
        }
        lemma_blank_goes(before + s + after);
    }
}

/// What is trimmed to nothing was nothing but white space, and what is left of
/// anything else is a part of it with white space around.
pub proof fn lemma_only_white_space_is_trimmed(s: Seq<char>) -> (r: (Seq<char>, Seq<char>))
    ensures
        s == r.0 + trimmed(s) + r.1,
        blank(r.0),
        blank(r.1),
{
    let start = trimmed_start(s);
    let before = lemma_start_is_blank(s);
    let after = lemma_end_is_blank(start);
    assert(before + (trimmed_end(start) + after) == before + trimmed_end(start) + after);
    (before, after)
}

/// What goes from the start of a text is white space.
proof fn lemma_start_is_blank(s: Seq<char>) -> (before: Seq<char>)
    ensures
        s == before + trimmed_start(s),
        blank(before),
    decreases s.len(),
{
    if s.len() > 0 && is_space(s[0]) {
        let rest = lemma_start_is_blank(s.drop_first());
        let before = seq![s[0]] + rest;
        assert(s == seq![s[0]] + s.drop_first());
        assert(before + trimmed_start(s) == seq![s[0]] + (rest + trimmed_start(s)));
        assert forall|i: int| 0 <= i < before.len() implies is_space(#[trigger] before[i]) by {
            if i > 0 {
                assert(before[i] == rest[i - 1]);
            }
        }
        before
    } else {
        assert(Seq::<char>::empty() + s == s);
        Seq::empty()
    }
}

/// What goes from the end of a text is white space.
proof fn lemma_end_is_blank(s: Seq<char>) -> (after: Seq<char>)
    ensures
        s == trimmed_end(s) + after,
        blank(after),
    decreases s.len(),
{
    if s.len() > 0 && is_space(s.last()) {
        let rest = lemma_end_is_blank(s.drop_last());
        let after = rest.push(s.last());
        assert(s == s.drop_last().push(s.last()));
        assert(trimmed_end(s) + after == (trimmed_end(s) + rest).push(s.last()));
        assert forall|i: int| 0 <= i < after.len() implies is_space(#[trigger] after[i]) by {
            if i < rest.len() {
                assert(after[i] == rest[i]);
            }
        }
        after
    } else {
        assert(s + Seq::<char>::empty() == s);
        Seq::empty()
    }
}

/// So many copies of one character.
pub open spec fn run_of(c: char, n: nat) -> Seq<char> {
    Seq::new(n, |i: int| c)
}

/// A run of a character behind what does not end with it is all that goes.
pub proof fn lemma_a_trailing_run_goes(s: Seq<char>, c: char, n: nat)
    requires
        s.len() == 0 || s.last() != c,
    ensures
        without_trailing(s + run_of(c, n), c) == s,
    decreases n,
{
    let all = s + run_of(c, n);
    if n == 0 {
        assert(all == s);
    } else {
        assert(all.last() == c);
        assert(all.drop_last() == s + run_of(c, (n - 1) as nat));
        lemma_a_trailing_run_goes(s, c, (n - 1) as nat);
    }
}

/// Whatever ends in a run of a character is what does not, and the run.
pub proof fn lemma_only_the_run_goes(s: Seq<char>, c: char) -> (n: nat)
    ensures
        s == without_trailing(s, c) + run_of(c, n),
        without_trailing(s, c).len() > 0 ==> without_trailing(s, c).last() != c,
    decreases s.len(),
{
    if s.len() > 0 && s.last() == c {
        let n = lemma_only_the_run_goes(s.drop_last(), c);
        assert(s == s.drop_last().push(c));
        assert(run_of(c, n + 1) == run_of(c, n).push(c));
        assert(s == without_trailing(s, c) + run_of(c, n + 1));
        n + 1
    } else {
        assert(run_of(c, 0) == Seq::<char>::empty());
        assert(s + run_of(c, 0) == s);
        0
    }
}

/// A prefix goes from the front however often it stands there, and nothing
/// else does.
pub proof fn lemma_a_leading_prefix_goes(s: Seq<char>, prefix: Seq<char>)
    requires
        prefix.len() > 0,
    ensures
        without_leading(prefix + s, prefix) == without_leading(s, prefix),
        !begins(s, prefix) ==> without_leading(s, prefix) == s,
{
    assert((prefix + s).take(prefix.len() as int) == prefix);
    assert((prefix + s).skip(prefix.len() as int) == s);
}

/// What starts with a prefix is the prefix and what follows it.
pub proof fn lemma_what_begins(s: Seq<char>, prefix: Seq<char>)
    ensures
        begins(s, prefix) <==> exists|rest: Seq<char>| s == prefix + rest,
{
    if begins(s, prefix) {
        assert(s == prefix + s.skip(prefix.len() as int));
    }
    if exists|rest: Seq<char>| s == prefix + rest {
        let rest = choose|rest: Seq<char>| s == prefix + rest;
        assert(s.take(prefix.len() as int) == prefix);
    }
}

/// Lines that were each ended with a line feed come apart into the lines they
/// were.
pub proof fn lemma_ended_lines_come_apart(lines: Seq<Seq<char>>)
    requires
        forall|i: int| 0 <= i < lines.len() ==> !(#[trigger] lines[i]).contains('\n'),
        forall|i: int|
            0 <= i < lines.len() ==> (#[trigger] lines[i]).len() == 0 || lines[i].last() != '\r',
    ensures
        lines_of(joined(lines.push(Seq::empty()), '\n')) == lines,
{
    let parts = lines.push(Seq::empty());
    assert forall|i: int| 0 <= i < parts.len() implies !(#[trigger] parts[i]).contains('\n') by {
        if i < lines.len() {
            assert(parts[i] == lines[i]);
        }
    }
    lemma_joined_comes_apart_everywhere(parts, '\n');
    assert(parts.drop_last() == lines);
    assert(lines.map_values(|line: Seq<char>| without_return(line)) == lines);
}

/// Lines that were each ended with a carriage return and a line feed come apart
/// into the same lines, without either.
pub proof fn lemma_returned_lines_come_apart(lines: Seq<Seq<char>>)
    requires
        forall|i: int| 0 <= i < lines.len() ==> !(#[trigger] lines[i]).contains('\n'),
    ensures
        lines_of(
            joined(
                lines.map_values(|line: Seq<char>| line.push('\r')).push(Seq::empty()),
                '\n',
            ),
        ) == lines,
{
    let returned = lines.map_values(|line: Seq<char>| line.push('\r'));
    let parts = returned.push(Seq::empty());
    assert forall|i: int| 0 <= i < parts.len() implies !(#[trigger] parts[i]).contains('\n') by {
        if i < lines.len() {
            assert(parts[i] == lines[i].push('\r'));
            if parts[i].contains('\n') {
                let k = choose|k: int| 0 <= k < parts[i].len() && parts[i][k] == '\n';
                assert(lines[i][k] == '\n');
            }
        }
    }
    lemma_joined_comes_apart_everywhere(parts, '\n');
    assert(parts.drop_last() == returned);
    assert forall|i: int| 0 <= i < lines.len() implies without_return(returned[i])
        == #[trigger] lines[i] by {
        assert(lines[i].push('\r').drop_last() == lines[i]);
    }
    assert(returned.map_values(|line: Seq<char>| without_return(line)) == lines);
}

/// The last line need not be ended to be one, as long as there is anything on
/// it.
pub proof fn lemma_the_last_line_need_not_end(lines: Seq<Seq<char>>, last: Seq<char>)
    requires
        forall|i: int| 0 <= i < lines.len() ==> !(#[trigger] lines[i]).contains('\n'),
        forall|i: int|
            0 <= i < lines.len() ==> (#[trigger] lines[i]).len() == 0 || lines[i].last() != '\r',
        !last.contains('\n'),
        last.len() > 0,
    ensures
        lines_of(joined(lines.push(last), '\n')) == lines.push(last),
{
    let parts = lines.push(last);
    assert forall|i: int| 0 <= i < parts.len() implies !(#[trigger] parts[i]).contains('\n') by {
        if i < lines.len() {
            assert(parts[i] == lines[i]);
        }
    }
    lemma_joined_comes_apart_everywhere(parts, '\n');
    assert(parts.drop_last() == lines);
    assert(lines.map_values(|line: Seq<char>| without_return(line)) == lines);
}

/// What was said last is the last line with anything on it, and nothing but
/// blank lines follow.
pub proof fn lemma_the_last_said_is_last(lines: Seq<Seq<char>>, line: Seq<char>, after: Seq<Seq<char>>)
    requires
        trimmed(line).len() > 0,
        forall|i: int| 0 <= i < after.len() ==> blank(#[trigger] after[i]),
    ensures
        last_said(lines.push(line) + after) == Some(trimmed(line)),
    decreases after.len(),
{
    let all = lines.push(line) + after;
    if after.len() == 0 {
        assert(all == lines.push(line));
    } else {
        assert(all.last() == after[after.len() - 1]);
        lemma_blank_goes(all.last());
        assert(all.drop_last() == lines.push(line) + after.drop_last());
        lemma_the_last_said_is_last(lines, line, after.drop_last());
    }
}

/// Blank lines say nothing.
pub proof fn lemma_blank_lines_say_nothing(lines: Seq<Seq<char>>)
    requires
        forall|i: int| 0 <= i < lines.len() ==> blank(#[trigger] lines[i]),
    ensures
        last_said(lines) is None,
    decreases lines.len(),
{
    if lines.len() > 0 {
        lemma_blank_goes(lines[lines.len() - 1]);
        lemma_blank_lines_say_nothing(lines.drop_last());
    }
}

/// A text without white space.
pub open spec fn is_word(s: Seq<char>) -> bool {
    s.len() > 0 && forall|i: int| 0 <= i < s.len() ==> !is_space(#[trigger] s[i])
}

/// A word is as long as what stands before the white space behind it.
proof fn lemma_word_ends_at_white_space(word: Seq<char>, rest: Seq<char>)
    requires
        forall|i: int| 0 <= i < word.len() ==> !is_space(#[trigger] word[i]),
        rest.len() == 0 || is_space(rest[0]),
    ensures
        word_len(word + rest) == word.len(),
    decreases word.len(),
{
    let all = word + rest;
    if word.len() > 0 {
        assert(all[0] == word[0]);
        assert(all.drop_first() == word.drop_first() + rest);
        assert forall|i: int| 0 <= i < word.drop_first().len() implies !is_space(
            #[trigger] word.drop_first()[i],
        ) by {
            assert(word[i + 1] == word.drop_first()[i]);
        }
        lemma_word_ends_at_white_space(word.drop_first(), rest);
    } else {
        assert(all == rest);
    }
}

/// Words are what stands between white space, whatever and however much of it.
pub proof fn lemma_words_come_apart(before: Seq<char>, word: Seq<char>, rest: Seq<char>)
    requires
        blank(before),
        is_word(word),
        rest.len() == 0 || is_space(rest[0]),
    ensures
        first_word(before + word + rest) == word,
        after_word(before + word + rest) == rest,
{
    assert(before + word + rest == before + (word + rest));
    assert((word + rest)[0] == word[0]);
    lemma_space_in_front_goes(before, word + rest);
    lemma_word_ends_at_white_space(word, rest);
    assert((word + rest).take(word.len() as int) == word);
    assert((word + rest).skip(word.len() as int) == rest);
}

/// White space alone holds no word.
pub proof fn lemma_white_space_is_no_word(s: Seq<char>)
    requires
        blank(s),
    ensures
        first_word(s) == Seq::<char>::empty(),
{
    lemma_blank_goes(s);
    assert(Seq::<char>::empty().take(0) == Seq::<char>::empty());
}

/// Nothing but digits, with or without a `+` in front, is a number, and none
/// is greater than the most it may be.
pub proof fn lemma_what_a_number_is(s: Seq<char>, max: nat)
    ensures
        unsigned(s, max) matches Some(n) ==> n <= max,
        s.len() == 0 || s == seq!['+'] ==> unsigned(s, max) is None,
        (exists|i: int|
            0 <= i < s.len() && !is_digit(#[trigger] s[i]) && !(i == 0 && s[i] == '+'))
            ==> unsigned(s, max) is None,
        unsigned(s, max) is Some ==> unsigned(seq!['0'] + s, max) == unsigned(s, max) || s[0] == '+',
        !(s.len() > 0 && s[0] == '+') ==> unsigned(seq!['+'] + s, max) == unsigned(s, max),
{
    if s.len() > 0 && s[0] == '+' {
        assert forall|i: int| 0 < i < s.len() implies s.drop_first()[i - 1] == #[trigger] s[i] by {}
        if s == seq!['+'] {
            assert(s.drop_first().len() == 0);
        }
    } else {
        assert((seq!['+'] + s).drop_first() == s);
        if s.len() > 0 && all_digits(s) {
            lemma_a_leading_zero_is_nothing(s);
            assert(all_digits(seq!['0'] + s)) by {
                assert forall|i: int| 0 <= i < (seq!['0'] + s).len() implies is_digit(
                    #[trigger] (seq!['0'] + s)[i],
                ) by {
                    if i > 0 {
                        assert((seq!['0'] + s)[i] == s[i - 1]);
                    }
                }
            }
        }
    }
}

/// A zero in front changes no number.
proof fn lemma_a_leading_zero_is_nothing(s: Seq<char>)
    ensures
        digits_value(seq!['0'] + s) == digits_value(s),
    decreases s.len(),
{
    let all = seq!['0'] + s;
    if s.len() > 0 {
        assert(all.drop_last() == seq!['0'] + s.drop_last());
        lemma_a_leading_zero_is_nothing(s.drop_last());
    } else {
        assert(all.drop_last() == Seq::<char>::empty());
        assert(digits_value(all) == digits_value(all.drop_last()) * 10);
    }
}

/// A number is written without a zero in front, unless it is one.
pub proof fn lemma_a_number_is_written_short(n: nat)
    ensures
        n > 0 ==> decimal_of(n)[0] != '0',
        decimal_of(0) == seq!['0'],
    decreases n,
{
    if n >= 10 {
        lemma_a_number_is_written_short(n / 10);
        lemma_decimal_is_digits(n / 10);
    }
}

/// The characters that Unicode has for white space, one by one.
pub proof fn lemma_every_white_space(c: char)
    ensures
        is_space(c) <==> seq![
            0x9int,
            0xaint,
            0xbint,
            0xcint,
            0xdint,
            0x20int,
            0x85int,
            0xa0int,
            0x1680int,
            0x2000int,
            0x2001int,
            0x2002int,
            0x2003int,
            0x2004int,
            0x2005int,
            0x2006int,
            0x2007int,
            0x2008int,
            0x2009int,
            0x200aint,
            0x2028int,
            0x2029int,
            0x202fint,
            0x205fint,
            0x3000int,
        ].contains(c as int),
{
    let all = seq![
        0x9int,
        0xaint,
        0xbint,
        0xcint,
        0xdint,
        0x20int,
        0x85int,
        0xa0int,
        0x1680int,
        0x2000int,
        0x2001int,
        0x2002int,
        0x2003int,
        0x2004int,
        0x2005int,
        0x2006int,
        0x2007int,
        0x2008int,
        0x2009int,
        0x200aint,
        0x2028int,
        0x2029int,
        0x202fint,
        0x205fint,
        0x3000int,
    ];
    let n = c as int;
    assert(all[0] == 0x9 && all[1] == 0xa && all[2] == 0xb && all[3] == 0xc && all[4] == 0xd
        && all[5] == 0x20 && all[6] == 0x85 && all[7] == 0xa0 && all[8] == 0x1680);
    assert(all[9] == 0x2000 && all[10] == 0x2001 && all[11] == 0x2002 && all[12] == 0x2003
        && all[13] == 0x2004 && all[14] == 0x2005 && all[15] == 0x2006 && all[16] == 0x2007
        && all[17] == 0x2008 && all[18] == 0x2009 && all[19] == 0x200a);
    assert(all[20] == 0x2028 && all[21] == 0x2029 && all[22] == 0x202f && all[23] == 0x205f
        && all[24] == 0x3000);
    if all.contains(n) {
        let i = choose|i: int| 0 <= i < all.len() && all[i] == n;
        assert(is_space(c));
    }
}

/// There are ten digits, which stand for nought to nine, and twenty-six letters
/// in either case; the control characters come in two runs of thirty-two and
/// one behind the letters.
pub proof fn lemma_every_digit_letter_and_control_character(c: char)
    ensures
        is_digit(c) <==> exists|n: nat| n < 10 && #[trigger] digit_of(n) == c,
        is_letter(c) <==> (0x41 <= c as int && (c as int) < 0x41 + 26) || (0x61 <= c as int && (
        c as int) < 0x61 + 26),
        is_control(c) <==> (c as int) < 32 || (0x80 <= c as int && (c as int) < 0x80 + 32)
            || c as int == 0x7f,
{
    if is_digit(c) {
        let n = (c as nat - 48) as nat;
        assert(digit_of(n) == c);
    }
}

/// What stands before and after the first of a text's needles is the rest of
/// the text, and there is no needle before it; without one there are no halves.
pub proof fn lemma_halves_at_rejoin(s: Seq<char>, needle: Seq<char>)
    ensures
        match halves_at(s, needle) {
            Some((before, after)) => s == before + needle + after && forall|i: int|
                0 <= i < before.len() ==> !occurs(s, needle, i),
            None => forall|i: int| 0 <= i ==> !occurs(s, needle, i),
        },
{
    lemma_find_is_the_first(s, needle, 0);
    match find_from(s, needle, 0) {
        Some(i) => {
            assert(s.subrange(i, i + needle.len()) == needle);
            assert(s =~= s.take(i) + s.subrange(i, i + needle.len()) + s.skip(i + needle.len()));
        },
        None => {},
    }
}

/// What stands before and after the last of a text's needles is the rest of the
/// text, and there is no needle after it; without one there are no halves.
pub proof fn lemma_halves_at_last_rejoin(s: Seq<char>, needle: Seq<char>)
    ensures
        match halves_at_last(s, needle) {
            Some((before, after)) => s == before + needle + after && forall|i: int|
                before.len() < i ==> !occurs(s, needle, i),
            None => forall|i: int| !occurs(s, needle, i),
        },
{
    let from = s.len() - needle.len();
    lemma_find_back_is_the_last(s, needle, from);
    match find_back(s, needle, from) {
        Some(i) => {
            assert(s.subrange(i, i + needle.len()) == needle);
            assert(s =~= s.take(i) + s.subrange(i, i + needle.len()) + s.skip(i + needle.len()));
        },
        None => {},
    }
}

/// Every text is lines that a line feed ends and what stands behind the last of
/// them. A line loses one carriage return before its line feed, where it has
/// one, and nothing else; what stands behind the last is a line if it is
/// anything.
pub proof fn lemma_how_a_text_is_lines(parts: Seq<Seq<char>>, last: Seq<char>)
    requires
        forall|i: int| 0 <= i < parts.len() ==> !(#[trigger] parts[i]).contains('\n'),
        !last.contains('\n'),
    ensures
        ({
            let lines = lines_of(joined(parts.push(last), '\n'));
            &&& lines.len() == parts.len() + (if last.len() > 0 {
                1int
            } else {
                0int
            })
            &&& last.len() > 0 ==> lines.last() == last
            &&& forall|i: int|
                0 <= i < parts.len() ==> #[trigger] lines[i] == (if parts[i].len() > 0
                    && parts[i].last() == '\r' {
                    parts[i].drop_last()
                } else {
                    parts[i]
                })
        }),
{
    let all = parts.push(last);
    assert forall|i: int| 0 <= i < all.len() implies !(#[trigger] all[i]).contains('\n') by {
        if i < parts.len() {
            assert(all[i] == parts[i]);
        }
    }
    lemma_joined_comes_apart_everywhere(all, '\n');
    assert(all.drop_last() == parts);
    let ended = parts.map_values(|line: Seq<char>| without_return(line));
    let lines = lines_of(joined(all, '\n'));
    assert(lines == (if last.len() == 0 {
        ended
    } else {
        ended.push(last)
    }));
    assert forall|i: int| 0 <= i < parts.len() implies #[trigger] lines[i] == without_return(
        parts[i],
    ) by {
        assert(ended[i] == without_return(parts[i]));
    }
}

/// A number greater than the most it may be is none.
pub proof fn lemma_too_great_a_number_is_none(n: nat, max: nat)
    requires
        n > max,
    ensures
        unsigned(decimal_of(n), max) is None,
{
    lemma_decimal_is_digits(n);
    assert(is_digit(decimal_of(n)[0]));
}

} // verus!
