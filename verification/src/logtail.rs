//! The tail of a job's log file, for the preview window.
//!
//! Reading is a background job like every cluster command here: `/work` is a
//! shared filesystem, and a stat that stalls must not take the interface with
//! it. The path is the request, so the preview switching jobs discards
//! whatever the last one had in flight.

use vstd::prelude::*;

use crate::poller::Poller;
use crate::text;

verus! {

/// How much of the end of the file to read. A training log runs to hundreds of
/// megabytes and the window shows a screenful, so reading the whole file to
/// find its last lines would cost the size of the file for a fixed answer.
pub const WINDOW: u64 = 65536;

/// How many lines to keep. Comfortably more than the window is tall, so there
/// is something to scroll back through, and bounded so that a file of one
/// enormous line cannot be held twice over.
pub const LINES: usize = 400;

/// How often to re-read, in seconds. A running job is still writing, and a
/// preview that did not keep up would be a worse `tail -f` than the one you
/// already have.
pub const INTERVAL: u64 = 1;

/// How many characters an escape sequence takes after its `ESC [`: all of them
/// up to and including the letter that ends it.
pub open spec fn sequence_len(s: Seq<char>) -> nat
    decreases s.len(),
{
    if s.len() == 0 {
        0
    } else if text::is_letter(s[0]) {
        1
    } else {
        1 + sequence_len(s.drop_first())
    }
}

/// An escape sequence ends within its line.
pub proof fn lemma_sequence_fits(s: Seq<char>)
    ensures
        sequence_len(s) <= s.len(),
    decreases s.len(),
{
    if s.len() > 0 && !text::is_letter(s[0]) {
        lemma_sequence_fits(s.drop_first());
    }
}

/// The line without its escape sequences, and without any control character
/// but the tab. `ESC [ … <letter>` goes up to the letter that ends it; any
/// other escape goes with the one character after it.
pub open spec fn stripped(line: Seq<char>) -> Seq<char>
    decreases line.len(),
{
    if line.len() == 0 {
        line
    } else if line[0] != '\u{1b}' {
        let rest = stripped(line.drop_first());
        if !text::is_control(line[0]) || line[0] == '\t' {
            seq![line[0]] + rest
        } else {
            rest
        }
    } else if line.len() == 1 {
        Seq::empty()
    } else if line[1] == '[' {
        proof {
            lemma_sequence_fits(line.skip(2));
        }
        stripped(line.skip(2 + sequence_len(line.skip(2)) as int))
    } else {
        stripped(line.skip(2))
    }
}

/// The line with every tab spelled out as four spaces.
pub open spec fn without_tabs(line: Seq<char>) -> Seq<char>
    decreases line.len(),
{
    if line.len() == 0 {
        line
    } else {
        (if line[0] == '\t' {
            seq![' ', ' ', ' ', ' ']
        } else {
            seq![line[0]]
        }) + without_tabs(line.drop_first())
    }
}

/// What a terminal would have shown for one line: what was written after the
/// last carriage return, without escapes, with its tabs as spaces.
pub open spec fn shown(line: Seq<char>) -> Seq<char> {
    without_tabs(stripped(text::pieces(line, '\r').last()))
}

/// The last `n` of a list, or all of it when it is shorter.
pub open spec fn last_of<A>(list: Seq<A>, n: nat) -> Seq<A> {
    if list.len() <= n {
        list
    } else {
        list.skip(list.len() - n)
    }
}

/// The lines to show from a chunk of the end of a file.
pub open spec fn tail_of(text: Seq<char>, partial: bool) -> Seq<Seq<char>> {
    let lines = crate::text::lines_of(text);
    let whole = if partial && lines.len() > 0 {
        lines.drop_first()
    } else {
        lines
    };
    last_of(whole, LINES as nat).map_values(|line: Seq<char>| shown(line))
}

/// Where in a file of `end` bytes to start reading.
pub fn start_of(end: u64) -> (r: u64)
    ensures
        r == (if end <= WINDOW {
            0
        } else {
            end - WINDOW
        }),
{
    end.saturating_sub(WINDOW)
}

/// The lines to show from a chunk of the end of a file, newest last. `partial`
/// says the chunk started mid-file, where the first line is the tail of one
/// whose beginning was never read and is not one to show.
pub fn tail(text: &str, partial: bool) -> (r: Vec<String>)
    ensures
        text::views(r@) == tail_of(text@, partial),
{
    let lines = crate::text::lines(text);
    let ghost all = crate::text::views(lines@);
    let first: usize = if partial && lines.len() > 0 {
        1
    } else {
        0
    };
    let start: usize = if lines.len() - first > LINES {
        lines.len() - LINES
    } else {
        first
    };
    let ghost kept = all.skip(start as int);
    proof {
        let whole = if partial && all.len() > 0 {
            all.drop_first()
        } else {
            all
        };
        assert(whole == all.skip(first as int));
        assert(last_of(whole, LINES as nat) == kept);
    }
    let mut r: Vec<String> = Vec::new();
    let mut i: usize = start;
    while i < lines.len()
        invariant
            start <= i <= lines.len(),
            all == text::views(lines@),
            kept == all.skip(start as int),
            text::views(r@) == kept.take(i - start).map_values(|line: Seq<char>| shown(line)),
        decreases lines.len() - i,
    {
        let line = readable(lines[i].as_str());
        let ghost gone = r@;
        r.push(line);
        proof {
            assert(text::views(r@) == text::views(gone).push(line@));
            assert(kept.take(i + 1 - start) == kept.take(i - start).push(kept[i - start]));
            assert(text::views(r@) == kept.take(i + 1 - start).map_values(
                |line: Seq<char>| shown(line),
            ));
        }
        i += 1;
    }
    assert(kept.take(i - start) == kept);
    r
}

/// The end of a file: how long the file is, and its bytes from
/// [`start_of`] that length on.
pub struct Chunk {
    pub end: u64,
    pub bytes: Vec<u8>,
}

/// The last lines of a file, newest last, or why it could not be read.
///
/// With no preview open there is nothing to read, which is `None`, and nothing
/// to show for it.
pub fn fetched(read: Option<Result<Chunk, String>>) -> (r: Result<Vec<String>, String>)
    ensures
        match read {
            None => r matches Ok(lines) && lines@.len() == 0,
            Some(Ok(chunk)) => r matches Ok(lines) && text::views(lines@) == tail_of(
                text::utf8_lossy(chunk.bytes@),
                chunk.end > WINDOW,
            ),
            Some(Err(said)) => r == Err::<Vec<String>, String>(said),
        },
{
    match read {
        None => Ok(Vec::new()),
        Some(Err(said)) => Err(said),
        Some(Ok(chunk)) => {
            let text = text::from_utf8_lossy(chunk.bytes.as_slice());
            Ok(tail(text.as_str(), start_of(chunk.end) > 0))
        },
    }
}

/// What a terminal would have shown for one line.
///
/// A progress bar redraws itself by returning to the start of the line, so
/// everything before the last carriage return has already been written over;
/// keeping it would render one line of a `tqdm` bar as thousands of columns of
/// its own history. Colour codes and tabs are the other two things a log
/// carries that a table cell cannot place.
pub fn readable(line: &str) -> (r: String)
    ensures
        r@ == shown(line@),
{
    let parts = text::split(line, '\r');
    proof {
        lemma_pieces_not_empty(line@, '\r');
        assert(text::slices(parts@).last() == parts@.last()@);
    }
    let stripped_line = strip_ansi(parts[parts.len() - 1]);
    spell_tabs(stripped_line.as_str())
}

/// There is always at least one piece.
proof fn lemma_pieces_not_empty(s: Seq<char>, c: char)
    ensures
        text::pieces(s, c).len() > 0,
    decreases s.len(),
{
    if s.len() > 0 {
        lemma_pieces_not_empty(s.drop_last(), c);
    }
}

/// The line with every tab spelled out as four spaces.
fn spell_tabs(line: &str) -> (r: String)
    ensures
        r@ == without_tabs(line@),
{
    let cs = text::chars(line);
    let mut out = String::new();
    let mut i: usize = 0;
    assert(cs@.skip(0) == cs@);
    while i < cs.len()
        invariant
            i <= cs.len(),
            out@ + without_tabs(cs@.skip(i as int)) == without_tabs(cs@),
        decreases cs.len() - i,
    {
        let ghost before = out@;
        let ghost rest = cs@.skip(i as int);
        if cs[i] == '\t' {
            out.push(' ');
            out.push(' ');
            out.push(' ');
            out.push(' ');
            assert(out@ == before + seq![' ', ' ', ' ', ' ']);
        } else {
            out.push(cs[i]);
            assert(out@ == before + seq![rest[0]]);
        }
        proof {
            assert(rest.drop_first() == cs@.skip(i + 1));
            let added = out@.skip(before.len() as int);
            assert(out@ == before + added);
            assert(before + (added + without_tabs(cs@.skip(i + 1))) == out@ + without_tabs(
                cs@.skip(i + 1),
            ));
        }
        i += 1;
    }
    assert(out@ + Seq::<char>::empty() == out@);
    out
}

/// Drop the escape sequences a coloured log is full of. Anything from an
/// escape up to the letter that ends the sequence goes, which covers the
/// colour and cursor codes without needing to understand any of them.
pub fn strip_ansi(line: &str) -> (r: String)
    ensures
        r@ == stripped(line@),
{
    let cs = text::chars(line);
    let mut out = String::new();
    let mut i: usize = 0;
    assert(cs@.skip(0) == cs@);
    while i < cs.len()
        invariant
            i <= cs.len(),
            out@ + stripped(cs@.skip(i as int)) == stripped(cs@),
        decreases cs.len() - i,
    {
        let ghost before = out@;
        let ghost rest = cs@.skip(i as int);
        let c = cs[i];
        if c != '\u{1b}' {
            // Other control characters have no width and no meaning here. The
            // tab is the exception: it is spacing, and [`readable`] spells it
            // out once the escapes are gone.
            if !text::control(c) || c == '\t' {
                out.push(c);
            }
            proof {
                assert(rest.drop_first() == cs@.skip(i + 1));
                let after = stripped(cs@.skip(i + 1));
                assert(before + (seq![c] + after) == before.push(c) + after);
            }
            i += 1;
        } else if i + 1 < cs.len() && cs[i + 1] == '[' {
            let mut k: usize = i + 2;
            let mut ended = false;
            assert(rest.skip(2) == cs@.skip(k as int));
            while k < cs.len() && !ended
                invariant
                    i + 2 <= k <= cs.len(),
                    rest == cs@.skip(i as int),
                    !ended ==> sequence_len(rest.skip(2)) == k - i - 2 + sequence_len(
                        cs@.skip(k as int),
                    ),
                    ended ==> sequence_len(rest.skip(2)) == k - i - 2,
                decreases cs.len() - k,
            {
                assert(cs@.skip(k as int).drop_first() == cs@.skip(k + 1));
                if text::letter(cs[k]) {
                    ended = true;
                }
                k += 1;
            }
            assert(sequence_len(rest.skip(2)) == k - i - 2);
            assert(rest.skip(k - i) == cs@.skip(k as int));
            i = k;
        } else if i + 1 < cs.len() {
            assert(rest.skip(2) == cs@.skip(i + 2));
            i += 2;
        } else {
            assert(rest.len() == 1);
            i += 1;
            assert(stripped(cs@.skip(i as int)) == Seq::<char>::empty());
        }
    }
    assert(out@ + Seq::<char>::empty() == out@);
    out
}

/// Start the reader. It idles until the preview asks for a path.
pub fn poll() -> (r: Poller<Option<String>, Vec<String>>)
    ensures
        r.interval == INTERVAL,
        r.requests@ == seq![None::<String>],
        r.results@.len() == 0,
{
    Poller::spawn(INTERVAL, None)
}

/// Whether a text holds no control character.
pub open spec fn printable(s: Seq<char>) -> bool {
    forall|i: int| 0 <= i < s.len() ==> !text::is_control(#[trigger] s[i])
}

/// Stripping leaves no control character behind but the tab.
proof fn lemma_stripped_keeps_only_tabs(line: Seq<char>)
    ensures
        forall|i: int|
            0 <= i < stripped(line).len() ==> !text::is_control(#[trigger] stripped(line)[i])
                || stripped(line)[i] == '\t',
    decreases line.len(),
{
    if line.len() == 0 {
    } else if line[0] != '\u{1b}' {
        lemma_stripped_keeps_only_tabs(line.drop_first());
        let rest = stripped(line.drop_first());
        assert forall|i: int| 0 <= i < stripped(line).len() implies !text::is_control(
            #[trigger] stripped(line)[i],
        ) || stripped(line)[i] == '\t' by {
            if stripped(line) != rest && i > 0 {
                assert(stripped(line)[i] == rest[i - 1]);
            }
        }
    } else if line.len() == 1 {
    } else if line[1] == '[' {
        lemma_sequence_fits(line.skip(2));
        let rest = line.skip(2 + sequence_len(line.skip(2)) as int);
        lemma_stripped_keeps_only_tabs(rest);
        assert(stripped(line) == stripped(rest));
    } else {
        lemma_stripped_keeps_only_tabs(line.skip(2));
        assert(stripped(line) == stripped(line.skip(2)));
    }
}

/// Spelling the tabs out leaves no control character where there were only
/// tabs.
proof fn lemma_without_tabs_is_printable(line: Seq<char>)
    requires
        forall|i: int|
            0 <= i < line.len() ==> !text::is_control(#[trigger] line[i]) || line[i] == '\t',
    ensures
        printable(without_tabs(line)),
    decreases line.len(),
{
    if line.len() > 0 {
        lemma_without_tabs_is_printable(line.drop_first());
    }
}

/// A line of the preview holds nothing a terminal cell cannot place: no
/// carriage return, no escape, no tab, no control character of any kind.
pub proof fn lemma_shown_is_printable(line: Seq<char>)
    ensures
        printable(shown(line)),
{
    let last = text::pieces(line, '\r').last();
    lemma_stripped_keeps_only_tabs(last);
    lemma_without_tabs_is_printable(stripped(last));
}

/// What holds no control character is one piece, and is stripped of nothing.
proof fn lemma_printable_is_kept(line: Seq<char>)
    requires
        printable(line),
    ensures
        text::pieces(line, '\r') == seq![line],
        stripped(line) == line,
        without_tabs(line) == line,
    decreases line.len(),
{
    if line.len() > 0 {
        assert(!text::is_control(line[0]));
        assert(!text::is_control(line[line.len() - 1]));
        lemma_printable_is_kept(line.drop_first());
        lemma_printable_is_kept(line.drop_last());
        assert(line.drop_last().push(line.last()) == line);
        assert(seq![line.drop_last()].drop_last().push(line) =~= seq![line]);
        assert(seq![line[0]] + line.drop_first() == line);
    } else {
        assert(line == Seq::<char>::empty());
    }
}

/// A line without control characters is shown as it is. In particular a line
/// that has been made readable once does not change again.
pub proof fn lemma_printable_is_shown_whole(line: Seq<char>)
    requires
        printable(line),
    ensures
        shown(line) == line,
{
    lemma_printable_is_kept(line);
}

/// The preview never holds more than its bound of lines, and every one of them
/// is printable.
pub proof fn lemma_tail_is_bounded(text: Seq<char>, partial: bool)
    ensures
        tail_of(text, partial).len() <= LINES,
        forall|i: int|
            0 <= i < tail_of(text, partial).len() ==> printable(#[trigger] tail_of(text, partial)[i]),
{
    let lines = crate::text::lines_of(text);
    let whole = if partial && lines.len() > 0 {
        lines.drop_first()
    } else {
        lines
    };
    assert forall|i: int| 0 <= i < tail_of(text, partial).len() implies printable(
        #[trigger] tail_of(text, partial)[i],
    ) by {
        lemma_shown_is_printable(last_of(whole, LINES as nat)[i]);
    }
}

/// What follows the last separator is the last piece.
proof fn lemma_last_piece(before: Seq<char>, c: char, after: Seq<char>)
    requires
        !after.contains(c),
    ensures
        text::pieces(before.push(c) + after, c).last() == after,
        text::pieces(after, c).last() == after,
    decreases after.len(),
{
    let s = before.push(c) + after;
    if after.len() == 0 {
        assert(s == before.push(c));
        assert(after == Seq::<char>::empty());
    } else {
        let shorter = after.drop_last();
        assert(s.drop_last() == before.push(c) + shorter);
        assert(after[after.len() - 1] != c);
        assert(!shorter.contains(c)) by {
            if shorter.contains(c) {
                let i = choose|i: int| 0 <= i < shorter.len() && shorter[i] == c;
                assert(after[i] == c);
            }
        }
        lemma_last_piece(before, c, shorter);
        assert(shorter.push(after.last()) == after);
    }
}

/// A progress bar shows only what it last wrote: whatever stood before the
/// last carriage return has been written over.
pub proof fn lemma_only_the_last_write_shows(before: Seq<char>, after: Seq<char>)
    requires
        !after.contains('\r'),
    ensures
        shown(before.push('\r') + after) == shown(after),
{
    lemma_last_piece(before, '\r', after);
}

/// An escape sequence is as long as what it takes up to its letter.
proof fn lemma_sequence_ends_at_its_letter(codes: Seq<char>, letter: char, rest: Seq<char>)
    requires
        text::is_letter(letter),
        forall|i: int| 0 <= i < codes.len() ==> !text::is_letter(#[trigger] codes[i]),
    ensures
        sequence_len(codes.push(letter) + rest) == codes.len() + 1,
    decreases codes.len(),
{
    let s = codes.push(letter) + rest;
    if codes.len() > 0 {
        assert(s[0] == codes[0]);
        assert(s.drop_first() == codes.drop_first().push(letter) + rest);
        lemma_sequence_ends_at_its_letter(codes.drop_first(), letter, rest);
    }
}

/// A colour code shows nothing: the line reads as it would without it.
pub proof fn lemma_a_colour_code_shows_nothing(codes: Seq<char>, letter: char, rest: Seq<char>)
    requires
        text::is_letter(letter),
        forall|i: int| 0 <= i < codes.len() ==> !text::is_letter(#[trigger] codes[i]),
    ensures
        stripped(seq!['\u{1b}', '['] + codes.push(letter) + rest) == stripped(rest),
{
    let line = seq!['\u{1b}', '['] + codes.push(letter) + rest;
    lemma_sequence_ends_at_its_letter(codes, letter, rest);
    assert(line.skip(2) == codes.push(letter) + rest);
    assert(line.skip(codes.len() as int + 3) == rest);
}

/// The preview is the end of the log: its last lines, as many as there are up
/// to four hundred, in their order. The first line of a chunk that started in
/// the middle of the file is not one of them.
pub proof fn lemma_the_tail_is_the_end(text: Seq<char>, partial: bool)
    ensures
        ({
            let lines = crate::text::lines_of(text);
            let whole: int = if partial && lines.len() > 0 {
                lines.len() - 1
            } else {
                lines.len() as int
            };
            let tail = tail_of(text, partial);
            &&& tail.len() == (if whole < 400 {
                whole
            } else {
                400
            })
            &&& forall|i: int|
                0 <= i < tail.len() ==> #[trigger] tail[i] == shown(
                    lines[lines.len() - tail.len() + i],
                )
            &&& tail.len() > 0 ==> tail.last() == shown(lines.last())
        }),
{
}

/// One more line at the end of the log is one more line at the end of the
/// preview, and pushes out no more than the oldest.
pub proof fn lemma_a_new_line_is_shown_last(lines: Seq<Seq<char>>, line: Seq<char>, partial: bool)
    requires
        forall|i: int| 0 <= i < lines.len() ==> !(#[trigger] lines[i]).contains('\n'),
        forall|i: int|
            0 <= i < lines.len() ==> (#[trigger] lines[i]).len() == 0 || lines[i].last() != '\r',
        !line.contains('\n'),
        line.len() == 0 || line.last() != '\r',
        lines.len() > 0,
    ensures
        ({
            let before = tail_of(text::joined(lines.push(Seq::empty()), '\n'), partial);
            let after = tail_of(text::joined(lines.push(line).push(Seq::empty()), '\n'), partial);
            after == (if before.len() < 400 {
                before
            } else {
                before.drop_first()
            }).push(shown(line))
        }),
{
    let more = lines.push(line);
    assert forall|i: int| 0 <= i < more.len() implies !(#[trigger] more[i]).contains('\n') && (
    more[i].len() == 0 || more[i].last() != '\r') by {
        if i < lines.len() {
            assert(more[i] == lines[i]);
        }
    }
    text::lemma_ended_lines_come_apart(lines);
    text::lemma_ended_lines_come_apart(more);
    let before = tail_of(text::joined(lines.push(Seq::empty()), '\n'), partial);
    let after = tail_of(text::joined(more.push(Seq::empty()), '\n'), partial);
    lemma_the_tail_is_the_end(text::joined(lines.push(Seq::empty()), '\n'), partial);
    lemma_the_tail_is_the_end(text::joined(more.push(Seq::empty()), '\n'), partial);
    let kept = if before.len() < 400 {
        before
    } else {
        before.drop_first()
    };
    assert(after =~= kept.push(shown(line)));
}

/// Text in front of an escape, or of anything else, is kept: printable
/// characters and tabs go nowhere.
pub proof fn lemma_text_is_kept(plain: Seq<char>, rest: Seq<char>)
    requires
        forall|i: int|
            0 <= i < plain.len() ==> !text::is_control(#[trigger] plain[i]) || plain[i] == '\t',
    ensures
        stripped(plain + rest) == plain + stripped(rest),
    decreases plain.len(),
{
    let all = plain + rest;
    if plain.len() == 0 {
        assert(all == rest);
        assert(plain + stripped(rest) == stripped(rest));
    } else {
        let shorter = plain.drop_first();
        assert(!text::is_control(plain[0]) || plain[0] == '\t');
        assert forall|i: int| 0 <= i < shorter.len() implies !text::is_control(
            #[trigger] shorter[i],
        ) || shorter[i] == '\t' by {
            assert(shorter[i] == plain[i + 1]);
        }
        assert(all.drop_first() == shorter + rest);
        lemma_text_is_kept(shorter, rest);
        assert(seq![plain[0]] + (shorter + stripped(rest)) == plain + stripped(rest));
    }
}

/// A control character that is neither a tab nor an escape shows nothing.
pub proof fn lemma_a_control_character_shows_nothing(c: char, rest: Seq<char>)
    requires
        text::is_control(c),
        c != '\t',
        c != '\u{1b}',
    ensures
        stripped(seq![c] + rest) == stripped(rest),
{
    assert((seq![c] + rest).drop_first() == rest);
}

/// An escape that opens no bracket takes the one character after it, and one
/// that nothing follows takes only itself.
pub proof fn lemma_a_short_escape_shows_nothing(c: char, rest: Seq<char>)
    requires
        c != '[',
    ensures
        stripped(seq!['\u{1b}', c] + rest) == stripped(rest),
        stripped(seq!['\u{1b}']) == Seq::<char>::empty(),
{
    assert((seq!['\u{1b}', c] + rest).skip(2) == rest);
}

/// An escape sequence that no letter ends takes the rest of the line with it.
pub proof fn lemma_an_endless_escape_shows_nothing(codes: Seq<char>)
    requires
        forall|i: int| 0 <= i < codes.len() ==> !text::is_letter(#[trigger] codes[i]),
    ensures
        stripped(seq!['\u{1b}', '['] + codes) == Seq::<char>::empty(),
{
    let line = seq!['\u{1b}', '['] + codes;
    lemma_no_letter_no_end(codes);
    assert(line.skip(2) == codes);
    assert(line.skip(2 + codes.len() as int) == Seq::<char>::empty());
    assert(stripped(Seq::empty()) == Seq::<char>::empty());
    assert(line[0] == '\u{1b}' && line[1] == '[');
}

/// What no letter ends is as long as there is of it.
proof fn lemma_no_letter_no_end(codes: Seq<char>)
    requires
        forall|i: int| 0 <= i < codes.len() ==> !text::is_letter(#[trigger] codes[i]),
    ensures
        sequence_len(codes) == codes.len(),
    decreases codes.len(),
{
    if codes.len() > 0 {
        let rest = codes.drop_first();
        assert(!text::is_letter(codes[0]));
        assert forall|i: int| 0 <= i < rest.len() implies !text::is_letter(#[trigger] rest[i]) by {
            assert(rest[i] == codes[i + 1]);
        }
        lemma_no_letter_no_end(rest);
    }
}

/// Two parts of a line have their tabs spelled out apart.
proof fn lemma_tabs_are_spelled_apart(first: Seq<char>, second: Seq<char>)
    ensures
        without_tabs(first + second) == without_tabs(first) + without_tabs(second),
    decreases first.len(),
{
    let all = first + second;
    if first.len() == 0 {
        assert(all == second);
        assert(without_tabs(first) + without_tabs(second) == without_tabs(second));
    } else {
        assert(all.drop_first() == first.drop_first() + second);
        lemma_tabs_are_spelled_apart(first.drop_first(), second);
        assert(without_tabs(all) =~= without_tabs(first) + without_tabs(second));
    }
}

/// A tab is shown as four blanks, and the text on either side of it as it
/// would be without.
pub proof fn lemma_a_tab_is_four_blanks(before: Seq<char>, after: Seq<char>)
    requires
        printable(before),
        !after.contains('\r'),
    ensures
        shown(before.push('\t') + after) == before + seq![' ', ' ', ' ', ' '] + shown(after),
{
    let front = before.push('\t');
    let line = front + after;
    assert(!line.contains('\r')) by {
        if line.contains('\r') {
            let i = choose|i: int| 0 <= i < line.len() && line[i] == '\r';
            if i < before.len() {
                assert(text::is_control(before[i]));
            } else if i > before.len() {
                assert(after[i - before.len() - 1] == '\r');
            }
        }
    }
    lemma_last_piece(Seq::empty(), '\r', line);
    lemma_last_piece(Seq::empty(), '\r', after);
    assert forall|i: int| 0 <= i < front.len() implies !text::is_control(#[trigger] front[i])
        || front[i] == '\t' by {
        if i < before.len() {
            assert(front[i] == before[i]);
        }
    }
    lemma_text_is_kept(front, after);
    lemma_tabs_are_spelled_apart(front, stripped(after));
    lemma_tabs_are_spelled_apart(before, seq!['\t']);
    assert(before + seq!['\t'] == front);
    lemma_printable_is_kept(before);
    assert(seq!['\t'].drop_first() == Seq::<char>::empty());
    assert(without_tabs(Seq::empty()) == Seq::<char>::empty());
    assert(seq!['\t'][0] == '\t');
    assert(without_tabs(seq!['\t']) =~= seq![' ', ' ', ' ', ' ']);
    assert(without_tabs(front) + shown(after) =~= before + seq![' ', ' ', ' ', ' '] + shown(after));
}

/// Colours and other codes in the middle of a line show nothing: the text on
/// both sides of one reads on.
pub proof fn lemma_a_coloured_line_reads_on(
    before: Seq<char>,
    codes: Seq<char>,
    letter: char,
    after: Seq<char>,
)
    requires
        printable(before),
        text::is_letter(letter),
        forall|i: int| 0 <= i < codes.len() ==> !text::is_letter(#[trigger] codes[i]),
        !codes.contains('\r'),
        !after.contains('\r'),
    ensures
        shown(before + (seq!['\u{1b}', '['] + codes.push(letter) + after)) == before + shown(after),
{
    let code = seq!['\u{1b}', '['] + codes.push(letter);
    let line = before + (code + after);
    assert(!line.contains('\r')) by {
        if line.contains('\r') {
            let i = choose|i: int| 0 <= i < line.len() && line[i] == '\r';
            let k = i - before.len();
            if i < before.len() {
                assert(text::is_control(before[i]));
            } else if 2 <= k < 2 + codes.len() {
                assert(codes[k - 2] == '\r');
            } else if k > 2 + codes.len() {
                assert(after[k - 3 - codes.len()] == '\r');
            }
        }
    }
    lemma_last_piece(Seq::empty(), '\r', line);
    lemma_last_piece(Seq::empty(), '\r', after);
    lemma_text_is_kept(before, code + after);
    lemma_a_colour_code_shows_nothing(codes, letter, after);
    lemma_tabs_are_spelled_apart(before, stripped(after));
    lemma_printable_is_kept(before);
}

/// What is read of a log is its last sixty-four kibibytes, and a chunk of a
/// longer one starts in the middle of it.
pub proof fn lemma_how_much_is_read()
    ensures
        WINDOW == 64 * 1024,
        LINES == 400,
{
}

/// A file is read from sixty-four kibibytes before its end, or from its start,
/// and a chunk that starts anywhere else than the start is the end of a longer
/// file: its first line is not shown. What could not be read is told as it came,
/// and without a window there is nothing to show.
pub proof fn lemma_a_long_file_is_read_in_part(
    read: Option<Result<Chunk, String>>,
    shown: Result<Vec<String>, String>,
    end: u64,
    start: u64,
)
    requires
        call_ensures(fetched, (read,), shown),
        call_ensures(start_of, (end,), start),
    ensures
        start <= end,
        end <= 65536 ==> start == 0,
        end > 65536 ==> end - start == 65536,
        read is None ==> shown is Ok && shown->Ok_0@.len() == 0,
        read matches Some(Err(said)) ==> shown == Err::<Vec<String>, String>(said),
        read matches Some(Ok(chunk)) ==> shown is Ok && text::views(shown->Ok_0@) == tail_of(
            text::utf8_lossy(chunk.bytes@),
            chunk.end > 65536,
        ),
{
}

/// What is taken of a text is its end, line by line.
pub proof fn lemma_what_is_taken_of_a_text(text: &str, partial: bool, taken: Vec<String>, i: int)
    requires
        call_ensures(tail, (text, partial), taken),
        0 <= i < taken@.len(),
    ensures
        ({
            let lines = crate::text::lines_of(text@);
            &&& taken@.len() <= 400
            &&& taken@[i]@ == shown(lines[lines.len() - taken@.len() + i])
        }),
{
    lemma_the_tail_is_the_end(text@, partial);
    assert(crate::text::views(taken@).len() == taken@.len());
    assert(crate::text::views(taken@)[i] == taken@[i]@);
}

} // verus!
