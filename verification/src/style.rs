//! Text with a colour, as the lines of the screen are made of it.

use vstd::prelude::*;

use crate::text;

verus! {

/// A colour to draw text in.
#[derive(Clone, Copy, Debug, PartialEq, Eq, Structural)]
pub enum Tone {
    /// Whatever the terminal draws text in.
    Plain,
    /// Dark grey, for what is not the point.
    Dim,
    Green,
    Yellow,
    Red,
    Cyan,
}

/// A run of text in one colour.
pub struct Span {
    pub text: String,
    pub tone: Tone,
}

impl View for Span {
    type V = (Seq<char>, Tone);

    open spec fn view(&self) -> (Seq<char>, Tone) {
        (self.text@, self.tone)
    }
}

/// A line as its runs of text.
pub open spec fn spans(line: Seq<Span>) -> Seq<(Seq<char>, Tone)> {
    line.map_values(|span: Span| span@)
}

/// A run of text in one colour.
pub fn span(text: &str, tone: Tone) -> (r: Span)
    ensures
        r@ == (text@, tone),
{
    Span { text: text.to_string(), tone }
}

/// How many columns of a terminal a text takes: what ratatui's `Span::width`
/// finds for it.
pub uninterp spec fn columns_of(text: Seq<char>) -> usize;

/// How many columns of a terminal a text takes.
///
/// Trusted: `ratatui::text::Span::width` of a span of this text. What it finds
/// depends on the text alone, and is named [`columns_of`]. Nothing is said of
/// how wide any one text is: that is by the tables of the Unicode standard.
#[verifier::external_body]
fn columns(text: &str) -> (r: usize)
    ensures
        r == columns_of(text@),
{
    ratatui::text::Span::raw(text).width()
}

/// How many columns of a terminal a line takes: what its runs take together.
pub open spec fn line_width(line: Seq<(Seq<char>, Tone)>) -> nat
    decreases line.len(),
{
    if line.len() == 0 {
        0
    } else {
        line_width(line.drop_last()) + columns_of(line.last().0) as nat
    }
}

/// How many columns of a terminal a line takes, as far as they can be counted.
pub fn width(line: &Vec<Span>) -> (r: usize)
    ensures
        r == (if line_width(spans(line@)) <= usize::MAX {
            line_width(spans(line@))
        } else {
            usize::MAX as nat
        }),
{
    let ghost all = spans(line@);
    let mut sum: usize = 0;
    let mut i: usize = 0;
    while i < line.len()
        invariant
            i <= line.len(),
            all == spans(line@),
            sum == (if line_width(all.take(i as int)) <= usize::MAX {
                line_width(all.take(i as int))
            } else {
                usize::MAX as nat
            }),
        decreases line.len() - i,
    {
        assert(all.take(i + 1).drop_last() == all.take(i as int));
        assert(all.take(i + 1).last() == line@[i as int]@);
        sum = sum.saturating_add(columns(line[i].text.as_str()));
        i += 1;
    }
    assert(all.take(i as int) == all);
    sum
}

/// Colour a state the way you skim for one: green is fine, red is not.
pub open spec fn state_tone(state: Seq<char>) -> Tone {
    if state == "RUNNING"@ || state == "COMPLETED"@ {
        Tone::Green
    } else if state == "PENDING"@ || state == "SUSPENDED"@ || state == "REQUEUED"@ {
        Tone::Yellow
    } else if state == "FAILED"@ || state == "TIMEOUT"@ || state == "CANCELLED"@ || state
        == "OUT_OF_MEMORY"@ || state == "NODE_FAIL"@ {
        Tone::Red
    } else {
        Tone::Plain
    }
}

/// Colour a state the way you skim for one: green is fine, red is not.
pub fn state_style(state: &str) -> (r: Tone)
    ensures
        r == state_tone(state@),
{
    if text::same(state, "RUNNING") || text::same(state, "COMPLETED") {
        Tone::Green
    } else if text::same(state, "PENDING") || text::same(state, "SUSPENDED") || text::same(
        state,
        "REQUEUED",
    ) {
        Tone::Yellow
    } else if text::same(state, "FAILED") || text::same(state, "TIMEOUT") || text::same(
        state,
        "CANCELLED",
    ) || text::same(state, "OUT_OF_MEMORY") || text::same(state, "NODE_FAIL") {
        Tone::Red
    } else {
        Tone::Plain
    }
}

/// What runs or has run to its end is green, what waits is yellow, and what came
/// to nothing is red.
pub proof fn lemma_the_colours_of_the_states()
    ensures
        state_tone("RUNNING"@) == Tone::Green,
        state_tone("COMPLETED"@) == Tone::Green,
        state_tone("PENDING"@) == Tone::Yellow,
        state_tone("SUSPENDED"@) == Tone::Yellow,
        state_tone("REQUEUED"@) == Tone::Yellow,
        state_tone("FAILED"@) == Tone::Red,
        state_tone("TIMEOUT"@) == Tone::Red,
        state_tone("CANCELLED"@) == Tone::Red,
        state_tone("OUT_OF_MEMORY"@) == Tone::Red,
        state_tone("NODE_FAIL"@) == Tone::Red,
{
    reveal_strlit("RUNNING");
    reveal_strlit("COMPLETED");
    reveal_strlit("PENDING");
    reveal_strlit("SUSPENDED");
    reveal_strlit("REQUEUED");
    reveal_strlit("FAILED");
    reveal_strlit("TIMEOUT");
    reveal_strlit("CANCELLED");
    reveal_strlit("OUT_OF_MEMORY");
    reveal_strlit("NODE_FAIL");
    assert("RUNNING"@.len() == 7 && "RUNNING"@[0] == 'R');
    assert("COMPLETED"@.len() == 9 && "COMPLETED"@[0] == 'C' && "COMPLETED"@[1] == 'O');
    assert("PENDING"@.len() == 7 && "PENDING"@[0] == 'P');
    assert("SUSPENDED"@.len() == 9 && "SUSPENDED"@[0] == 'S');
    assert("REQUEUED"@.len() == 8);
    assert("FAILED"@.len() == 6);
    assert("TIMEOUT"@.len() == 7 && "TIMEOUT"@[0] == 'T');
    assert("CANCELLED"@.len() == 9 && "CANCELLED"@[0] == 'C' && "CANCELLED"@[1] == 'A');
    assert("OUT_OF_MEMORY"@.len() == 13);
    assert("NODE_FAIL"@.len() == 9 && "NODE_FAIL"@[0] == 'N');
}

/// Any other state has no colour, and no state has one of the others.
pub proof fn lemma_other_states_have_no_colour(state: Seq<char>)
    ensures
        state_tone(state) == Tone::Plain || state_tone(state) == Tone::Green || state_tone(state)
            == Tone::Yellow || state_tone(state) == Tone::Red,
        state_tone(state) == Tone::Green ==> state == "RUNNING"@ || state == "COMPLETED"@,
        state_tone(state) == Tone::Yellow ==> state == "PENDING"@ || state == "SUSPENDED"@ || state
            == "REQUEUED"@,
        state_tone(state) == Tone::Red ==> state == "FAILED"@ || state == "TIMEOUT"@ || state
            == "CANCELLED"@ || state == "OUT_OF_MEMORY"@ || state == "NODE_FAIL"@,
{
}

/// A line in two parts is as wide as the parts, and one run is as wide as its
/// text.
pub proof fn lemma_widths_add_up(
    first: Seq<(Seq<char>, Tone)>,
    second: Seq<(Seq<char>, Tone)>,
    text: Seq<char>,
    tone: Tone,
)
    ensures
        line_width(first + second) == line_width(first) + line_width(second),
        line_width(seq![(text, tone)]) == columns_of(text),
        line_width(Seq::empty()) == 0,
    decreases second.len(),
{
    assert(seq![(text, tone)].drop_last() == Seq::<(Seq<char>, Tone)>::empty());
    assert(line_width(seq![(text, tone)].drop_last()) == 0);
    if second.len() == 0 {
        assert(first + second == first);
    } else {
        assert((first + second).drop_last() == first + second.drop_last());
        lemma_widths_add_up(first, second.drop_last(), text, tone);
    }
}

/// A run of text is its text and its colour, and a line is its runs in their
/// order.
pub proof fn lemma_a_line_is_its_runs(line: Seq<Span>, i: int)
    requires
        0 <= i < line.len(),
    ensures
        spans(line).len() == line.len(),
        spans(line)[i] == (line[i].text@, line[i].tone),
{
}

} // verus!
