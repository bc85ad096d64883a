//! Cancelling a job.
//!
//! `scancel` runs on its own thread, like every other cluster command here: it
//! is usually quick, but the draw loop must not be the thing that finds out it
//! was not. The program starts one for each request it takes, and hands back
//! what came of it.

use vstd::prelude::*;

use crate::command::Finished;
use crate::text;

verus! {

/// Cancellations asked for, and what they came to.
///
/// A cancellation happens once rather than on a timer, so unlike a
/// [`Poller`](crate::poller::Poller) this stands for no thread of its own:
/// each request gets one that ends with the command.
pub struct Cancels {
    /// Jobs to cancel that no command has been started for, oldest first.
    pub requests: Vec<String>,
    /// Cancellations that have finished and nobody has read yet, oldest first.
    pub results: Vec<(String, Result<(), String>)>,
}

impl Cancels {
    /// No cancellations yet.
    pub fn new() -> (r: Self)
        ensures
            r.requests@.len() == 0,
            r.results@.len() == 0,
    {
        Cancels { requests: Vec::new(), results: Vec::new() }
    }

    /// Ask for job `id` to be cancelled, in the background.
    pub fn request(&mut self, id: String)
        ensures
            final(self).requests@ == old(self).requests@.push(id),
            final(self).results == old(self).results,
    {
        self.requests.push(id);
    }

    /// Every job no command has been started for, oldest first.
    pub fn take_requests(&mut self) -> (r: Vec<String>)
        ensures
            r@ == old(self).requests@,
            final(self).requests@.len() == 0,
            final(self).results == old(self).results,
    {
        let mut r: Vec<String> = Vec::new();
        r.append(&mut self.requests);
        r
    }

    /// Take in what came of cancelling job `id`.
    pub fn deliver(&mut self, id: String, result: Result<(), String>)
        ensures
            final(self).requests == old(self).requests,
            final(self).results@ == old(self).results@.push((id, result)),
    {
        self.results.push((id, result));
    }

    /// Every cancellation that has finished since the last call, oldest first.
    pub fn drain(&mut self) -> (r: Vec<(String, Result<(), String>)>)
        ensures
            r@ == old(self).results@,
            final(self).requests == old(self).requests,
            final(self).results@.len() == 0,
    {
        let mut r: Vec<(String, Result<(), String>)> = Vec::new();
        r.append(&mut self.results);
        r
    }
}

/// The part of `scancel`'s complaint worth a footer: the last line that says
/// anything, without the name and the word it starts with.
pub open spec fn reason_of(stderr: Seq<char>) -> Option<Seq<char>> {
    match text::last_said(text::lines_of(stderr)) {
        Some(line) => Some(
            text::without_leading(text::without_leading(line, "scancel: "@), "error: "@),
        ),
        None => None,
    }
}

/// The part of `scancel`'s complaint worth a footer.
///
/// It prefixes its own name to every line and can print more than one — the
/// last is the one that says what went wrong, and its prefix only repeats the
/// word already sitting next to it on screen.
pub fn reason(stderr: &str) -> (r: Option<String>)
    ensures
        match r {
            Some(said) => reason_of(stderr@) == Some(said@),
            None => reason_of(stderr@) is None,
        },
{
    match text::last_line(stderr) {
        Some(line) => {
            let said = text::trim_start_matches(line.as_str(), "scancel: ");
            Some(text::trim_start_matches(said, "error: ").to_string())
        },
        None => None,
    }
}

/// Why a cancellation that failed did, in its own words or in those of its
/// exit status.
pub open spec fn failure_of(status: Seq<char>, stderr: Seq<char>) -> Seq<char> {
    match reason_of(stderr) {
        Some(said) => said,
        None => "scancel exited with "@ + status,
    }
}

/// Why a cancellation that failed did.
pub fn failure(status: &str, stderr: &str) -> (r: String)
    ensures
        r@ == failure_of(status@, stderr@),
{
    match reason(stderr) {
        Some(said) => said,
        None => {
            let mut r = "scancel exited with ".to_string();
            r.append(status);
            r
        },
    }
}

/// What one run of `scancel` came to.
///
/// Slurm takes the cancellation and the job leaves the queue on its own time,
/// so a command that returns without complaint is as much as there is to
/// know; the queue pane reports the rest a fetch later.
pub fn cancelled(finished: &Finished) -> (r: Result<(), String>)
    ensures
        r is Ok <==> finished.success,
        r matches Err(said) ==> said@ == failure_of(
            finished.status@,
            text::utf8_lossy(finished.stderr@),
        ),
{
    if finished.success {
        return Ok(());
    }
    let stderr = text::from_utf8_lossy(finished.stderr.as_slice());
    Err(failure(finished.status.as_str(), stderr.as_str()))
}

/// What `scancel` said last is the reason, without its own name and the word
/// for an error in front of it, whatever it said before and however many blank
/// lines follow.
pub proof fn lemma_the_reason_is_what_was_said_last(
    before: Seq<Seq<char>>,
    reason: Seq<char>,
    after: Seq<Seq<char>>,
    stderr: Seq<char>,
)
    requires
        reason.len() > 0,
        !text::is_space(reason[0]),
        !text::is_space(reason.last()),
        !text::begins(reason, "scancel: "@),
        !text::begins(reason, "error: "@),
        forall|i: int| 0 <= i < after.len() ==> text::blank(#[trigger] after[i]),
        text::lines_of(stderr) == before.push("scancel: "@ + "error: "@ + reason) + after
            || text::lines_of(stderr) == before.push("error: "@ + reason) + after
            || text::lines_of(stderr) == before.push(reason) + after,
    ensures
        reason_of(stderr) == Some(reason),
        forall|status: Seq<char>| #[trigger] failure_of(status, stderr) == reason,
{
    let name = "scancel: "@;
    let word = "error: "@;
    assert(name.len() == 9 && name[0] == 's' && word.len() == 7 && word[0] == 'e') by {
        reveal_strlit("scancel: ");
        reveal_strlit("error: ");
    }
    let full = name + word + reason;
    let short = word + reason;
    assert(full == name + short);
    assert(full[0] == 's' && full.last() == reason.last());
    assert(short[0] == 'e' && short.last() == reason.last());
    lemma_said(before, full, after);
    lemma_said(before, short, after);
    lemma_said(before, reason, after);
    text::lemma_a_leading_prefix_goes(short, name);
    text::lemma_a_leading_prefix_goes(reason, name);
    text::lemma_a_leading_prefix_goes(reason, word);
    assert(!text::begins(short, name)) by {
        if text::begins(short, name) {
            assert(short.take(9)[0] == short[0]);
        }
    }
}

/// A line that does not start or end with white space was said as it stands.
proof fn lemma_said(before: Seq<Seq<char>>, line: Seq<char>, after: Seq<Seq<char>>)
    requires
        line.len() > 0,
        !text::is_space(line[0]) || line[0] == 's' || line[0] == 'e',
        !text::is_space(line.last()),
        forall|i: int| 0 <= i < after.len() ==> text::blank(#[trigger] after[i]),
    ensures
        text::last_said(before.push(line) + after) == Some(line),
{
    text::lemma_what_white_space_is(line[0]);
    text::lemma_trimming_takes_what_is_around(Seq::empty(), line, Seq::empty());
    text::lemma_the_last_said_is_last(before, line, after);
}

/// A command that said nothing is told by how it exited.
pub proof fn lemma_silence_is_told_by_the_status(status: Seq<char>, stderr: Seq<char>)
    requires
        forall|i: int|
            0 <= i < text::lines_of(stderr).len() ==> text::blank(
                #[trigger] text::lines_of(stderr)[i],
            ),
    ensures
        reason_of(stderr) is None,
        failure_of(status, stderr) == "scancel exited with "@ + status,
{
    text::lemma_blank_lines_say_nothing(text::lines_of(stderr));
}

/// A cancellation is taken when the command succeeded, and otherwise it is told
/// why not.
pub proof fn lemma_a_cancellation_is_taken_or_explained(
    finished: &Finished,
    result: Result<(), String>,
)
    requires
        call_ensures(cancelled, (finished,), result),
    ensures
        result is Ok <==> finished.success,
        result matches Err(said) ==> said@ == failure_of(
            finished.status@,
            text::utf8_lossy(finished.stderr@),
        ),
{
}

/// A job to cancel is taken once, behind those asked for before it, and what
/// came of one is read once, behind what came of those before it.
pub proof fn lemma_cancellations_keep_their_order(
    asked: &mut Cancels,
    id: String,
    taking: &mut Cancels,
    taken: Vec<String>,
    delivered: &mut Cancels,
    result: Result<(), String>,
    draining: &mut Cancels,
    drained: Vec<(String, Result<(), String>)>,
)
    requires
        call_ensures(Cancels::request, (asked, id), ()),
        *old(taking) == *final(asked),
        call_ensures(Cancels::take_requests, (taking,), taken),
        call_ensures(Cancels::deliver, (delivered, id, result), ()),
        *old(draining) == *final(delivered),
        call_ensures(Cancels::drain, (draining,), drained),
    ensures
        taken@ == old(asked).requests@.push(id),
        final(taking).requests@.len() == 0,
        final(taking).results@ == old(asked).results@,
        drained@ == old(delivered).results@.push((id, result)),
        final(draining).results@.len() == 0,
        final(draining).requests@ == old(delivered).requests@,
{
}

} // verus!
