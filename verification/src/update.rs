//! Keeping the installed binary current.
//!
//! One check when the app starts, on its own thread: the draw loop must never
//! wait on the network, and a login node with no route out has to open the
//! same screen it always does. The work itself is left to the install script,
//! so there is one update path rather than two that can disagree.

use vstd::prelude::*;

use crate::command::Finished;
use crate::text;

verus! {

/// What the check came to.
///
/// None of it interrupts the session: a new binary is renamed into place
/// beside the running one, which keeps the file it started from until it is
/// next started.
pub enum Outcome {
    /// The running version is the one the installer would install.
    Current,
    /// A newer release is now on disk, and takes over at the next start.
    Installed(String),
    /// Why the check got nowhere. Not an error worth stopping for — an old
    /// binary still shows the same jobs.
    Failed(String),
}

/// The startup check, and whatever it has reported.
pub struct Check {
    /// Whether there is a check to run that has not been started.
    pub due: bool,
    /// What the check has sent and nobody has read yet, oldest first.
    pub results: Vec<Outcome>,
    pub outcome: Option<Outcome>,
}

impl Check {
    /// A check to run in the background.
    pub fn start() -> (r: Self)
        ensures
            r.due,
            r.results@.len() == 0,
            r.outcome is None,
    {
        Check { due: true, results: Vec::new(), outcome: None }
    }

    /// A check that never runs and never reports, for `--no-update`.
    pub fn idle() -> (r: Self)
        ensures
            !r.due,
            r.results@.len() == 0,
            r.outcome is None,
    {
        Check { due: false, results: Vec::new(), outcome: None }
    }

    /// Whether to start the check now. Answers yes once at most.
    pub fn take_start(&mut self) -> (r: bool)
        ensures
            r == old(self).due,
            !final(self).due,
            final(self).results == old(self).results,
            final(self).outcome == old(self).outcome,
    {
        let r = self.due;
        self.due = false;
        r
    }

    /// Take in what the check reports.
    pub fn deliver(&mut self, outcome: Outcome)
        ensures
            final(self).due == old(self).due,
            final(self).results@ == old(self).results@.push(outcome),
            final(self).outcome == old(self).outcome,
    {
        self.results.push(outcome);
    }

    /// Take the result if it has arrived, reporting whether it did — the
    /// caller redraws on a change rather than on a timer.
    pub fn apply_update(&mut self) -> (r: bool)
        ensures
            r == (old(self).results@.len() > 0),
            final(self).due == old(self).due,
            r ==> final(self).results@ == old(self).results@.drop_first()
                && final(self).outcome == Some(old(self).results@[0]),
            !r ==> *final(self) == *old(self),
    {
        if self.results.len() == 0 {
            return false;
        }
        let outcome = self.results.remove(0);
        assert(self.results@ == old(self).results@.drop_first());
        self.outcome = Some(outcome);
        true
    }

    /// What to say about the check, once there is anything to say.
    pub fn outcome(&self) -> (r: Option<&Outcome>)
        ensures
            match r {
                Some(outcome) => self.outcome == Some(*outcome),
                None => self.outcome is None,
            },
    {
        self.outcome.as_ref()
    }
}

/// What to say of an installer that stopped: the last thing it said, without
/// its own name in front.
pub open spec fn stopped_because(said: Seq<char>) -> Seq<char> {
    match text::last_said(text::lines_of(said)) {
        Some(line) => text::without_leading(line, "install.sh: "@),
        None => "The installer failed"@,
    }
}

/// The last thing the installer said, which is the part that says why it
/// stopped. Its own name is dropped from the front: the line is shown in a
/// footer, where the columns are better spent on the reason.
pub fn last_word(said: &str) -> (r: String)
    ensures
        r@ == stopped_because(said@),
{
    match text::last_line(said) {
        Some(line) => text::trim_start_matches(line.as_str(), "install.sh: ").to_string(),
        None => "The installer failed".to_string(),
    }
}

/// Why the installer stopped, out of what it wrote to its error stream.
pub fn reason(stderr: &[u8]) -> (r: String)
    ensures
        r@ == stopped_because(text::utf8_lossy(stderr@)),
{
    let said = text::from_utf8_lossy(stderr);
    last_word(said.as_str())
}

/// The version out of `--version` output: the second word of its first line.
pub open spec fn version_in(printed: Seq<char>) -> Option<Seq<char>> {
    let lines = text::lines_of(printed);
    if lines.len() == 0 {
        None
    } else {
        let version = text::first_word(text::after_word(lines[0]));
        if version.len() == 0 {
            None
        } else {
            Some(version)
        }
    }
}

/// The version out of `--version` output, which clap prints as `nchctop <v>`.
pub fn parse_version(printed: &str) -> (r: Option<String>)
    ensures
        match r {
            Some(version) => version_in(printed@) == Some(version@),
            None => version_in(printed@) is None,
        },
{
    let lines = text::lines(printed);
    let ghost all = text::views(lines@);
    assert(all.len() == lines@.len());
    if lines.len() == 0 {
        return None;
    }
    assert(all[0] == lines@[0]@);
    match text::second_word(lines[0].as_str()) {
        Some(version) => Some(version.to_string()),
        None => None,
    }
}

/// The version now installed, when it is not the one running.
pub fn changed(printed: &str, running: &str) -> (r: Result<Option<String>, String>)
    ensures
        match version_in(printed@) {
            Some(version) => r is Ok && match r->Ok_0 {
                Some(installed) => version != running@ && installed@ == version,
                None => version == running@,
            },
            None => r matches Err(said) && said@ == "Could not read the installed version"@,
        },
{
    match parse_version(printed) {
        Some(version) => {
            if text::same(version.as_str(), running) {
                Ok(None)
            } else {
                Ok(Some(version))
            }
        },
        None => Err("Could not read the installed version".to_string()),
    }
}

/// Whether the installer did its work, and why not when it did not.
pub fn installed(finished: &Finished) -> (r: Result<(), String>)
    ensures
        r is Ok <==> finished.success,
        r matches Err(said) ==> said@ == stopped_because(text::utf8_lossy(finished.stderr@)),
{
    if finished.success {
        Ok(())
    } else {
        Err(reason(finished.stderr.as_slice()))
    }
}

/// The version out of what a freshly installed binary printed, when it is not
/// the one running.
pub fn version_change(stdout: &[u8], running: &str) -> (r: Result<Option<String>, String>)
    ensures
        match version_in(text::utf8_lossy(stdout@)) {
            Some(version) => r is Ok && match r->Ok_0 {
                Some(installed) => version != running@ && installed@ == version,
                None => version == running@,
            },
            None => r matches Err(said) && said@ == "Could not read the installed version"@,
        },
{
    let printed = text::from_utf8_lossy(stdout);
    changed(printed.as_str(), running)
}

/// What a check that ended like this came to.
pub fn report(checked: Result<Option<String>, String>) -> (r: Outcome)
    ensures
        r == match checked {
            Ok(Some(version)) => Outcome::Installed(version),
            Ok(None) => Outcome::Current,
            Err(said) => Outcome::Failed(said),
        },
{
    match checked {
        Ok(Some(version)) => Outcome::Installed(version),
        Ok(None) => Outcome::Current,
        Err(said) => Outcome::Failed(said),
    }
}

/// Why the installer stopped is what it said last, without its own name in
/// front of it, whatever it said before and however many blank lines follow.
pub proof fn lemma_the_last_word_tells_why(
    before: Seq<Seq<char>>,
    reason: Seq<char>,
    after: Seq<Seq<char>>,
    said: Seq<char>,
)
    requires
        reason.len() > 0,
        !text::is_space(reason[0]),
        !text::is_space(reason.last()),
        !text::begins(reason, "install.sh: "@),
        forall|i: int| 0 <= i < after.len() ==> text::blank(#[trigger] after[i]),
        text::lines_of(said) == before.push("install.sh: "@ + reason) + after || text::lines_of(
            said,
        ) == before.push(reason) + after,
    ensures
        stopped_because(said) == reason,
{
    let name = "install.sh: "@;
    assert(name.len() == 12 && name[0] == 'i') by {
        reveal_strlit("install.sh: ");
    }
    let full = name + reason;
    assert(full[0] == 'i' && full.last() == reason.last());
    text::lemma_what_white_space_is('i');
    text::lemma_trimming_takes_what_is_around(Seq::empty(), full, Seq::empty());
    text::lemma_trimming_takes_what_is_around(Seq::empty(), reason, Seq::empty());
    text::lemma_the_last_said_is_last(before, full, after);
    text::lemma_the_last_said_is_last(before, reason, after);
    text::lemma_a_leading_prefix_goes(reason, name);
}

/// An installer that said nothing has simply failed.
pub proof fn lemma_silence_is_a_failure(said: Seq<char>)
    requires
        forall|i: int|
            0 <= i < text::lines_of(said).len() ==> text::blank(#[trigger] text::lines_of(said)[i]),
    ensures
        stopped_because(said) == "The installer failed"@,
{
    text::lemma_blank_lines_say_nothing(text::lines_of(said));
}

/// The version is the second word of the first line, whatever the first word is
/// and whatever follows. A line of one word, or none, has no version.
pub proof fn lemma_the_version_is_the_second_word(
    name: Seq<char>,
    space: Seq<char>,
    version: Seq<char>,
    rest: Seq<char>,
    printed: Seq<char>,
)
    requires
        text::is_word(name),
        text::is_word(version),
        space.len() > 0,
        text::blank(space),
        rest.len() == 0 || text::is_space(rest[0]),
        text::lines_of(printed).len() > 0,
    ensures
        text::lines_of(printed)[0] == name + space + version + rest ==> version_in(printed) == Some(
            version,
        ),
        text::lines_of(printed)[0] == name + space ==> version_in(printed) is None,
        text::lines_of(printed)[0] == name ==> version_in(printed) is None,
{
    let empty = Seq::<char>::empty();
    assert(empty + name + (space + version + rest) == name + space + version + rest);
    assert((space + version + rest)[0] == space[0]);
    assert(text::is_space(space[0]));
    text::lemma_words_come_apart(empty, name, space + version + rest);
    text::lemma_words_come_apart(space, version, rest);
    text::lemma_words_come_apart(empty, name, space);
    text::lemma_words_come_apart(empty, name, empty);
    assert(empty + name + space == name + space);
    assert(empty + name + empty == name);
    text::lemma_white_space_is_no_word(space);
    text::lemma_white_space_is_no_word(empty);
}

/// A version that is not the one running has been installed, the one that runs
/// is no change, and output without a version is a failure; and each is
/// reported as what it is.
pub proof fn lemma_only_another_version_is_installed(
    printed: &str,
    running: &str,
    checked: Result<Option<String>, String>,
    outcome: Outcome,
)
    requires
        call_ensures(changed, (printed, running), checked),
        call_ensures(report, (checked,), outcome),
    ensures
        version_in(printed@) == Some(running@) ==> outcome is Current,
        version_in(printed@) is Some && version_in(printed@) != Some(running@) ==> (
        outcome matches Outcome::Installed(version) && version_in(printed@) == Some(version@)),
        version_in(printed@) is None ==> outcome is Failed,
{
}

/// An installer that succeeded has nothing to explain, and one that did not has
/// what it said last.
pub proof fn lemma_an_installer_that_stopped_says_why(
    finished: &Finished,
    result: Result<(), String>,
)
    requires
        call_ensures(installed, (finished,), result),
    ensures
        result is Ok <==> finished.success,
        result matches Err(said) ==> said@ == stopped_because(text::utf8_lossy(finished.stderr@)),
{
}

/// A check is started once at most, and what it reports first is what it is said
/// to have come to.
pub proof fn lemma_a_check_is_started_once(
    check: &mut Check,
    started: bool,
    again: &mut Check,
    twice: bool,
    reported: &mut Check,
    outcome: Outcome,
    read: &mut Check,
    news: bool,
)
    requires
        call_ensures(Check::take_start, (check,), started),
        *old(again) == *final(check),
        call_ensures(Check::take_start, (again,), twice),
        call_ensures(Check::deliver, (reported, outcome), ()),
        *old(read) == *final(reported),
        call_ensures(Check::apply_update, (read,), news),
    ensures
        started == old(check).due,
        !twice,
        news,
        old(reported).results@.len() == 0 ==> final(read).outcome == Some(outcome),
        old(reported).results@.len() == 0 ==> final(read).results@.len() == 0,
        old(reported).results@.len() > 0 ==> final(read).outcome == Some(old(reported).results@[0]),
{
}

} // verus!
