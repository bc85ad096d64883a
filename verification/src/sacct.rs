//! The recent jobs: what `sacct` reports.

use vstd::prelude::*;

use crate::command::Finished;
use crate::logfile;
use crate::moment;
use crate::moment::Moment;
use crate::poller::Poller;
use crate::text;
use crate::tres;

verus! {

/// The sacct fields we ask for. The leading ones are in the order the table
/// renders them, with `AllocTRES` expanding into the CPU, GPU and memory
/// columns. The trailing three are not columns of their own: `Start` feeds the
/// cost line, and `WorkDir` and `StdOut` feed the log column between them.
pub const FORMAT: &'static str =
    "JobID,Partition,JobName,User,State,AllocTRES,Elapsed,End,ExitCode,Start,WorkDir,StdOut";

/// How far back the recent view looks. Slurm's time specification understands
/// weeks but not months, so a month is spelled out in days.
pub const WINDOW: &'static str = "now-30days";

/// How often to re-run `sacct`, in seconds. Slower than squeue, because the
/// accounting database is the heavier thing to ask and a finished job never
/// changes again.
///
/// [`Poller`] waits this long *between* fetches rather than running on a
/// period, so a cluster where the query really is slow backs itself off
/// instead of queueing up overlapping runs.
pub const INTERVAL: u64 = 30;

/// One job from the accounting database, finished or still going.
///
/// Most fields are kept as the strings the table prints. The three the cost
/// line adds up are kept as numbers as well, because a total cannot be taken
/// of `"1"` and `"04:00:14"`.
pub struct Run {
    pub id: String,
    pub partition: String,
    pub name: String,
    pub user: String,
    pub state: String,
    pub cpus: String,
    pub gpus: String,
    pub mem: String,
    pub elapsed: String,
    pub end: String,
    pub exit: String,
    pub gpu_count: u32,
    /// How long it has run, in seconds.
    pub runtime: u64,
    /// `None` for a job that never started, which has nothing to bill.
    pub start: Option<Moment>,
    /// Where the job wrote its output, or `-` for one that wrote no file.
    pub log: String,
}

/// The same job as a specification speaks of it.
pub struct RunRow {
    pub id: Seq<char>,
    pub partition: Seq<char>,
    pub name: Seq<char>,
    pub user: Seq<char>,
    pub state: Seq<char>,
    pub cpus: Seq<char>,
    pub gpus: Seq<char>,
    pub mem: Seq<char>,
    pub elapsed: Seq<char>,
    pub end: Seq<char>,
    pub exit: Seq<char>,
    pub gpu_count: nat,
    pub runtime: nat,
    pub start: Option<Moment>,
    pub log: Seq<char>,
}

impl View for Run {
    type V = RunRow;

    open spec fn view(&self) -> RunRow {
        RunRow {
            id: self.id@,
            partition: self.partition@,
            name: self.name@,
            user: self.user@,
            state: self.state@,
            cpus: self.cpus@,
            gpus: self.gpus@,
            mem: self.mem@,
            elapsed: self.elapsed@,
            end: self.end@,
            exit: self.exit@,
            gpu_count: self.gpu_count as nat,
            runtime: self.runtime as nat,
            start: self.start,
            log: self.log@,
        }
    }
}

/// A number, or zero for anything that is not one.
pub open spec fn number_or_zero(s: Seq<char>, max: nat) -> nat {
    match text::unsigned(s, max) {
        Some(n) => n,
        None => 0,
    }
}

/// The number in the part of a clock that is `back` from its right end, the
/// last part being one back. Zero for a clock with fewer parts.
pub open spec fn clock_part(parts: Seq<Seq<char>>, back: int) -> nat {
    if back <= parts.len() {
        number_or_zero(parts[parts.len() - back], u64::MAX as nat)
    } else {
        0
    }
}

/// The days and the clock of an elapsed time: `D-HH:MM:SS`, or the clock alone.
pub open spec fn days_and_clock(elapsed: Seq<char>) -> (nat, Seq<char>) {
    match text::halves(elapsed, '-') {
        Some((days, clock)) => (number_or_zero(days, u64::MAX as nat), clock),
        None => (0, elapsed),
    }
}

/// How many seconds an elapsed time spells, read from the right so that a
/// shorter clock still lands in the units it means.
pub open spec fn seconds_of(elapsed: Seq<char>) -> nat {
    let (days, clock) = days_and_clock(elapsed);
    let parts = text::pieces(clock, ':');
    days * 86_400 + clock_part(parts, 1) + 60 * clock_part(parts, 2) + 3600 * clock_part(parts, 3)
}

/// How long a job has run, in seconds. A time that no counter of seconds holds
/// is not recognised, and reads as no time at all.
pub open spec fn runtime_of(elapsed: Seq<char>) -> nat {
    if seconds_of(elapsed) <= u64::MAX {
        seconds_of(elapsed)
    } else {
        0
    }
}

/// A state without who brought it about.
pub open spec fn state_of(state: Seq<char>) -> Seq<char> {
    match text::halves_at(state, " by "@) {
        Some((name, _)) => name,
        None => state,
    }
}

/// The text from its byte `n` on, or nothing if no character starts there.
pub open spec fn from_byte(s: Seq<char>, n: int) -> Option<Seq<char>> {
    let bytes = vstd::utf8::encode_utf8(s);
    if vstd::utf8::is_char_boundary(bytes, n) {
        Some(vstd::utf8::decode_utf8(bytes.subrange(n, bytes.len() as int)))
    } else {
        None
    }
}

/// The text up to its byte `n`, or nothing if no character starts there.
pub open spec fn to_byte(s: Seq<char>, n: int) -> Option<Seq<char>> {
    let bytes = vstd::utf8::encode_utf8(s);
    if vstd::utf8::is_char_boundary(bytes, n) {
        Some(vstd::utf8::decode_utf8(bytes.subrange(0, n)))
    } else {
        None
    }
}

/// A timestamp without its year and its seconds, or as it was if it is not a
/// timestamp.
pub open spec fn short_time_of(stamp: Seq<char>) -> Seq<char> {
    match text::halves(stamp, 'T') {
        Some((date, time)) => match (from_byte(date, 5), to_byte(time, 5)) {
            (Some(day), Some(minute)) => day + seq![' '] + minute,
            _ => stamp,
        },
        None => stamp,
    }
}

/// How many GPUs a TRES list counts.
pub open spec fn gpu_count_of(tres: Seq<char>) -> nat {
    match tres::value_of(tres, "gres/gpu"@) {
        Some(gpus) => number_or_zero(gpus, u32::MAX as nat),
        None => 0,
    }
}

/// What the fields of one row say.
pub open spec fn row_of(fields: Seq<Seq<char>>, home: Option<Seq<char>>) -> RunRow {
    let job = logfile::Facts {
        id: text::trimmed(fields[0]),
        name: text::trimmed(fields[2]),
        user: text::trimmed(fields[3]),
    };
    RunRow {
        id: job.id,
        partition: text::trimmed(fields[1]),
        name: job.name,
        user: job.user,
        state: state_of(text::trimmed(fields[4])),
        cpus: tres::resource_of(fields[5], "cpu"@),
        gpus: tres::resource_of(fields[5], "gres/gpu"@),
        mem: tres::memory_of(fields[5]),
        elapsed: text::trimmed(fields[6]),
        end: short_time_of(text::trimmed(fields[7])),
        exit: text::trimmed(fields[8]),
        gpu_count: gpu_count_of(fields[5]),
        runtime: runtime_of(text::trimmed(fields[6])),
        start: moment::moment_of(text::trimmed(fields[9])),
        log: logfile::log_of(trailing(fields, 11), trailing(fields, 10), job, home),
    }
}

/// One of the fields that only the log column reads. A line that ends with the
/// start leaves it empty.
pub open spec fn trailing(fields: Seq<Seq<char>>, i: int) -> Seq<char> {
    if i < fields.len() {
        fields[i]
    } else {
        Seq::empty()
    }
}

/// The job a line holds: one with every field, or one that ends with the start
/// and so names no log. Nothing for any other line.
pub open spec fn parsed(line: Seq<char>, home: Option<Seq<char>>) -> Option<RunRow> {
    let fields = text::fields(line, '|', 12);
    if fields.len() == 10 || fields.len() == 12 {
        Some(row_of(fields, home))
    } else {
        None
    }
}

/// The jobs of every line that holds one, in the order of the lines.
pub open spec fn parsed_lines(lines: Seq<Seq<char>>, home: Option<Seq<char>>) -> Seq<RunRow>
    decreases lines.len(),
{
    if lines.len() == 0 {
        Seq::empty()
    } else {
        let before = parsed_lines(lines.drop_last(), home);
        match parsed(lines.last(), home) {
            Some(row) => before.push(row),
            None => before,
        }
    }
}

/// A list of jobs as rows.
pub open spec fn rows(runs: Seq<Run>) -> Seq<RunRow> {
    runs.map_values(|run: Run| run@)
}

/// A number, or zero for anything that is not one.
fn number(s: &str, max: u64) -> (r: u64)
    ensures
        r == number_or_zero(s@, max as nat),
        r <= max,
{
    match text::parse_unsigned(s, max) {
        Some(n) => n,
        None => 0,
    }
}

/// The number in one part of a clock.
fn part_back(parts: &Vec<&str>, back: usize) -> (r: u64)
    requires
        1 <= back,
    ensures
        r == clock_part(text::slices(parts@), back as int),
{
    if back <= parts.len() {
        let ghost all = text::slices(parts@);
        assert(all[all.len() - back] == parts@[parts@.len() - back]@);
        number(parts[parts.len() - back], u64::MAX)
    } else {
        0
    }
}

/// Parse sacct's `Elapsed`, which is `HH:MM:SS` until a job has run for a day
/// and `D-HH:MM:SS` after that. Read from the right, so the shorter `MM:SS`
/// that Slurm documents still lands in the units it means. Anything
/// unrecognised reads as no time at all rather than taking the refresh down.
pub fn runtime(elapsed: &str) -> (r: u64)
    ensures
        r == runtime_of(elapsed@),
{
    let (days, clock) = match text::split_once(elapsed, '-') {
        Some((days, clock)) => (number(days, u64::MAX), clock),
        None => (0, elapsed),
    };
    let parts = text::split(clock, ':');
    let seconds: u128 = days as u128 * 86_400 + part_back(&parts, 1) as u128 + 60 * part_back(
        &parts,
        2,
    ) as u128 + 3600 * part_back(&parts, 3) as u128;
    assert(seconds == seconds_of(elapsed@));
    if seconds <= u64::MAX as u128 {
        seconds as u64
    } else {
        0
    }
}

/// Slurm reports a cancelled job as `CANCELLED by 12345`. The uid that did it
/// is rarely what you are scanning for and it doubles the width of the column,
/// so keep just the state itself.
pub fn state_name(state: &str) -> (r: String)
    ensures
        r@ == state_of(state@),
{
    match text::split_once_at(state, " by ") {
        Some((name, _)) => name.to_string(),
        None => state.to_string(),
    }
}

/// What stands before and after byte `n`, if a character starts there.
fn split_at_byte(s: &str, n: usize) -> (r: Option<(&str, &str)>)
    ensures
        match r {
            Some((before, after)) => to_byte(s@, n as int) == Some(before@) && from_byte(
                s@,
                n as int,
            ) == Some(after@),
            None => to_byte(s@, n as int) is None && from_byte(s@, n as int) is None,
        },
{
    if s.is_char_boundary(n) {
        let (before, after) = s.split_at(n);
        proof {
            vstd::utf8::encode_utf8_decode_utf8(before@);
            vstd::utf8::encode_utf8_decode_utf8(after@);
        }
        Some((before, after))
    } else {
        None
    }
}

/// `2026-08-28T19:59:28` is more precision than the column has room for. A
/// job that has not finished reports something else entirely ("Unknown"),
/// which passes through untouched.
pub fn short_time(stamp: &str) -> (r: String)
    ensures
        r@ == short_time_of(stamp@),
{
    match text::split_once(stamp, 'T') {
        // Drop the year from the date and the seconds from the time.
        Some((date, time)) => match (split_at_byte(date, 5), split_at_byte(time, 5)) {
            (Some((_, day)), Some((minute, _))) => {
                let mut r = day.to_string();
                r.push(' ');
                r.append(minute);
                assert(r@ == day@ + seq![' '] + minute@);
                r
            },
            _ => stamp.to_string(),
        },
        None => stamp.to_string(),
    }
}

/// How many GPUs a TRES list counts.
fn gpu_count(spec: &str) -> (r: u32)
    ensures
        r == gpu_count_of(spec@),
{
    match tres::value(spec, "gres/gpu") {
        Some(gpus) => number(gpus, u32::MAX as u64) as u32,
        None => 0,
    }
}

/// One of the fields that only the log column reads.
fn trailing_field<'a>(fields: &Vec<&'a str>, i: usize) -> (r: &'a str)
    ensures
        r@ == trailing(text::slices(fields@), i as int),
{
    if i < fields.len() {
        assert(text::slices(fields@)[i as int] == fields@[i as int]@);
        fields[i]
    } else {
        proof {
            reveal_strlit("");
        }
        ""
    }
}

impl Run {
    /// Parse one `--parsable2` line. Returns `None` for a line that does not
    /// have every field, so one malformed row cannot take the whole refresh
    /// down. The two after the start only name the log, together: a line
    /// without both is a job that wrote no file, and one with only the first
    /// is malformed. A log under `home` is written with a `~`.
    pub fn parse(line: &str, home: Option<&str>) -> (r: Option<Self>)
        ensures
            match r {
                Some(run) => parsed(line@, logfile::view_of(home)) == Some(run@),
                None => parsed(line@, logfile::view_of(home)) is None,
            },
    {
        let fields = text::splitn(line, '|', 12);
        let ghost all = text::slices(fields@);
        assert(all.len() == fields@.len());
        if fields.len() != 10 && fields.len() != 12 {
            return None;
        }
        assert(forall|i: int| 0 <= i < all.len() ==> #[trigger] all[i] == fields@[i]@);
        let job = logfile::Job {
            id: text::trim(fields[0]),
            name: text::trim(fields[2]),
            user: text::trim(fields[3]),
        };
        let elapsed = text::trim(fields[6]);
        Some(
            Run {
                id: job.id.to_string(),
                partition: text::trim(fields[1]).to_string(),
                name: job.name.to_string(),
                user: job.user.to_string(),
                state: state_name(text::trim(fields[4])),
                cpus: tres::resource(fields[5], "cpu"),
                gpus: tres::resource(fields[5], "gres/gpu"),
                mem: tres::memory(fields[5]),
                elapsed: elapsed.to_string(),
                end: short_time(text::trim(fields[7])),
                exit: text::trim(fields[8]).to_string(),
                gpu_count: gpu_count(fields[5]),
                runtime: runtime(elapsed),
                start: moment::timestamp(text::trim(fields[9])),
                log: logfile::log(
                    trailing_field(&fields, 11),
                    trailing_field(&fields, 10),
                    &job,
                    home,
                ),
            },
        )
    }
}

/// Every job a listing reports, newest first: sacct reports oldest first, and
/// the interesting end of a recent list is the other one.
pub fn read(listing: &str, home: Option<&str>) -> (r: Vec<Run>)
    ensures
        rows(r@) == parsed_lines(text::lines_of(listing@), logfile::view_of(home)).reverse(),
{
    let lines = text::lines(listing);
    let ghost all = text::views(lines@);
    let mut found: Vec<Run> = Vec::new();
    let mut i: usize = 0;
    assert(rows(found@) =~= parsed_lines(all.take(0), logfile::view_of(home)));
    while i < lines.len()
        invariant
            i <= lines.len(),
            all == text::views(lines@),
            rows(found@) == parsed_lines(all.take(i as int), logfile::view_of(home)),
        decreases lines.len() - i,
    {
        assert(all.take(i + 1).drop_last() == all.take(i as int));
        assert(all.take(i + 1).last() == lines@[i as int]@);
        match Run::parse(lines[i].as_str(), home) {
            Some(run) => {
                let ghost gone = found@;
                found.push(run);
                assert(rows(found@) == rows(gone).push(run@));
            },
            None => {},
        }
        i += 1;
    }
    assert(all.take(i as int) == all);
    newest_first(found)
}

/// The list the other way round.
fn newest_first(oldest_first: Vec<Run>) -> (r: Vec<Run>)
    ensures
        rows(r@) == rows(oldest_first@).reverse(),
{
    let mut left = oldest_first;
    let mut r: Vec<Run> = Vec::new();
    assert(left@ + r@.reverse() == oldest_first@);
    loop
        invariant
            left@ + r@.reverse() == oldest_first@,
        decreases left.len(),
    {
        let ghost before = left@;
        let ghost done = r@;
        match left.pop() {
            Some(run) => {
                r.push(run);
                assert(r@.reverse() == seq![run] + done.reverse());
                assert(before == left@.push(run));
                assert(left@ + r@.reverse() == before + done.reverse());
            },
            None => {
                assert(r@ == oldest_first@.reverse());
                assert(rows(r@) == rows(oldest_first@).reverse());
                return r;
            },
        }
    }
}

/// What to run `sacct` with. Always the current user's own jobs, which is
/// sacct's own default.
pub open spec fn arguments_of() -> Seq<Seq<char>> {
    seq![
        "--parsable2"@,
        "--noheader"@,
        "--allocations"@,
        "--starttime="@ + WINDOW@,
        "--format="@ + FORMAT@,
    ]
}

/// What to run `sacct` with.
///
/// Always the current user's own jobs, which is sacct's own default: the pane
/// is there to answer what you have been running and what it cost, and the
/// costs beside it are read against your own balance.
pub fn arguments() -> (r: Vec<String>)
    ensures
        text::views(r@) == arguments_of(),
{
    let mut r: Vec<String> = Vec::new();
    r.push("--parsable2".to_string());
    r.push("--noheader".to_string());
    // Whole jobs only, not their .batch and .extern steps.
    r.push("--allocations".to_string());
    let mut since = "--starttime=".to_string();
    since.append(WINDOW);
    r.push(since);
    let mut format = "--format=".to_string();
    format.append(FORMAT);
    r.push(format);
    assert(text::views(r@) =~= arguments_of());
    r
}

/// Every job one run of `sacct` reported, newest first, or why there are none
/// to read.
pub fn fetched(finished: &Finished, home: Option<&str>) -> (r: Result<Vec<Run>, String>)
    ensures
        match r {
            Ok(runs) => finished.outcome("sacct"@) matches Ok(listing) && rows(runs@)
                == parsed_lines(text::lines_of(listing), logfile::view_of(home)).reverse(),
            Err(said) => finished.outcome("sacct"@) == Err::<Seq<char>, Seq<char>>(said@),
        },
{
    match finished.output("sacct") {
        Ok(listing) => Ok(read(listing.as_str(), home)),
        Err(said) => Err(said),
    }
}

/// Start polling `sacct` in the background. There is nothing to vary from one
/// fetch to the next, so the request carries nothing.
pub fn poll() -> (r: Poller<(), Vec<Run>>)
    ensures
        r.interval == INTERVAL,
        r.requests@ == seq![()],
        r.results@.len() == 0,
{
    Poller::spawn(INTERVAL, ())
}

/// Every line is read on its own: a listing in two parts holds what the parts
/// hold.
pub proof fn lemma_lines_are_read_apart(
    first: Seq<Seq<char>>,
    second: Seq<Seq<char>>,
    home: Option<Seq<char>>,
)
    ensures
        parsed_lines(first + second, home) == parsed_lines(first, home) + parsed_lines(
            second,
            home,
        ),
    decreases second.len(),
{
    if second.len() == 0 {
        assert(first + second == first);
        assert(parsed_lines(first, home) + Seq::empty() == parsed_lines(first, home));
    } else {
        lemma_lines_are_read_apart(first, second.drop_last(), home);
        assert((first + second).drop_last() == first + second.drop_last());
        assert(parsed_lines(first + second, home) =~= parsed_lines(first, home) + parsed_lines(
            second,
            home,
        ));
    }
}

/// One malformed row does not take the refresh down: the listing reads as it
/// would without it.
pub proof fn lemma_a_malformed_row_costs_only_itself(
    before: Seq<Seq<char>>,
    line: Seq<char>,
    after: Seq<Seq<char>>,
    home: Option<Seq<char>>,
)
    requires
        parsed(line, home) is None,
    ensures
        parsed_lines(before.push(line) + after, home) == parsed_lines(before + after, home),
{
    lemma_lines_are_read_apart(before.push(line), after, home);
    lemma_lines_are_read_apart(before, after, home);
    assert(before.push(line).drop_last() == before);
}

/// A row reads back as the fields it was made of, with the log or without it,
/// as long as none but the twelfth holds a separator.
pub proof fn lemma_a_row_reads_back(fields: Seq<Seq<char>>, home: Option<Seq<char>>)
    requires
        fields.len() == 10 || fields.len() == 12,
        forall|i: int| 0 <= i < fields.len() && i < 11 ==> !(#[trigger] fields[i]).contains('|'),
    ensures
        parsed(text::joined(fields, '|'), home) == Some(row_of(fields, home)),
{
    text::lemma_joined_comes_apart(fields, '|', 12);
}

/// A job whose column shows no GPUs counts none.
pub proof fn lemma_a_dash_is_no_gpus(tres: Seq<char>)
    requires
        tres::resource_of(tres, "gres/gpu"@) == seq!['-'],
    ensures
        gpu_count_of(tres) == 0,
{
    match tres::value_of(tres, "gres/gpu"@) {
        Some(gpus) => {
            assert(!text::is_digit(gpus[0]));
        },
        None => {},
    }
}

/// Digits, and at least one of them.
pub open spec fn is_number(s: Seq<char>) -> bool {
    s.len() > 0 && text::all_digits(s)
}

/// A number reads as what its digits spell.
proof fn lemma_number_reads(s: Seq<char>)
    requires
        is_number(s),
        text::digits_value(s) <= u64::MAX,
    ensures
        number_or_zero(s, u64::MAX as nat) == text::digits_value(s),
        !s.contains(':'),
        !s.contains('-'),
{
    assert(text::is_digit(s[0]));
    if s.contains(':') {
        let i = choose|i: int| 0 <= i < s.len() && s[i] == ':';
        assert(text::is_digit(s[i]));
    }
    if s.contains('-') {
        let i = choose|i: int| 0 <= i < s.len() && s[i] == '-';
        assert(text::is_digit(s[i]));
    }
}

/// A clock counts its hours, minutes and seconds, and the days in front of it
/// count whole.
pub proof fn lemma_elapsed_adds_up(
    days: Seq<char>,
    hours: Seq<char>,
    minutes: Seq<char>,
    seconds: Seq<char>,
)
    requires
        is_number(days),
        is_number(hours),
        is_number(minutes),
        is_number(seconds),
        text::digits_value(days) * 86_400 + text::digits_value(hours) * 3600 + text::digits_value(
            minutes,
        ) * 60 + text::digits_value(seconds) <= u64::MAX,
    ensures
        ({
            let clock = text::joined(seq![hours, minutes, seconds], ':');
            let counted = text::digits_value(hours) * 3600 + text::digits_value(minutes) * 60
                + text::digits_value(seconds);
            &&& runtime_of(clock) == counted
            &&& runtime_of(days.push('-') + clock) == text::digits_value(days) * 86_400 + counted
        }),
{
    lemma_number_reads(days);
    lemma_number_reads(hours);
    lemma_number_reads(minutes);
    lemma_number_reads(seconds);
    let parts = seq![hours, minutes, seconds];
    let clock = text::joined(parts, ':');
    text::lemma_joined_comes_apart_everywhere(parts, ':');
    text::lemma_halves_of_a_join(days, '-', clock);
    assert(parts.drop_last() == seq![hours, minutes]);
    assert(parts.drop_last().drop_last() == seq![hours]);
    assert(clock == hours.push(':') + minutes + seq![':'] + seconds) by {
        reveal_with_fuel(text::joined, 4);
    }
    text::lemma_halves_rejoin(clock, '-');
    if clock.contains('-') {
        let i = choose|i: int| 0 <= i < clock.len() && clock[i] == '-';
        let h = hours.len();
        let m = minutes.len();
        if i < h {
            assert(hours[i] == '-');
        } else if h < i < h + 1 + m {
            assert(minutes[i - h - 1] == '-');
        } else if i > h + 1 + m {
            assert(seconds[i - h - m - 2] == '-');
        }
    }
    assert(text::halves(clock, '-') is None) by {
        match text::halves(clock, '-') {
            Some((before, after)) => {
                assert(clock[before.len() as int] == '-');
            },
            None => {},
        }
    }
    assert(clock_part(parts, 1) == text::digits_value(seconds));
    assert(clock_part(parts, 2) == text::digits_value(minutes));
    assert(clock_part(parts, 3) == text::digits_value(hours));
}

/// Each column of a row is what the line says in the field that was asked for
/// it, without the white space around: the id is the first of them, then come
/// the partition, the name, the user, the state, the resources, the elapsed
/// time, the end and the exit code, and behind them the start, the working
/// directory and the output pattern. The time that is billed is the one the
/// elapsed column spells, and the GPUs that are billed are those of the
/// resources. A line that stops at the start names no log.
pub proof fn lemma_every_column_is_its_field(fields: Seq<Seq<char>>, home: Option<Seq<char>>)
    requires
        fields.len() == 10 || fields.len() == 12,
        forall|i: int| 0 <= i < fields.len() && i < 11 ==> !(#[trigger] fields[i]).contains('|'),
    ensures
        parsed(text::joined(fields, '|'), home) matches Some(row) && {
            &&& row.id == text::trimmed(fields[0])
            &&& row.partition == text::trimmed(fields[1])
            &&& row.name == text::trimmed(fields[2])
            &&& row.user == text::trimmed(fields[3])
            &&& row.state == state_of(text::trimmed(fields[4]))
            &&& row.cpus == tres::resource_of(fields[5], "cpu"@)
            &&& row.gpus == tres::resource_of(fields[5], "gres/gpu"@)
            &&& row.mem == tres::memory_of(fields[5])
            &&& row.elapsed == text::trimmed(fields[6])
            &&& row.end == short_time_of(text::trimmed(fields[7]))
            &&& row.exit == text::trimmed(fields[8])
            &&& row.start == moment::moment_of(text::trimmed(fields[9]))
            &&& row.runtime == runtime_of(row.elapsed)
            &&& row.gpu_count == gpu_count_of(fields[5])
            &&& fields.len() == 10 ==> row.log == seq!['-']
            &&& fields.len() == 12 ==> row.log == logfile::log_of(
                fields[11],
                fields[10],
                logfile::Facts { id: row.id, name: row.name, user: row.user },
                home,
            )
        },
{
    lemma_a_row_reads_back(fields, home);
    text::lemma_trimming_takes_what_is_around(Seq::empty(), Seq::empty(), Seq::empty());
    assert(Seq::<char>::empty() + Seq::<char>::empty() + Seq::<char>::empty()
        == Seq::<char>::empty());
}

/// The fields that are asked for are the ones the columns are read from, in
/// that order.
pub proof fn lemma_the_fields_asked_for()
    ensures
        text::pieces(FORMAT@, ',') == seq![
            "JobID"@,
            "Partition"@,
            "JobName"@,
            "User"@,
            "State"@,
            "AllocTRES"@,
            "Elapsed"@,
            "End"@,
            "ExitCode"@,
            "Start"@,
            "WorkDir"@,
            "StdOut"@,
        ],
{
    let names = seq![
        "JobID"@,
        "Partition"@,
        "JobName"@,
        "User"@,
        "State"@,
        "AllocTRES"@,
        "Elapsed"@,
        "End"@,
        "ExitCode"@,
        "Start"@,
        "WorkDir"@,
        "StdOut"@,
    ];
    reveal_strlit("JobID");
    reveal_strlit("Partition");
    reveal_strlit("JobName");
    reveal_strlit("User");
    reveal_strlit("State");
    reveal_strlit("AllocTRES");
    reveal_strlit("Elapsed");
    reveal_strlit("End");
    reveal_strlit("ExitCode");
    reveal_strlit("Start");
    reveal_strlit("WorkDir");
    reveal_strlit("StdOut");
    reveal_strlit("JobID,Partition,JobName,User,State,AllocTRES,Elapsed,End,ExitCode,Start,WorkDir,StdOut");
    reveal_with_fuel(text::joined, 13);
    assert forall|i: int| 0 <= i < names.len() implies !(#[trigger] names[i]).contains(',') by {
    }
    assert(text::joined(names, ',') =~= FORMAT@);
    text::lemma_joined_comes_apart_everywhere(names, ',');
}

/// A line with any other number of fields is no job.
pub proof fn lemma_a_line_needs_its_fields(fields: Seq<Seq<char>>, home: Option<Seq<char>>)
    requires
        1 <= fields.len() < 10 || fields.len() == 11,
        forall|i: int| 0 <= i < fields.len() ==> !(#[trigger] fields[i]).contains('|'),
    ensures
        parsed(text::joined(fields, '|'), home) is None,
{
    text::lemma_joined_comes_apart(fields, '|', 12);
}

/// One line is one job, or none.
pub proof fn lemma_one_line_is_one_job(line: Seq<char>, home: Option<Seq<char>>)
    ensures
        match parsed(line, home) {
            Some(row) => parsed_lines(seq![line], home) == seq![row],
            None => parsed_lines(seq![line], home) == Seq::<RunRow>::empty(),
        },
        parsed_lines(Seq::empty(), home) == Seq::<RunRow>::empty(),
{
    assert(seq![line].drop_last() == Seq::<Seq<char>>::empty());
    assert(seq![line].last() == line);
    assert(parsed_lines(seq![line].drop_last(), home) == Seq::<RunRow>::empty());
}

/// The state is what stands before who brought it about, or all there is where
/// nobody is named.
pub proof fn lemma_a_state_is_without_who(state: Seq<char>, who: Seq<char>)
    requires
        !state.contains(' '),
    ensures
        state_of(state) == state,
        state_of(state + " by "@ + who) == state,
{
    assert(" by "@.len() == 4 && " by "@[0] == ' ') by {
        reveal_strlit(" by ");
    }
    text::lemma_halves_at_the_first(state, " by "@, who);
    text::lemma_find_is_the_first(state, " by "@, 0);
    match text::find_from(state, " by "@, 0) {
        Some(i) => {
            assert(state.subrange(i, i + 4)[0] == state[i]);
        },
        None => {},
    }
}

/// In plain characters, a byte is a character.
proof fn lemma_bytes_are_characters(s: Seq<char>, n: int)
    requires
        vstd::utf8::is_ascii_chars(s),
        0 <= n <= s.len(),
    ensures
        from_byte(s, n) == Some(s.skip(n)),
        to_byte(s, n) == Some(s.take(n)),
{
    let bytes = vstd::utf8::encode_utf8(s);
    let front = vstd::utf8::encode_utf8(s.take(n));
    let back = vstd::utf8::encode_utf8(s.skip(n));
    vstd::utf8::is_ascii_chars_encode_utf8(s);
    vstd::utf8::is_ascii_chars_encode_utf8(s.take(n));
    vstd::utf8::is_ascii_chars_encode_utf8(s.skip(n));
    vstd::utf8::encode_utf8_valid_utf8(s);
    vstd::utf8::is_char_boundary_start_end_of_seq(bytes);
    if n < s.len() {
        vstd::utf8::is_char_boundary_iff_not_is_continuation_byte(bytes, n);
        let b = bytes[n];
        assert(b == s[n] as u8);
        assert(b < 128);
        assert(!vstd::utf8::is_continuation_byte(b)) by {
            vstd::utf8::utf8_byte_ranges_bitwise(b);
        }
    }
    assert(bytes.subrange(n, bytes.len() as int) =~= back);
    assert(bytes.subrange(0, n) =~= front);
    vstd::utf8::encode_utf8_decode_utf8(s.take(n));
    vstd::utf8::encode_utf8_decode_utf8(s.skip(n));
}

/// A timestamp loses its year, which is five characters with its dash, and its
/// seconds, and its `T` becomes a blank. What has no `T` is left as it is.
pub proof fn lemma_a_time_loses_its_year_and_seconds(
    year: Seq<char>,
    day: Seq<char>,
    minute: Seq<char>,
    seconds: Seq<char>,
)
    requires
        year.len() == 5,
        minute.len() == 5,
        vstd::utf8::is_ascii_chars(year),
        vstd::utf8::is_ascii_chars(day),
        vstd::utf8::is_ascii_chars(minute),
        vstd::utf8::is_ascii_chars(seconds),
        !year.contains('T'),
        !day.contains('T'),
    ensures
        short_time_of(year + day + seq!['T'] + minute + seconds) == day + seq![' '] + minute,
{
    let date = year + day;
    let time = minute + seconds;
    let stamp = year + day + seq!['T'] + minute + seconds;
    assert(stamp == date.push('T') + time);
    assert(!date.contains('T')) by {
        if date.contains('T') {
            let i = choose|i: int| 0 <= i < date.len() && date[i] == 'T';
            if i < 5 {
                assert(year[i] == 'T');
            } else {
                assert(day[i - 5] == 'T');
            }
        }
    }
    text::lemma_halves_of_a_join(date, 'T', time);
    assert(vstd::utf8::is_ascii_chars(date));
    assert(vstd::utf8::is_ascii_chars(time));
    lemma_bytes_are_characters(date, 5);
    lemma_bytes_are_characters(time, 5);
    assert(date.skip(5) == day);
    assert(time.take(5) == minute);
}

/// What is no timestamp passes through.
pub proof fn lemma_other_times_pass_through(stamp: Seq<char>)
    requires
        !stamp.contains('T'),
    ensures
        short_time_of(stamp) == stamp,
{
    text::lemma_halves_rejoin(stamp, 'T');
    match text::halves(stamp, 'T') {
        Some((before, after)) => {
            assert(stamp[before.len() as int] == 'T');
        },
        None => {},
    }
}

/// The GPUs that are billed are as many as the column shows.
pub proof fn lemma_the_gpus_billed_are_those_shown(tres: Seq<char>, n: nat)
    requires
        n <= u32::MAX,
        tres::value_of(tres, "gres/gpu"@) == Some(text::decimal_of(n)),
    ensures
        gpu_count_of(tres) == n,
        tres::resource_of(tres, "gres/gpu"@) == text::decimal_of(n),
{
    text::lemma_numbers_read_back(n, u32::MAX as nat);
}

/// A shorter clock counts minutes and seconds, or seconds alone.
pub proof fn lemma_a_short_clock_adds_up(minutes: Seq<char>, seconds: Seq<char>)
    requires
        is_number(minutes),
        is_number(seconds),
        text::digits_value(minutes) * 60 + text::digits_value(seconds) <= u64::MAX,
    ensures
        runtime_of(text::joined(seq![minutes, seconds], ':')) == text::digits_value(minutes) * 60
            + text::digits_value(seconds),
        runtime_of(seconds) == text::digits_value(seconds),
{
    lemma_number_reads(minutes);
    lemma_number_reads(seconds);
    let parts = seq![minutes, seconds];
    let clock = text::joined(parts, ':');
    text::lemma_joined_comes_apart_everywhere(parts, ':');
    assert(parts.drop_last() == seq![minutes]);
    assert(clock == minutes.push(':') + seconds) by {
        reveal_with_fuel(text::joined, 3);
    }
    assert(!clock.contains('-')) by {
        if clock.contains('-') {
            let i = choose|i: int| 0 <= i < clock.len() && clock[i] == '-';
            if i < minutes.len() {
                assert(minutes[i] == '-');
            } else if i > minutes.len() {
                assert(seconds[i - minutes.len() - 1] == '-');
            }
        }
    }
    lemma_no_days(clock);
    lemma_no_days(seconds);
    assert(clock_part(parts, 1) == text::digits_value(seconds));
    assert(clock_part(parts, 2) == text::digits_value(minutes));
    let alone = seq![seconds];
    text::lemma_joined_comes_apart_everywhere(alone, ':');
    assert(text::joined(alone, ':') == seconds);
    assert(clock_part(alone, 1) == text::digits_value(seconds));
}

/// A clock without a dash has no days.
proof fn lemma_no_days(clock: Seq<char>)
    requires
        !clock.contains('-'),
    ensures
        days_and_clock(clock) == (0nat, clock),
{
    text::lemma_halves_rejoin(clock, '-');
    match text::halves(clock, '-') {
        Some((before, after)) => {
            assert(clock[before.len() as int] == '-');
        },
        None => {},
    }
}

/// What spells no number counts for nothing, and does not take the rest with
/// it.
pub proof fn lemma_what_is_no_number_counts_nothing(elapsed: Seq<char>)
    requires
        forall|i: int| 0 <= i < elapsed.len() ==> !text::is_digit(#[trigger] elapsed[i]),
    ensures
        runtime_of(elapsed) == 0,
{
    let (days, clock) = days_and_clock(elapsed);
    text::lemma_halves_rejoin(elapsed, '-');
    match text::halves(elapsed, '-') {
        Some((before, after)) => {
            assert forall|i: int| 0 <= i < before.len() implies !text::is_digit(
                #[trigger] before[i],
            ) by {
                assert(before[i] == elapsed[i]);
            }
            assert forall|i: int| 0 <= i < after.len() implies !text::is_digit(
                #[trigger] after[i],
            ) by {
                assert(after[i] == elapsed[before.len() + 1 + i]);
            }
            lemma_no_digits_no_number(before, u64::MAX as nat);
        },
        None => {},
    }
    let parts = text::pieces(clock, ':');
    lemma_pieces_hold_no_digits(clock, ':');
    assert forall|back: int| 1 <= back <= 3 implies #[trigger] clock_part(parts, back) == 0 by {
        if back <= parts.len() {
            lemma_no_digits_no_number(parts[parts.len() - back], u64::MAX as nat);
        }
    }
    assert(clock_part(parts, 1) == 0 && clock_part(parts, 2) == 0 && clock_part(parts, 3) == 0);
}

/// Where there are no digits, there is no number.
proof fn lemma_no_digits_no_number(s: Seq<char>, max: nat)
    requires
        forall|i: int| 0 <= i < s.len() ==> !text::is_digit(#[trigger] s[i]),
    ensures
        number_or_zero(s, max) == 0,
{
    if s.len() > 0 && s[0] == '+' {
        if s.len() > 1 {
            assert(s.drop_first()[0] == s[1]);
        }
    }
}

/// The pieces of a text hold nothing that the text does not.
proof fn lemma_pieces_hold_no_digits(s: Seq<char>, c: char)
    requires
        forall|i: int| 0 <= i < s.len() ==> !text::is_digit(#[trigger] s[i]),
    ensures
        forall|p: int, i: int|
            0 <= p < text::pieces(s, c).len() && 0 <= i < text::pieces(s, c)[p].len()
                ==> !text::is_digit(#[trigger] text::pieces(s, c)[p][i]),
    decreases s.len(),
{
    let all = text::pieces(s, c);
    if s.len() > 0 {
        let shorter = s.drop_last();
        let before = text::pieces(shorter, c);
        assert forall|i: int| 0 <= i < shorter.len() implies !text::is_digit(
            #[trigger] shorter[i],
        ) by {
            assert(shorter[i] == s[i]);
        }
        lemma_pieces_hold_no_digits(shorter, c);
        text::lemma_pieces_rejoin(shorter, c);
        assert forall|p: int, i: int| 0 <= p < all.len() && 0 <= i < all[p].len()
            implies !text::is_digit(#[trigger] all[p][i]) by {
            if s.last() == c {
                if p < before.len() {
                    assert(all[p] == before[p]);
                    assert(!text::is_digit(before[p][i]));
                }
            } else if p < before.len() - 1 {
                assert(all[p] == before[p]);
                assert(!text::is_digit(before[p][i]));
            } else if i < before.last().len() {
                assert(all[p][i] == before[p][i]);
            } else {
                assert(all[p][i] == s[s.len() - 1]);
            }
        }
    }
}

/// A time that no counter of seconds holds counts for nothing.
pub proof fn lemma_endless_time_counts_nothing(days: Seq<char>, clock: Seq<char>)
    requires
        is_number(days),
        text::digits_value(days) <= u64::MAX,
        text::digits_value(days) * 86_400 > u64::MAX,
    ensures
        runtime_of(days.push('-') + clock) == 0,
{
    lemma_number_reads(days);
    text::lemma_halves_of_a_join(days, '-', clock);
}

/// What is asked for is whole jobs without a heading, the last thirty days of
/// them, in the fields the columns are read from.
pub proof fn lemma_what_is_asked_for()
    ensures
        arguments_of().contains("--parsable2"@),
        arguments_of().contains("--noheader"@),
        arguments_of().contains("--allocations"@),
        arguments_of().contains("--starttime=now-30days"@),
        arguments_of().contains("--format="@ + FORMAT@),
{
    let all = arguments_of();
    reveal_strlit("--starttime=");
    reveal_strlit("now-30days");
    reveal_strlit("--starttime=now-30days");
    assert("--starttime="@ + WINDOW@ =~= "--starttime=now-30days"@);
    assert(all[0] == "--parsable2"@ && all[1] == "--noheader"@ && all[2] == "--allocations"@
        && all[3] == "--starttime=now-30days"@ && all[4] == "--format="@ + FORMAT@);
}

/// Where nobody is named, the state is all there is; where somebody is, it is
/// what stands in front of the first ` by `.
pub proof fn lemma_a_state_ends_where_who_begins(state: Seq<char>)
    ensures
        (forall|i: int| 0 <= i ==> !text::occurs(state, " by "@, i)) ==> state_of(state) == state,
        (exists|i: int| 0 <= i && text::occurs(state, " by "@, i)) ==> text::occurs(
            state,
            " by "@,
            state_of(state).len() as int,
        ) && state_of(state) == state.take(state_of(state).len() as int) && forall|i: int|
            0 <= i < state_of(state).len() ==> !text::occurs(state, " by "@, i),
{
    text::lemma_find_is_the_first(state, " by "@, 0);
}

/// A part of a clock that is a number counts as that number, and one that is
/// not counts as nothing and leaves the others alone.
pub proof fn lemma_each_part_of_a_clock_counts(
    days: Seq<char>,
    hours: Seq<char>,
    minutes: Seq<char>,
    seconds: Seq<char>,
)
    requires
        !days.contains('-'),
        !hours.contains('-') && !hours.contains(':'),
        !minutes.contains('-') && !minutes.contains(':'),
        !seconds.contains('-') && !seconds.contains(':'),
    ensures
        ({
            let clock = text::joined(seq![hours, minutes, seconds], ':');
            let counted = counted_part(hours) * 3600 + counted_part(minutes) * 60 + counted_part(
                seconds,
            );
            let whole = counted_part(days) * 86_400 + counted;
            &&& counted <= u64::MAX ==> runtime_of(clock) == counted
            &&& counted > u64::MAX ==> runtime_of(clock) == 0
            &&& whole <= u64::MAX ==> runtime_of(days.push('-') + clock) == whole
            &&& whole > u64::MAX ==> runtime_of(days.push('-') + clock) == 0
        }),
{
    let parts = seq![hours, minutes, seconds];
    let clock = text::joined(parts, ':');
    text::lemma_joined_comes_apart_everywhere(parts, ':');
    text::lemma_halves_of_a_join(days, '-', clock);
    assert(parts.drop_last() == seq![hours, minutes]);
    assert(parts.drop_last().drop_last() == seq![hours]);
    assert(clock == hours.push(':') + minutes + seq![':'] + seconds) by {
        reveal_with_fuel(text::joined, 4);
    }
    assert(!clock.contains('-')) by {
        if clock.contains('-') {
            let i = choose|i: int| 0 <= i < clock.len() && clock[i] == '-';
            let h = hours.len();
            let m = minutes.len();
            if i < h {
                assert(hours[i] == '-');
            } else if h < i < h + 1 + m {
                assert(minutes[i - h - 1] == '-');
            } else if i > h + 1 + m {
                assert(seconds[i - h - m - 2] == '-');
            }
        }
    }
    lemma_no_days(clock);
    assert(clock_part(parts, 1) == counted_part(seconds));
    assert(clock_part(parts, 2) == counted_part(minutes));
    assert(clock_part(parts, 3) == counted_part(hours));
}

/// What a part of a clock counts as.
pub open spec fn counted_part(part: Seq<char>) -> nat {
    if text::unsigned(part, u64::MAX as nat) is Some {
        text::unsigned(part, u64::MAX as nat)->0
    } else {
        0
    }
}

/// A resource list whose GPUs are no number bills none.
pub proof fn lemma_gpus_that_are_no_number_are_none(tres: Seq<char>)
    requires
        tres::value_of(tres, "gres/gpu"@) matches Some(gpus) ==> text::unsigned(
            gpus,
            u32::MAX as nat,
        ) is None,
    ensures
        gpu_count_of(tres) == 0,
{
}

/// A byte beyond the end starts no character.
proof fn lemma_no_character_beyond_the_end(bytes: Seq<u8>, n: int)
    requires
        vstd::utf8::valid_utf8(bytes),
        n > bytes.len(),
    ensures
        !vstd::utf8::is_char_boundary(bytes, n),
    decreases bytes.len(),
{
    if bytes.len() > 0 {
        lemma_no_character_beyond_the_end(
            vstd::utf8::pop_first_scalar(bytes),
            n - vstd::utf8::length_of_first_scalar(bytes),
        );
    }
}

/// What has a `T` but not the room for a year in front of it, or for an hour and
/// a minute behind it, is no timestamp and passes through.
pub proof fn lemma_too_short_a_time_passes_through(date: Seq<char>, time: Seq<char>)
    requires
        vstd::utf8::is_ascii_chars(date),
        vstd::utf8::is_ascii_chars(time),
        !date.contains('T'),
        date.len() < 5 || time.len() < 5,
    ensures
        short_time_of(date.push('T') + time) == date.push('T') + time,
{
    text::lemma_halves_of_a_join(date, 'T', time);
    vstd::utf8::encode_utf8_valid_utf8(date);
    vstd::utf8::encode_utf8_valid_utf8(time);
    vstd::utf8::is_ascii_chars_encode_utf8(date);
    vstd::utf8::is_ascii_chars_encode_utf8(time);
    if date.len() < 5 {
        lemma_no_character_beyond_the_end(vstd::utf8::encode_utf8(date), 5);
    } else {
        lemma_no_character_beyond_the_end(vstd::utf8::encode_utf8(time), 5);
    }
}

/// The newest job is listed first: whatever the last line of a listing that
/// holds a job says is in the first row, and what the first one says in the
/// last.
pub proof fn lemma_the_newest_job_is_listed_first(
    listing: &str,
    home: Option<&str>,
    listed: Vec<Run>,
    i: int,
)
    requires
        call_ensures(read, (listing, home), listed),
        0 <= i < listed@.len(),
    ensures
        ({
            let jobs = parsed_lines(text::lines_of(listing@), logfile::view_of(home));
            listed@.len() == jobs.len() && listed@[i]@ == jobs[jobs.len() - 1 - i]
        }),
{
    let jobs = parsed_lines(text::lines_of(listing@), logfile::view_of(home));
    assert(rows(listed@) == jobs.reverse());
    assert(rows(listed@).len() == listed@.len());
    assert(rows(listed@)[i] == listed@[i]@);
}

/// A listing is read when the command succeeded, and what went wrong is told
/// when it did not.
pub proof fn lemma_a_listing_is_read_or_what_went_wrong_told(
    finished: &Finished,
    home: Option<&str>,
    fetched: Result<Vec<Run>, String>,
)
    requires
        call_ensures(self::fetched, (finished, home), fetched),
    ensures
        fetched is Ok <==> finished.success,
        fetched matches Ok(runs) ==> rows(runs@) == parsed_lines(
            text::lines_of(text::utf8_lossy(finished.stdout@)),
            logfile::view_of(home),
        ).reverse(),
        fetched matches Err(said) ==> text::begins(said@, "sacct"@ + " exited with "@),
{
    if let Err(said) = fetched {
        let front = "sacct"@ + " exited with "@;
        assert(said@.take(front.len() as int) =~= front);
    }
}

/// A job that was read from a line has in each of its own fields what the line
/// has in the field asked for it.
pub proof fn lemma_a_job_holds_what_its_line_says(
    line: &str,
    home: Option<&str>,
    fields: Seq<Seq<char>>,
    read: Option<Run>,
)
    requires
        call_ensures(Run::parse, (line, home), read),
        fields.len() == 10 || fields.len() == 12,
        forall|i: int| 0 <= i < fields.len() && i < 11 ==> !(#[trigger] fields[i]).contains('|'),
        line@ == text::joined(fields, '|'),
    ensures
        read matches Some(run) && {
            &&& run.id@ == text::trimmed(fields[0])
            &&& run.partition@ == text::trimmed(fields[1])
            &&& run.name@ == text::trimmed(fields[2])
            &&& run.user@ == text::trimmed(fields[3])
            &&& run.state@ == state_of(text::trimmed(fields[4]))
            &&& run.cpus@ == tres::resource_of(fields[5], "cpu"@)
            &&& run.gpus@ == tres::resource_of(fields[5], "gres/gpu"@)
            &&& run.mem@ == tres::memory_of(fields[5])
            &&& run.elapsed@ == text::trimmed(fields[6])
            &&& run.end@ == short_time_of(text::trimmed(fields[7]))
            &&& run.exit@ == text::trimmed(fields[8])
            &&& run.start == moment::moment_of(text::trimmed(fields[9]))
            &&& run.runtime == runtime_of(run.elapsed@)
            &&& run.gpu_count == gpu_count_of(fields[5])
            &&& fields.len() == 10 ==> run.log@ == seq!['-']
            &&& fields.len() == 12 ==> run.log@ == logfile::log_of(
                fields[11],
                fields[10],
                logfile::Facts { id: run.id@, name: run.name@, user: run.user@ },
                logfile::view_of(home),
            )
        },
{
    lemma_every_column_is_its_field(fields, logfile::view_of(home));
}

} // verus!
