//! The queue: what `squeue` reports.

use vstd::prelude::*;

use crate::command::Finished;
use crate::logfile;
use crate::poller::Poller;
use crate::text;
use crate::tres;

verus! {

/// The squeue fields we ask for, in the long `--Format` spelling: the short
/// `%b` and `%m` report GPUs and memory per node, while `tres-alloc` reports
/// the totals that sacct also reports. Each `:|` is a field width of "as wide
/// as needed" plus a separator.
///
/// Mostly the order the table renders them in. `WorkDir` and `StdOut` are the
/// exception: they feed one column between them, and they sit ahead of
/// `Reason` so that the free-text field is still the last one, and can still
/// keep any separator of its own.
pub const FORMAT: &'static str =
    "JobID:|,Partition:|,Name:|,UserName:|,State:|,tres-alloc:|,TimeUsed:|,NumNodes:|,NodeList:|,WorkDir:|,StdOut:|,Reason:";

/// How often to re-run `squeue`, in seconds. Cheap enough to sit at the front
/// of the refresh order, since the job list is what actually changes minute to
/// minute.
pub const INTERVAL: u64 = 1;

/// One row of `squeue` output.
pub struct Job {
    pub id: String,
    pub partition: String,
    pub name: String,
    pub user: String,
    pub state: String,
    pub cpus: String,
    pub gpus: String,
    pub mem: String,
    pub time: String,
    pub nodes: String,
    pub reason: String,
    /// Where the job writes its output, or `-` for one that writes no file.
    pub log: String,
}

/// The same row as a specification speaks of it.
pub struct JobRow {
    pub id: Seq<char>,
    pub partition: Seq<char>,
    pub name: Seq<char>,
    pub user: Seq<char>,
    pub state: Seq<char>,
    pub cpus: Seq<char>,
    pub gpus: Seq<char>,
    pub mem: Seq<char>,
    pub time: Seq<char>,
    pub nodes: Seq<char>,
    pub reason: Seq<char>,
    pub log: Seq<char>,
}

impl View for Job {
    type V = JobRow;

    open spec fn view(&self) -> JobRow {
        JobRow {
            id: self.id@,
            partition: self.partition@,
            name: self.name@,
            user: self.user@,
            state: self.state@,
            cpus: self.cpus@,
            gpus: self.gpus@,
            mem: self.mem@,
            time: self.time@,
            nodes: self.nodes@,
            reason: self.reason@,
            log: self.log@,
        }
    }
}

/// What the fields of one row say. Where a job is running, or in brackets why
/// it is not, is one column between them.
pub open spec fn row_of(fields: Seq<Seq<char>>, home: Option<Seq<char>>) -> JobRow {
    let job = logfile::Facts {
        id: text::trimmed(fields[0]),
        name: text::trimmed(fields[2]),
        user: text::trimmed(fields[3]),
    };
    let nodelist = text::trimmed(fields[8]);
    JobRow {
        id: job.id,
        partition: text::trimmed(fields[1]),
        name: job.name,
        user: job.user,
        state: text::trimmed(fields[4]),
        cpus: tres::resource_of(fields[5], "cpu"@),
        gpus: tres::resource_of(fields[5], "gres/gpu"@),
        mem: tres::memory_of(fields[5]),
        time: text::trimmed(fields[6]),
        nodes: text::trimmed(fields[7]),
        reason: if nodelist.len() == 0 {
            seq!['('] + text::trimmed(fields[11]) + seq![')']
        } else {
            nodelist
        },
        log: logfile::log_of(fields[10], fields[9], job, home),
    }
}

/// The row a line holds, or nothing for a line that does not have every field.
pub open spec fn parsed(line: Seq<char>, home: Option<Seq<char>>) -> Option<JobRow> {
    let fields = text::fields(line, '|', 12);
    if fields.len() == 12 {
        Some(row_of(fields, home))
    } else {
        None
    }
}

/// The rows of every line that holds one, in the order of the lines.
pub open spec fn parsed_lines(lines: Seq<Seq<char>>, home: Option<Seq<char>>) -> Seq<JobRow>
    decreases lines.len(),
{
    if lines.len() == 0 {
        Seq::empty()
    } else {
        let before = parsed_lines(lines.drop_last(), home);
        match parsed(lines.last(), home) {
            Some(row) => before.push(row),
            None => before,
        }
    }
}

/// A list of jobs as rows.
pub open spec fn rows(jobs: Seq<Job>) -> Seq<JobRow> {
    jobs.map_values(|job: Job| job@)
}

impl Job {
    /// Parse one `FORMAT` line. Returns `None` for a line that does not have
    /// every field, so one malformed row cannot take the whole refresh down.
    /// A log under `home` is written with a `~`.
    pub fn parse(line: &str, home: Option<&str>) -> (r: Option<Self>)
        ensures
            match r {
                Some(job) => parsed(line@, logfile::view_of(home)) == Some(job@),
                None => parsed(line@, logfile::view_of(home)) is None,
            },
    {
        // The limit keeps any '|' inside the trailing reason field.
        let fields = text::splitn(line, '|', 12);
        let ghost all = text::slices(fields@);
        assert(all.len() == fields@.len());
        if fields.len() != 12 {
            return None;
        }
        assert(forall|i: int| 0 <= i < 12 ==> #[trigger] all[i] == fields@[i]@);
        let job = logfile::Job {
            id: text::trim(fields[0]),
            name: text::trim(fields[2]),
            user: text::trim(fields[3]),
        };
        let nodelist = text::trim(fields[8]);
        let reason = if nodelist.is_empty() {
            let mut reason = String::new();
            reason.push('(');
            reason.append(text::trim(fields[11]));
            reason.push(')');
            assert(reason@ == seq!['('] + text::trimmed(all[11]) + seq![')']);
            reason
        } else {
            nodelist.to_string()
        };
        Some(
            Job {
                id: job.id.to_string(),
                partition: text::trim(fields[1]).to_string(),
                name: job.name.to_string(),
                user: job.user.to_string(),
                state: text::trim(fields[4]).to_string(),
                cpus: tres::resource(fields[5], "cpu"),
                gpus: tres::resource(fields[5], "gres/gpu"),
                mem: tres::memory(fields[5]),
                time: text::trim(fields[6]).to_string(),
                nodes: text::trim(fields[7]).to_string(),
                reason,
                log: logfile::log(fields[10], fields[9], &job, home),
            },
        )
    }
}

/// Every job a listing reports, in its order.
pub fn read(listing: &str, home: Option<&str>) -> (r: Vec<Job>)
    ensures
        rows(r@) == parsed_lines(text::lines_of(listing@), logfile::view_of(home)),
{
    let lines = text::lines(listing);
    let ghost all = text::views(lines@);
    let mut r: Vec<Job> = Vec::new();
    let mut i: usize = 0;
    assert(rows(r@) =~= parsed_lines(all.take(0), logfile::view_of(home)));
    while i < lines.len()
        invariant
            i <= lines.len(),
            all == text::views(lines@),
            rows(r@) == parsed_lines(all.take(i as int), logfile::view_of(home)),
        decreases lines.len() - i,
    {
        assert(all.take(i + 1).drop_last() == all.take(i as int));
        assert(all.take(i + 1).last() == lines@[i as int]@);
        match Job::parse(lines[i].as_str(), home) {
            Some(job) => {
                let ghost gone = r@;
                r.push(job);
                assert(rows(r@) == rows(gone).push(job@));
            },
            None => {},
        }
        i += 1;
    }
    assert(all.take(i as int) == all);
    r
}

/// What to run `squeue` with. With `only_me`, asks for just the current user's
/// jobs.
pub open spec fn arguments_of(only_me: bool) -> Seq<Seq<char>> {
    let all = seq!["--noheader"@, "--Format="@ + FORMAT@];
    if only_me {
        all.push("--me"@)
    } else {
        all
    }
}

/// What to run `squeue` with. With `only_me`, asks for just the current user's
/// jobs.
pub fn arguments(only_me: bool) -> (r: Vec<String>)
    ensures
        text::views(r@) == arguments_of(only_me),
{
    let mut r: Vec<String> = Vec::new();
    r.push("--noheader".to_string());
    let mut format = "--Format=".to_string();
    format.append(FORMAT);
    r.push(format);
    if only_me {
        r.push("--me".to_string());
    }
    assert(text::views(r@) =~= arguments_of(only_me));
    r
}

/// Every job one run of `squeue` reported, or why there are none to read.
pub fn fetched(finished: &Finished, home: Option<&str>) -> (r: Result<Vec<Job>, String>)
    ensures
        match r {
            Ok(jobs) => finished.outcome("squeue"@) matches Ok(listing) && rows(jobs@)
                == parsed_lines(text::lines_of(listing), logfile::view_of(home)),
            Err(said) => finished.outcome("squeue"@) == Err::<Seq<char>, Seq<char>>(said@),
        },
{
    match finished.output("squeue") {
        Ok(listing) => Ok(read(listing.as_str(), home)),
        Err(said) => Err(said),
    }
}

/// Start polling `squeue` in the background. The request is the `--me` scope,
/// so a toggle takes effect on the next fetch and tags what comes back.
pub fn poll(only_me: bool) -> (r: Poller<bool, Vec<Job>>)
    ensures
        r.interval == INTERVAL,
        r.requests@ == seq![only_me],
        r.results@.len() == 0,
{
    Poller::spawn(INTERVAL, only_me)
}

/// Every line is read on its own: a listing in two parts holds what the parts
/// hold.
pub proof fn lemma_lines_are_read_apart(
    first: Seq<Seq<char>>,
    second: Seq<Seq<char>>,
    home: Option<Seq<char>>,
)
    ensures
        parsed_lines(first + second, home) == parsed_lines(first, home) + parsed_lines(
            second,
            home,
        ),
    decreases second.len(),
{
    if second.len() == 0 {
        assert(first + second == first);
        assert(parsed_lines(first, home) + Seq::empty() == parsed_lines(first, home));
    } else {
        lemma_lines_are_read_apart(first, second.drop_last(), home);
        assert((first + second).drop_last() == first + second.drop_last());
        assert(parsed_lines(first + second, home) =~= parsed_lines(first, home) + parsed_lines(
            second,
            home,
        ));
    }
}

/// One malformed row does not take the refresh down: the listing reads as it
/// would without it.
pub proof fn lemma_a_malformed_row_costs_only_itself(
    before: Seq<Seq<char>>,
    line: Seq<char>,
    after: Seq<Seq<char>>,
    home: Option<Seq<char>>,
)
    requires
        parsed(line, home) is None,
    ensures
        parsed_lines(before.push(line) + after, home) == parsed_lines(before + after, home),
{
    lemma_lines_are_read_apart(before.push(line), after, home);
    lemma_lines_are_read_apart(before, after, home);
    assert(before.push(line).drop_last() == before);
}

/// A row reads back as the fields it was made of, as long as none but the last
/// holds a separator. A separator in the reason is part of the reason.
pub proof fn lemma_a_row_reads_back(fields: Seq<Seq<char>>, home: Option<Seq<char>>)
    requires
        fields.len() == 12,
        forall|i: int| 0 <= i < 11 ==> !(#[trigger] fields[i]).contains('|'),
    ensures
        parsed(text::joined(fields, '|'), home) == Some(row_of(fields, home)),
{
    text::lemma_joined_comes_apart(fields, '|', 12);
}

/// Each column of a row is what the line says in the field that was asked for
/// it, without the white space around: the id is the first of them, then come
/// the partition, the name, the user, the state, the resources, the time used
/// and the number of nodes. A job that has nodes shows them in the reason
/// column, and one that has none shows in brackets why.
pub proof fn lemma_every_column_is_its_field(fields: Seq<Seq<char>>, home: Option<Seq<char>>)
    requires
        fields.len() == 12,
        forall|i: int| 0 <= i < 11 ==> !(#[trigger] fields[i]).contains('|'),
    ensures
        parsed(text::joined(fields, '|'), home) matches Some(row) && {
            &&& row.id == text::trimmed(fields[0])
            &&& row.partition == text::trimmed(fields[1])
            &&& row.name == text::trimmed(fields[2])
            &&& row.user == text::trimmed(fields[3])
            &&& row.state == text::trimmed(fields[4])
            &&& row.cpus == tres::resource_of(fields[5], "cpu"@)
            &&& row.gpus == tres::resource_of(fields[5], "gres/gpu"@)
            &&& row.mem == tres::memory_of(fields[5])
            &&& row.time == text::trimmed(fields[6])
            &&& row.nodes == text::trimmed(fields[7])
            &&& text::trimmed(fields[8]).len() > 0 ==> row.reason == text::trimmed(fields[8])
            &&& text::trimmed(fields[8]).len() == 0 ==> row.reason == seq!['('] + text::trimmed(
                fields[11],
            ) + seq![')']
            &&& row.log == logfile::log_of(
                fields[10],
                fields[9],
                logfile::Facts { id: row.id, name: row.name, user: row.user },
                home,
            )
        },
{
    lemma_a_row_reads_back(fields, home);
}

/// The fields that are asked for are the ones the columns are read from, in
/// that order, each but the last with a separator behind it.
pub proof fn lemma_the_fields_asked_for()
    ensures
        text::pieces(FORMAT@, ',') == seq![
            "JobID:|"@,
            "Partition:|"@,
            "Name:|"@,
            "UserName:|"@,
            "State:|"@,
            "tres-alloc:|"@,
            "TimeUsed:|"@,
            "NumNodes:|"@,
            "NodeList:|"@,
            "WorkDir:|"@,
            "StdOut:|"@,
            "Reason:"@,
        ],
{
    let names = seq![
        "JobID:|"@,
        "Partition:|"@,
        "Name:|"@,
        "UserName:|"@,
        "State:|"@,
        "tres-alloc:|"@,
        "TimeUsed:|"@,
        "NumNodes:|"@,
        "NodeList:|"@,
        "WorkDir:|"@,
        "StdOut:|"@,
        "Reason:"@,
    ];
    reveal_strlit("JobID:|");
    reveal_strlit("Partition:|");
    reveal_strlit("Name:|");
    reveal_strlit("UserName:|");
    reveal_strlit("State:|");
    reveal_strlit("tres-alloc:|");
    reveal_strlit("TimeUsed:|");
    reveal_strlit("NumNodes:|");
    reveal_strlit("NodeList:|");
    reveal_strlit("WorkDir:|");
    reveal_strlit("StdOut:|");
    reveal_strlit("Reason:");
    reveal_strlit("JobID:|,Partition:|,Name:|,UserName:|,State:|,tres-alloc:|,TimeUsed:|,NumNodes:|,NodeList:|,WorkDir:|,StdOut:|,Reason:");
    reveal_with_fuel(text::joined, 13);
    assert forall|i: int| 0 <= i < names.len() implies !(#[trigger] names[i]).contains(',') by {
    }
    assert(text::joined(names, ',') =~= FORMAT@);
    text::lemma_joined_comes_apart_everywhere(names, ',');
}

/// A line with fewer fields is no job.
pub proof fn lemma_a_line_needs_its_fields(fields: Seq<Seq<char>>, home: Option<Seq<char>>)
    requires
        1 <= fields.len() < 12,
        forall|i: int| 0 <= i < fields.len() ==> !(#[trigger] fields[i]).contains('|'),
    ensures
        parsed(text::joined(fields, '|'), home) is None,
{
    text::lemma_joined_comes_apart(fields, '|', 12);
}

/// One line is one job, or none.
pub proof fn lemma_one_line_is_one_job(line: Seq<char>, home: Option<Seq<char>>)
    ensures
        match parsed(line, home) {
            Some(row) => parsed_lines(seq![line], home) == seq![row],
            None => parsed_lines(seq![line], home) == Seq::<JobRow>::empty(),
        },
        parsed_lines(Seq::empty(), home) == Seq::<JobRow>::empty(),
{
    assert(seq![line].drop_last() == Seq::<Seq<char>>::empty());
    assert(seq![line].last() == line);
    assert(parsed_lines(seq![line].drop_last(), home) == Seq::<JobRow>::empty());
}

/// The current user's jobs are asked for with one more word than everyone's,
/// and only that word says whose they are.
pub proof fn lemma_one_word_says_whose()
    ensures
        arguments_of(true) == arguments_of(false).push("--me"@),
        !arguments_of(false).contains("--me"@),
        arguments_of(false).contains("--noheader"@),
        arguments_of(false).contains("--Format="@ + FORMAT@),
{
    reveal_strlit("--me");
    reveal_strlit("--noheader");
    reveal_strlit("--Format=");
    let all = arguments_of(false);
    assert(all[0] == "--noheader"@ && all[1] == "--Format="@ + FORMAT@);
    assert("--me"@[2] == 'm' && all[0][2] == 'n' && all[1][2] == 'F');
    if all.contains("--me"@) {
        let i = choose|i: int| 0 <= i < all.len() && all[i] == "--me"@;
        assert(i == 0 || i == 1);
    }
}

/// The jobs are listed as they were reported, first to last, every one of them.
pub proof fn lemma_jobs_are_listed_as_reported(
    listing: &str,
    home: Option<&str>,
    listed: Vec<Job>,
    i: int,
)
    requires
        call_ensures(read, (listing, home), listed),
        0 <= i < listed@.len(),
    ensures
        ({
            let jobs = parsed_lines(text::lines_of(listing@), logfile::view_of(home));
            listed@.len() == jobs.len() && listed@[i]@ == jobs[i]
        }),
{
    assert(rows(listed@).len() == listed@.len());
    assert(rows(listed@)[i] == listed@[i]@);
}

/// A listing is read when the command succeeded, and what went wrong is told
/// when it did not.
pub proof fn lemma_a_listing_is_read_or_what_went_wrong_told(
    finished: &Finished,
    home: Option<&str>,
    fetched: Result<Vec<Job>, String>,
)
    requires
        call_ensures(self::fetched, (finished, home), fetched),
    ensures
        fetched is Ok <==> finished.success,
        fetched matches Ok(jobs) ==> rows(jobs@) == parsed_lines(
            text::lines_of(text::utf8_lossy(finished.stdout@)),
            logfile::view_of(home),
        ),
        fetched matches Err(said) ==> text::begins(said@, "squeue"@ + " exited with "@),
{
    if let Err(said) = fetched {
        let front = "squeue"@ + " exited with "@;
        assert(said@.take(front.len() as int) =~= front);
    }
}

/// A job that was read from a line has in each of its own fields what the line
/// has in the field asked for it.
pub proof fn lemma_a_job_holds_what_its_line_says(
    line: &str,
    home: Option<&str>,
    fields: Seq<Seq<char>>,
    read: Option<Job>,
)
    requires
        call_ensures(Job::parse, (line, home), read),
        fields.len() == 12,
        forall|i: int| 0 <= i < 11 ==> !(#[trigger] fields[i]).contains('|'),
        line@ == text::joined(fields, '|'),
    ensures
        read matches Some(job) && {
            &&& job.id@ == text::trimmed(fields[0])
            &&& job.partition@ == text::trimmed(fields[1])
            &&& job.name@ == text::trimmed(fields[2])
            &&& job.user@ == text::trimmed(fields[3])
            &&& job.state@ == text::trimmed(fields[4])
            &&& job.cpus@ == tres::resource_of(fields[5], "cpu"@)
            &&& job.gpus@ == tres::resource_of(fields[5], "gres/gpu"@)
            &&& job.mem@ == tres::memory_of(fields[5])
            &&& job.time@ == text::trimmed(fields[6])
            &&& job.nodes@ == text::trimmed(fields[7])
            &&& text::trimmed(fields[8]).len() > 0 ==> job.reason@ == text::trimmed(fields[8])
            &&& text::trimmed(fields[8]).len() == 0 ==> job.reason@ == seq!['('] + text::trimmed(
                fields[11],
            ) + seq![')']
            &&& job.log@ == logfile::log_of(
                fields[10],
                fields[9],
                logfile::Facts { id: job.id@, name: job.name@, user: job.user@ },
                logfile::view_of(home),
            )
        },
{
    lemma_every_column_is_its_field(fields, logfile::view_of(home));
}

} // verus!
