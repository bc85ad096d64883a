//! Where a job writes its output.
//!
//! Slurm keeps the `--output` argument as the user wrote it: a filename
//! pattern like `slurm-%j.out`, read relative to the job's working directory.
//! Neither `squeue` nor `sacct` expands one in the text output we parse — only
//! `sacct --json` does — so the substitution happens here instead, against the
//! two fields we ask both commands for anyway.

use vstd::prelude::*;

use crate::text;
use crate::tres;

verus! {

/// The job facts a pattern can name.
pub struct Job<'a> {
    pub id: &'a str,
    pub name: &'a str,
    pub user: &'a str,
}

/// The same facts as a specification speaks of them.
pub struct Facts {
    pub id: Seq<char>,
    pub name: Seq<char>,
    pub user: Seq<char>,
}

impl<'a> View for Job<'a> {
    type V = Facts;

    open spec fn view(&self) -> Facts {
        Facts { id: self.id@, name: self.name@, user: self.user@ }
    }
}

/// The widest a value is padded to.
pub const WIDEST: u64 = 65535;

/// The array master and the task of a job id. An array task is reported as
/// `masterid_taskid`; a plain job is its own master, and its task is zero.
pub open spec fn array_and_task(id: Seq<char>) -> (Seq<char>, Seq<char>) {
    match text::halves(id, '_') {
        Some(pair) => pair,
        None => (id, seq!['0']),
    }
}

/// What one pattern letter stands for, or nothing for one that has no answer.
pub open spec fn substituted(key: char, job: Facts) -> Option<Seq<char>> {
    if key == '%' {
        Some(seq!['%'])
    } else if key == 'A' {
        Some(array_and_task(job.id).0)
    } else if key == 'a' {
        Some(array_and_task(job.id).1)
    } else if key == 'j' || key == 'J' {
        Some(job.id)
    } else if key == 'x' {
        Some(job.name)
    } else if key == 'u' {
        Some(job.user)
    } else if key == 'n' || key == 's' || key == 't' {
        Some(seq!['0'])
    } else {
        None
    }
}

/// `n` zeroes.
pub open spec fn zeroes(n: nat) -> Seq<char> {
    Seq::new(n, |i: int| '0')
}

/// A value zero-padded on the left to the width a pattern asked for. No width,
/// or one too large to be a width, leaves the value alone.
pub open spec fn padded(value: Seq<char>, width: Seq<char>) -> Seq<char> {
    match text::unsigned(width, WIDEST as nat) {
        Some(n) => if n > value.len() {
            zeroes((n - value.len()) as nat) + value
        } else {
            value
        },
        None => value,
    }
}

/// How many digits `s` starts with.
pub open spec fn leading_digits(s: Seq<char>) -> nat
    decreases s.len(),
{
    if s.len() > 0 && text::is_digit(s[0]) {
        1 + leading_digits(s.drop_first())
    } else {
        0
    }
}

/// A pattern with what each `%`, width and letter stands for put in its place.
/// A letter without an answer stays as it was written, and so does a `%` that
/// no letter follows.
pub open spec fn expanded(pattern: Seq<char>, job: Facts) -> Seq<char>
    decreases pattern.len(),
{
    if pattern.len() == 0 {
        pattern
    } else if pattern[0] != '%' {
        seq![pattern[0]] + expanded(pattern.drop_first(), job)
    } else {
        let n = leading_digits(pattern.drop_first()) as int;
        if 1 + n >= pattern.len() {
            pattern
        } else {
            let value = match substituted(pattern[1 + n], job) {
                Some(value) => padded(value, pattern.subrange(1, 1 + n)),
                None => pattern.take(2 + n),
            };
            value + expanded(pattern.skip(2 + n), job)
        }
    }
}

/// A path under the home directory, with the directory written as `~`.
/// Nothing for a path that is somewhere else.
pub open spec fn under_home(path: Seq<char>, home: Seq<char>) -> Option<Seq<char>> {
    let home = text::without_trailing(home, '/');
    if home.len() == 0 || !text::begins(path, home) {
        None
    } else {
        let rest = path.skip(home.len() as int);
        if rest.len() == 0 || rest[0] == '/' {
            Some(seq!['~'] + rest)
        } else {
            None
        }
    }
}

/// A path the way you would say it, given the home directory if there is one.
pub open spec fn shortened(path: Seq<char>, home: Option<Seq<char>>) -> Seq<char> {
    match home {
        Some(home) => match under_home(path, home) {
            Some(short) => short,
            None => path,
        },
        None => path,
    }
}

/// Whether a path starts at the `~`.
pub open spec fn at_tilde(path: Seq<char>) -> bool {
    path.len() > 0 && path[0] == '~' && (path.len() == 1 || path[1] == '/')
}

/// The file that a path written with a `~` stands for, given the home directory
/// if there is one. Any other path stands for itself.
pub open spec fn full_of(path: Seq<char>, home: Option<Seq<char>>) -> Seq<char> {
    match home {
        Some(home) => if at_tilde(path) && text::without_trailing(home, '/').len() > 0 {
            text::without_trailing(home, '/') + path.skip(1)
        } else {
            path
        },
        None => path,
    }
}

/// The file an expanded pattern names, read relative to a working directory,
/// the root directory included. Without a directory to read it against, the
/// pattern is all there is to say.
pub open spec fn resolved(file: Seq<char>, workdir: Seq<char>) -> Seq<char> {
    if file.len() > 0 && file[0] == '/' {
        file
    } else if workdir.len() == 0 {
        file
    } else {
        text::without_trailing(workdir, '/') + seq!['/'] + file
    }
}

/// Where a job with this output pattern writes, or nothing for a job that
/// writes no file.
pub open spec fn path_of(
    pattern: Seq<char>,
    workdir: Seq<char>,
    job: Facts,
    home: Option<Seq<char>>,
) -> Option<Seq<char>> {
    let pattern = text::trimmed(pattern);
    if pattern.len() == 0 {
        None
    } else {
        Some(shortened(resolved(expanded(pattern, job), text::trimmed(workdir)), home))
    }
}

/// The view of an optional string slice.
pub open spec fn view_of(s: Option<&str>) -> Option<Seq<char>> {
    match s {
        Some(s) => Some(s@),
        None => None,
    }
}

/// Expand one output pattern against the job's working directory, writing a
/// path under `home` with a `~`.
///
/// `None` when the job writes no file at all: `srun` streams to the terminal
/// it was launched from and Slurm records nothing, while `sbatch` records even
/// its default as the pattern `slurm-%j.out`. So an empty field means there is
/// no log to point at, not that we failed to find one.
pub fn path(pattern: &str, workdir: &str, job: &Job<'_>, home: Option<&str>) -> (r: Option<String>)
    ensures
        match r {
            Some(path) => path_of(pattern@, workdir@, job@, view_of(home)) == Some(path@),
            None => path_of(pattern@, workdir@, job@, view_of(home)) is None,
        },
{
    let pattern = text::trim(pattern);
    if pattern.is_empty() {
        return None;
    }
    let file = expand(pattern, job);
    let workdir = text::trim(workdir);
    let absolute = file.as_str().unicode_len() > 0 && file.as_str().get_char(0) == '/';
    let full = if absolute || workdir.is_empty() {
        file
    } else {
        // The root directory is all slash, and still a directory.
        let directory = text::trim_end_matches(workdir, '/');
        let mut full = directory.to_string();
        full.push('/');
        full.append(file.as_str());
        assert(full@ == directory@ + seq!['/'] + file@);
        full
    };
    Some(shorten(full, home))
}

/// What the log column shows: where the job writes, or a `-` for a job that
/// writes no file.
pub open spec fn log_of(
    pattern: Seq<char>,
    workdir: Seq<char>,
    job: Facts,
    home: Option<Seq<char>>,
) -> Seq<char> {
    match path_of(pattern, workdir, job, home) {
        Some(path) => path,
        None => seq!['-'],
    }
}

/// What the log column shows.
pub fn log(pattern: &str, workdir: &str, job: &Job<'_>, home: Option<&str>) -> (r: String)
    ensures
        r@ == log_of(pattern@, workdir@, job@, view_of(home)),
{
    match path(pattern, workdir, job, home) {
        Some(path) => path,
        None => tres::dash(),
    }
}

/// Substitute the `%` patterns Slurm documents for output filenames. One it
/// does not know, or one we cannot answer, stays as it was written rather than
/// silently becoming part of a path that does not exist.
pub fn expand(pattern: &str, job: &Job<'_>) -> (r: String)
    ensures
        r@ == expanded(pattern@, job@),
{
    let cs = text::chars(pattern);
    let mut out = String::new();
    let mut i: usize = 0;
    assert(cs@.skip(0) == cs@);
    while i < cs.len()
        invariant
            i <= cs.len(),
            cs@ == pattern@,
            out@ + expanded(cs@.skip(i as int), job@) == expanded(cs@, job@),
        decreases cs.len() - i,
    {
        let ghost rest = cs@.skip(i as int);
        let ghost before = out@;
        if cs[i] != '%' {
            out.push(cs[i]);
            proof {
                assert(rest.drop_first() == cs@.skip(i + 1));
                assert(before + (seq![rest[0]] + expanded(rest.drop_first(), job@)) == before.push(
                    rest[0],
                ) + expanded(rest.drop_first(), job@));
            }
            i += 1;
        } else {
            // Slurm allows a width between the `%` and the letter, which
            // zero-pads the number that follows: `%4j` is `0123`.
            let mut k: usize = i + 1;
            assert(rest.drop_first() == cs@.skip(k as int));
            while k < cs.len() && text::digit(cs[k])
                invariant
                    i < k <= cs.len(),
                    rest == cs@.skip(i as int),
                    leading_digits(rest.drop_first()) == k - i - 1 + leading_digits(
                        cs@.skip(k as int),
                    ),
                decreases cs.len() - k,
            {
                assert(cs@.skip(k as int).drop_first() == cs@.skip(k + 1));
                k += 1;
            }
            assert(leading_digits(rest.drop_first()) == k - i - 1);
            if k == cs.len() {
                // A trailing `%`, with nothing after it to be a pattern.
                assert(pattern@.subrange(i as int, k as int) == rest);
                out.append(pattern.substring_char(i, k));
                return out;
            }
            let width = pattern.substring_char(i + 1, k);
            assert(width@ == rest.subrange(1, k - i));
            assert(rest.skip(k + 1 - i) == cs@.skip(k + 1));
            match substitute(cs[k], job) {
                Some(value) => {
                    let value = pad(value.as_str(), width);
                    out.append(value.as_str());
                },
                None => {
                    assert(pattern@.subrange(i as int, k + 1) == rest.take(k + 1 - i));
                    out.append(pattern.substring_char(i, k + 1));
                },
            }
            proof {
                let after = expanded(cs@.skip(k + 1), job@);
                let value = out@.skip(before.len() as int);
                assert(out@ == before + value);
                assert(before + (value + after) == out@ + after);
            }
            i = k + 1;
        }
    }
    assert(cs@.skip(i as int) == Seq::<char>::empty());
    assert(out@ + Seq::<char>::empty() == out@);
    out
}

/// What one pattern letter stands for, or `None` for one we cannot answer —
/// `%N` names the node the job landed on, which is not ours to know here.
pub fn substitute(key: char, job: &Job<'_>) -> (r: Option<String>)
    ensures
        match r {
            Some(value) => substituted(key, job@) == Some(value@),
            None => substituted(key, job@) is None,
        },
{
    if key == '%' {
        let mut r = String::new();
        r.push('%');
        assert(r@ == seq!['%']);
        Some(r)
    } else if key == 'A' {
        match text::split_once(job.id, '_') {
            Some((array, _)) => Some(array.to_string()),
            None => Some(job.id.to_string()),
        }
    } else if key == 'a' {
        match text::split_once(job.id, '_') {
            Some((_, task)) => Some(task.to_string()),
            None => Some(zero()),
        }
    } else if key == 'j' || key == 'J' {
        Some(job.id.to_string())
    } else if key == 'x' {
        Some(job.name.to_string())
    } else if key == 'u' {
        Some(job.user.to_string())
    } else if key == 'n' || key == 's' || key == 't' {
        // The batch script is the first task on the first node of step zero.
        Some(zero())
    } else {
        None
    }
}

/// A zero.
fn zero() -> (r: String)
    ensures
        r@ == seq!['0'],
{
    let mut r = String::new();
    r.push('0');
    assert(r@ == seq!['0']);
    r
}

/// Zero-pad to the width a pattern asked for. No width, or one too large to
/// be a width, leaves the value alone.
pub fn pad(value: &str, width: &str) -> (r: String)
    ensures
        r@ == padded(value@, width@),
{
    match text::parse_unsigned(width, WIDEST) {
        Some(n) => {
            let len = value.unicode_len();
            let mut r = String::new();
            let mut have: usize = len;
            while have < n as usize
                invariant
                    len == value@.len(),
                    n <= WIDEST,
                    len <= have,
                    have <= n || have == len,
                    r@ == zeroes((have - len) as nat),
                decreases n - have,
            {
                r.push('0');
                have += 1;
                assert(r@ == zeroes((have - len) as nat));
            }
            r.append(value);
            assert(r@ == padded(value@, width@));
            r
        },
        None => value.to_string(),
    }
}

/// Write a path under the home directory the way you would say it.
pub fn shorten(path: String, home: Option<&str>) -> (r: String)
    ensures
        r@ == shortened(path@, view_of(home)),
{
    match home {
        Some(home) => match under(path.as_str(), home) {
            Some(short) => short,
            None => path,
        },
        None => path,
    }
}

/// `/home/alice/logs/x.out` under `/home/alice` is `~/logs/x.out`. `None` when
/// the path is somewhere else — including `/home/alicia`, which shares a
/// prefix with the home directory without being inside it.
pub fn under(path: &str, home: &str) -> (r: Option<String>)
    ensures
        match r {
            Some(short) => under_home(path@, home@) == Some(short@),
            None => under_home(path@, home@) is None,
        },
{
    let home = text::trim_end_matches(home, '/');
    if home.is_empty() {
        return None;
    }
    match text::strip_prefix(path, home) {
        Some(rest) => {
            if rest.is_empty() || rest.get_char(0) == '/' {
                let mut short = String::new();
                short.push('~');
                short.append(rest);
                assert(short@ == seq!['~'] + rest@);
                Some(short)
            } else {
                None
            }
        },
        None => None,
    }
}

/// The file to open for a path the way you would say it: `~/logs/x.out` under
/// `/home/alice` is `/home/alice/logs/x.out`.
pub fn full(path: &str, home: Option<&str>) -> (r: String)
    ensures
        r@ == full_of(path@, view_of(home)),
{
    if let Some(home) = home {
        let home = text::trim_end_matches(home, '/');
        if !home.is_empty() {
            match text::strip_prefix(path, "~") {
                Some(rest) => {
                    proof {
                        reveal_strlit("~");
                        assert("~"@ =~= seq!['~']);
                        assert(path@[0] == path@.take(1)[0]);
                        assert(rest@.len() > 0 ==> rest@[0] == path@[1]);
                    }
                    if rest.is_empty() || rest.get_char(0) == '/' {
                        let mut full = home.to_string();
                        full.append(rest);
                        return full;
                    }
                },
                None => {
                    proof {
                        reveal_strlit("~");
                        assert(at_tilde(path@) ==> path@.take(1) =~= "~"@);
                    }
                },
            }
        }
    }
    path.to_string()
}

/// A pattern without a `%` names itself.
pub proof fn lemma_plain_pattern_is_kept(pattern: Seq<char>, job: Facts)
    requires
        forall|i: int| 0 <= i < pattern.len() ==> pattern[i] != '%',
    ensures
        expanded(pattern, job) == pattern,
    decreases pattern.len(),
{
    if pattern.len() > 0 {
        lemma_plain_pattern_is_kept(pattern.drop_first(), job);
        assert(seq![pattern[0]] + pattern.drop_first() == pattern);
    }
}

/// `%%` is how a pattern spells a literal per cent sign.
pub proof fn lemma_escaped_per_cent(rest: Seq<char>, job: Facts)
    ensures
        expanded(seq!['%', '%'] + rest, job) == seq!['%'] + expanded(rest, job),
{
    let pattern = seq!['%', '%'] + rest;
    assert(pattern.drop_first()[0] == '%');
    assert(leading_digits(pattern.drop_first()) == 0);
    assert(pattern.subrange(1, 1) == Seq::<char>::empty());
    assert(pattern.skip(2) == rest);
}

/// An absolute `--output` is not relative to anything: the working directory
/// does not move it.
pub proof fn lemma_absolute_pattern_stays(
    pattern: Seq<char>,
    workdir: Seq<char>,
    job: Facts,
    home: Option<Seq<char>>,
)
    requires
        text::trimmed(pattern).len() > 0,
        text::trimmed(pattern)[0] == '/',
    ensures
        path_of(pattern, workdir, job, home) == Some(
            shortened(expanded(text::trimmed(pattern), job), home),
        ),
{
}

/// A relative pattern is read against the working directory, with one slash
/// between the two however many the directory ends with. The root directory is
/// one like any other.
pub proof fn lemma_relative_pattern_is_in_its_directory(
    pattern: Seq<char>,
    workdir: Seq<char>,
    job: Facts,
)
    requires
        text::trimmed(pattern).len() > 0,
        text::trimmed(workdir).len() > 0,
        expanded(text::trimmed(pattern), job).len() == 0 || expanded(text::trimmed(pattern), job)[0]
            != '/',
    ensures
        path_of(pattern, workdir, job, None) == Some(
            text::without_trailing(text::trimmed(workdir), '/') + seq!['/'] + expanded(
                text::trimmed(pattern),
                job,
            ),
        ),
{
}

/// A shortened path is still the same path: putting the home directory back in
/// place of the `~` gives the path it was made from.
pub proof fn lemma_tilde_stands_for_home(path: Seq<char>, home: Seq<char>)
    ensures
        under_home(path, home) matches Some(short) ==> short.len() > 0 && short[0] == '~'
            && text::without_trailing(home, '/') + short.drop_first() == path,
{
    let bare = text::without_trailing(home, '/');
    if under_home(path, home) is Some {
        let rest = path.skip(bare.len() as int);
        assert((seq!['~'] + rest).drop_first() == rest);
        assert(path == path.take(bare.len() as int) + rest);
    }
}

/// The file that is opened for a shortened path is the file it was made from,
/// unless the path already looked shortened and is not under the home
/// directory.
pub proof fn lemma_full_undoes_shortened(path: Seq<char>, home: Option<Seq<char>>)
    requires
        home matches Some(home) ==> !at_tilde(path) || text::without_trailing(home, '/').len() == 0
            || under_home(path, home) is Some,
    ensures
        full_of(shortened(path, home), home) == path,
{
    match home {
        Some(home) => {
            lemma_tilde_stands_for_home(path, home);
            if let Some(short) = under_home(path, home) {
                assert(short.skip(1) == short.drop_first());
            }
        },
        None => {},
    }
}

/// Every path inside the home directory is written with a `~`.
pub proof fn lemma_home_is_a_tilde(home: Seq<char>, rest: Seq<char>)
    requires
        text::without_trailing(home, '/').len() > 0,
    ensures
        under_home(text::without_trailing(home, '/') + seq!['/'] + rest, home) == Some(
            seq!['~', '/'] + rest,
        ),
{
    let bare = text::without_trailing(home, '/');
    let path = bare + seq!['/'] + rest;
    assert(path.take(bare.len() as int) == bare);
    assert(path.skip(bare.len() as int) == seq!['/'] + rest);
    assert(seq!['~'] + (seq!['/'] + rest) == seq!['~', '/'] + rest);
}

/// Digits are as many as stand before what is none.
proof fn lemma_leading_digits(digits: Seq<char>, rest: Seq<char>)
    requires
        text::all_digits(digits),
        rest.len() == 0 || !text::is_digit(rest[0]),
    ensures
        leading_digits(digits + rest) == digits.len(),
    decreases digits.len(),
{
    let all = digits + rest;
    if digits.len() > 0 {
        assert(text::is_digit(digits[0]));
        assert(all[0] == digits[0]);
        assert(all.drop_first() == digits.drop_first() + rest);
        assert(text::all_digits(digits.drop_first())) by {
            assert forall|i: int| 0 <= i < digits.drop_first().len() implies text::is_digit(
                #[trigger] digits.drop_first()[i],
            ) by {
                assert(text::is_digit(digits[i + 1]));
            }
        }
        lemma_leading_digits(digits.drop_first(), rest);
    } else {
        assert(all == rest);
    }
}

/// How a pattern spells a letter with a width.
pub open spec fn spelled(width: Seq<char>, letter: char) -> Seq<char> {
    seq!['%'] + width + seq![letter]
}

/// A letter with a width comes to what the letter stands for, and the rest of
/// the pattern to what it comes to on its own.
proof fn lemma_a_letter_is_replaced(width: Seq<char>, letter: char, rest: Seq<char>, job: Facts)
    requires
        text::all_digits(width),
        !text::is_digit(letter),
    ensures
        expanded(spelled(width, letter) + rest, job) == (match substituted(letter, job) {
            Some(value) => padded(value, width),
            None => spelled(width, letter),
        }) + expanded(rest, job),
{
    let pattern = spelled(width, letter) + rest;
    let n = width.len() as int;
    assert(pattern.drop_first() == width + (seq![letter] + rest));
    lemma_leading_digits(width, seq![letter] + rest);
    assert(pattern[1 + n] == letter);
    assert(pattern.subrange(1, 1 + n) == width);
    assert(pattern.take(2 + n) == spelled(width, letter));
    assert(pattern.skip(2 + n) == rest);
}

/// `%j` is the id of the job, `%x` its name and `%u` its user, each padded to
/// the width in front of the letter, and what follows is put in as if it stood
/// alone.
pub proof fn lemma_letters_name_the_job(width: Seq<char>, rest: Seq<char>, job: Facts)
    requires
        text::all_digits(width),
    ensures
        expanded(spelled(width, 'j') + rest, job) == padded(job.id, width) + expanded(rest, job),
        expanded(spelled(width, 'J') + rest, job) == padded(job.id, width) + expanded(rest, job),
        expanded(spelled(width, 'x') + rest, job) == padded(job.name, width) + expanded(rest, job),
        expanded(spelled(width, 'u') + rest, job) == padded(job.user, width) + expanded(rest, job),
{
    lemma_a_letter_is_replaced(width, 'j', rest, job);
    lemma_a_letter_is_replaced(width, 'J', rest, job);
    lemma_a_letter_is_replaced(width, 'x', rest, job);
    lemma_a_letter_is_replaced(width, 'u', rest, job);
}

/// The id of an array task is its master's, an underscore and its own number:
/// `%A` is the first and `%a` the second, each padded to its width.
pub proof fn lemma_letters_name_the_array_task(
    width: Seq<char>,
    rest: Seq<char>,
    job: Facts,
    master: Seq<char>,
    task: Seq<char>,
)
    requires
        text::all_digits(width),
        job.id == master.push('_') + task,
        !master.contains('_'),
    ensures
        expanded(spelled(width, 'A') + rest, job) == padded(master, width) + expanded(rest, job),
        expanded(spelled(width, 'a') + rest, job) == padded(task, width) + expanded(rest, job),
{
    text::lemma_halves_of_a_join(master, '_', task);
    lemma_a_letter_is_replaced(width, 'A', rest, job);
    lemma_a_letter_is_replaced(width, 'a', rest, job);
}

/// A job that is no array task is its own master, and its task is zero.
pub proof fn lemma_a_plain_job_is_its_own_master(width: Seq<char>, rest: Seq<char>, job: Facts)
    requires
        text::all_digits(width),
        !job.id.contains('_'),
    ensures
        expanded(spelled(width, 'A') + rest, job) == padded(job.id, width) + expanded(rest, job),
        expanded(spelled(width, 'a') + rest, job) == padded(seq!['0'], width) + expanded(rest, job),
{
    text::lemma_halves_rejoin(job.id, '_');
    match text::halves(job.id, '_') {
        Some((before, after)) => {
            assert(job.id[before.len() as int] == '_');
        },
        None => {},
    }
    lemma_a_letter_is_replaced(width, 'A', rest, job);
    lemma_a_letter_is_replaced(width, 'a', rest, job);
}

/// The batch script is the first task on the first node of the first step, so
/// `%n`, `%s` and `%t` are zero.
pub proof fn lemma_letters_name_the_first_step(width: Seq<char>, rest: Seq<char>, job: Facts)
    requires
        text::all_digits(width),
    ensures
        expanded(spelled(width, 'n') + rest, job) == padded(seq!['0'], width) + expanded(rest, job),
        expanded(spelled(width, 's') + rest, job) == padded(seq!['0'], width) + expanded(rest, job),
        expanded(spelled(width, 't') + rest, job) == padded(seq!['0'], width) + expanded(rest, job),
        expanded(spelled(width, '%') + rest, job) == padded(seq!['%'], width) + expanded(rest, job),
{
    lemma_a_letter_is_replaced(width, 'n', rest, job);
    lemma_a_letter_is_replaced(width, 's', rest, job);
    lemma_a_letter_is_replaced(width, 't', rest, job);
    lemma_a_letter_is_replaced(width, '%', rest, job);
}

/// Any other letter stays as it was written, its width with it, and so does a
/// `%` that nothing follows.
pub proof fn lemma_what_has_no_answer_stays(
    width: Seq<char>,
    letter: char,
    rest: Seq<char>,
    job: Facts,
)
    requires
        text::all_digits(width),
        !text::is_digit(letter),
        !seq!['A', 'a', 'j', 'J', 'x', 'u', 'n', 's', 't', '%'].contains(letter),
    ensures
        expanded(spelled(width, letter) + rest, job) == spelled(width, letter) + expanded(
            rest,
            job,
        ),
        expanded(seq!['%'] + width, job) == seq!['%'] + width,
{
    let known = seq!['A', 'a', 'j', 'J', 'x', 'u', 'n', 's', 't', '%'];
    assert(known[0] == 'A' && known[1] == 'a' && known[2] == 'j' && known[3] == 'J' && known[4]
        == 'x' && known[5] == 'u' && known[6] == 'n' && known[7] == 's' && known[8] == 't'
        && known[9] == '%');
    lemma_a_letter_is_replaced(width, letter, rest, job);
    let end = seq!['%'] + width;
    assert(end.drop_first() == width + Seq::<char>::empty());
    lemma_leading_digits(width, Seq::empty());
}

/// What stands in front of a `%` stays, and the rest of the pattern comes to
/// what it comes to on its own.
pub proof fn lemma_plain_text_stays_in_front(plain: Seq<char>, rest: Seq<char>, job: Facts)
    requires
        !plain.contains('%'),
    ensures
        expanded(plain + rest, job) == plain + expanded(rest, job),
    decreases plain.len(),
{
    let all = plain + rest;
    if plain.len() == 0 {
        assert(all == rest);
        assert(plain + expanded(rest, job) == expanded(rest, job));
    } else {
        assert(plain[0] != '%') by {
            assert(plain.contains(plain[0]));
        }
        let shorter = plain.drop_first();
        assert(!shorter.contains('%')) by {
            if shorter.contains('%') {
                let i = choose|i: int| 0 <= i < shorter.len() && shorter[i] == '%';
                assert(plain[i + 1] == '%');
            }
        }
        assert(all.drop_first() == shorter + rest);
        lemma_plain_text_stays_in_front(shorter, rest, job);
        assert(seq![plain[0]] + (shorter + expanded(rest, job)) == plain + expanded(rest, job));
    }
}

/// A value is padded with zeroes in front, to the width asked for and no
/// further, and is never cut short. A width of more than five digits' worth,
/// or none, leaves it alone.
pub proof fn lemma_padding_is_zeroes_in_front(value: Seq<char>, width: Seq<char>)
    requires
        text::all_digits(width),
    ensures
        ({
            let r = padded(value, width);
            let front = r.len() - value.len();
            let asked = text::digits_value(width) as int;
            &&& width.len() > 0 && asked <= 65535 && asked > value.len() ==> r.len() == asked
            &&& width.len() == 0 || asked > 65535 || asked <= value.len() ==> r == value
            &&& front >= 0
            &&& r.skip(front) == value
            &&& forall|i: int| 0 <= i < front ==> #[trigger] r[i] == '0'
        }),
{
    let r = padded(value, width);
    if width.len() > 0 {
        assert(text::is_digit(width[0]));
    }
    assert(r.skip(r.len() - value.len()) == value);
}

/// Where a job writes is its pattern with the job put in, read against its
/// working directory, and then written with a `~` where it is under home. The
/// white space around the pattern and the directory is no part of either, and a
/// pattern of nothing else is no file.
pub proof fn lemma_a_path_is_shortened_last(
    pattern: Seq<char>,
    workdir: Seq<char>,
    job: Facts,
    home: Option<Seq<char>>,
)
    ensures
        path_of(pattern, workdir, job, home) is Some <==> !text::blank(pattern),
        path_of(pattern, workdir, job, None) matches Some(path) ==> path_of(
            pattern,
            workdir,
            job,
            home,
        ) == Some(shortened(path, home)),
        path_of(text::trimmed(pattern), text::trimmed(workdir), job, home) == path_of(
            pattern,
            workdir,
            job,
            home,
        ),
{
    text::lemma_trimmed_stays_trimmed(pattern);
    text::lemma_trimmed_stays_trimmed(workdir);
    let (before, after) = text::lemma_only_white_space_is_trimmed(pattern);
    if text::trimmed(pattern).len() == 0 {
        assert forall|i: int| 0 <= i < pattern.len() implies text::is_space(#[trigger] pattern[i]) by {
            if i < before.len() {
                assert(pattern[i] == before[i]);
            } else {
                assert(pattern[i] == after[i - before.len()]);
            }
        }
    } else if text::blank(pattern) {
        text::lemma_trimming_takes_what_is_around(pattern, Seq::empty(), Seq::empty());
        assert(pattern + Seq::<char>::empty() + Seq::<char>::empty() == pattern);
    }
}

/// Without a working directory the pattern is all there is to say.
pub proof fn lemma_a_pattern_without_a_directory(pattern: Seq<char>, workdir: Seq<char>, job: Facts)
    requires
        !text::blank(pattern),
        text::blank(workdir),
    ensures
        path_of(pattern, workdir, job, None) == Some(expanded(text::trimmed(pattern), job)),
{
    lemma_a_path_is_shortened_last(pattern, workdir, job, None);
    text::lemma_trimming_takes_what_is_around(workdir, Seq::empty(), Seq::empty());
    assert(workdir + Seq::<char>::empty() + Seq::<char>::empty() == workdir);
}

/// The log column shows where a job writes, and a dash for one that writes
/// nowhere.
pub proof fn lemma_the_log_column(
    pattern: Seq<char>,
    workdir: Seq<char>,
    job: Facts,
    home: Option<Seq<char>>,
)
    ensures
        match path_of(pattern, workdir, job, home) {
            Some(path) => log_of(pattern, workdir, job, home) == path,
            None => log_of(pattern, workdir, job, home) == seq!['-'],
        },
{
}

/// A path is under home when it is home, or home and a slash and more: a
/// neighbour whose name only starts the same is not.
pub proof fn lemma_what_is_under_home(path: Seq<char>, home: Seq<char>)
    ensures
        ({
            let bare = text::without_trailing(home, '/');
            under_home(path, home) is Some <==> bare.len() > 0 && (path == bare || exists|
                rest: Seq<char>,
            | path == bare + seq!['/'] + rest)
        }),
        home.len() > 0 && home.last() != '/' ==> under_home(home, home) == Some(seq!['~']),
        shortened(path, None) == path,
        under_home(path, home) is None ==> shortened(path, Some(home)) == path,
        under_home(path, home) matches Some(short) ==> shortened(path, Some(home)) == short,
{
    let bare = text::without_trailing(home, '/');
    if under_home(path, home) is Some {
        let rest = path.skip(bare.len() as int);
        assert(path == bare + rest);
        if rest.len() == 0 {
            assert(path == bare);
        } else {
            assert(path == bare + seq!['/'] + rest.skip(1));
        }
    }
    if bare.len() > 0 && path == bare {
        assert(path.take(bare.len() as int) == bare);
    }
    if bare.len() > 0 && exists|rest: Seq<char>| path == bare + seq!['/'] + rest {
        let rest = choose|rest: Seq<char>| path == bare + seq!['/'] + rest;
        lemma_home_is_a_tilde(home, rest);
    }
    if home.len() > 0 && home.last() != '/' {
        assert(home.take(home.len() as int) == home);
        assert(seq!['~'] + home.skip(home.len() as int) == seq!['~']);
    }
}

/// Only a path at the `~` is opened elsewhere than it says.
pub proof fn lemma_other_paths_are_opened_as_written(path: Seq<char>, home: Option<Seq<char>>)
    requires
        path.len() == 0 || path[0] != '~' || (path.len() > 1 && path[1] != '/'),
    ensures
        full_of(path, home) == path,
{
}

/// A pattern that comes to an absolute path is not relative to anything,
/// wherever its slash came from.
pub proof fn lemma_an_absolute_path_stays(
    pattern: Seq<char>,
    workdir: Seq<char>,
    job: Facts,
    home: Option<Seq<char>>,
)
    requires
        text::trimmed(pattern).len() > 0,
        expanded(text::trimmed(pattern), job).len() > 0,
        expanded(text::trimmed(pattern), job)[0] == '/',
    ensures
        path_of(pattern, workdir, job, home) == Some(
            shortened(expanded(text::trimmed(pattern), job), home),
        ),
{
}

/// Where a job writes depends on its pattern, its directory and the job as they
/// are given, and the log column shows it.
pub proof fn lemma_where_a_job_writes(
    pattern: &str,
    workdir: &str,
    job: &Job<'_>,
    home: Option<&str>,
    path: Option<String>,
    log: String,
)
    requires
        call_ensures(self::path, (pattern, workdir, job, home), path),
        call_ensures(self::log, (pattern, workdir, job, home), log),
    ensures
        ({
            let facts = Facts { id: job.id@, name: job.name@, user: job.user@ };
            &&& path is Some <==> !text::blank(pattern@)
            &&& path matches Some(file) ==> path_of(pattern@, workdir@, facts, view_of(home))
                == Some(file@) && log@ == file@
            &&& path is None ==> log@ == seq!['-']
        }),
{
    lemma_a_path_is_shortened_last(pattern@, workdir@, job@, view_of(home));
}

} // verus!
