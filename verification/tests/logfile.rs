use nchctop::logfile::{expand, full, log, pad, path, shorten, substitute, under, Job};

fn job<'a>(id: &'a str, name: &'a str) -> Job<'a> {
    Job {
        id,
        name,
        user: "alice",
    }
}

/// What `sbatch` records when it was given no `--output` at all.
#[test]
fn expands_the_default_pattern_against_the_working_directory() {
    assert_eq!(
        path("slurm-%j.out", "/work/alice/amtpp", &job("319141", "train"), None),
        Some("/work/alice/amtpp/slurm-319141.out".to_string())
    );
}

/// A job launched with `srun` writes to the terminal, not to a file.
#[test]
fn reports_no_file_when_slurm_recorded_none() {
    assert_eq!(path("", "/work/alice", &job("309857", "train"), None), None);
    assert_eq!(path("   ", "/work/alice", &job("309857", "train"), None), None);
}

/// The default for an array job, which numbers by master and task.
#[test]
fn expands_an_array_task() {
    assert_eq!(
        path("slurm-%A_%a.out", "/work/alice", &job("319141_7", "sweep"), None),
        Some("/work/alice/slurm-319141_7.out".to_string())
    );
}

/// A job that is not an array is its own master, and has no task number.
#[test]
fn treats_a_plain_job_as_its_own_array_master() {
    assert_eq!(
        path("%A-%a.log", "/work/alice", &job("319141", "train"), None),
        Some("/work/alice/319141-0.log".to_string())
    );
}

#[test]
fn expands_the_name_and_the_user() {
    assert_eq!(
        path("logs/%x-%u-%j.out", "/work/alice", &job("500", "train-a"), None),
        Some("/work/alice/logs/train-a-alice-500.out".to_string())
    );
}

/// An absolute `--output` is not relative to anything.
#[test]
fn leaves_an_absolute_pattern_where_it_is() {
    assert_eq!(
        path("/scratch/out/%j.log", "/work/alice", &job("500", "train"), None),
        Some("/scratch/out/500.log".to_string())
    );
}

#[test]
fn zero_pads_to_the_width_a_pattern_asked_for() {
    assert_eq!(
        path("%8j.out", "/work/alice", &job("319141", "train"), None),
        Some("/work/alice/00319141.out".to_string())
    );
}

/// `%%` is how a pattern spells a literal per cent sign.
#[test]
fn keeps_an_escaped_per_cent() {
    assert_eq!(
        path("%%-%j.out", "/work/alice", &job("500", "train"), None),
        Some("/work/alice/%-500.out".to_string())
    );
}

/// `%N` is the node the job landed on. Leaving it visible says the path is
/// a pattern we could not finish, rather than pointing at a file that was
/// never written.
#[test]
fn leaves_a_pattern_it_cannot_answer_visible() {
    assert_eq!(
        path("%N-%j.out", "/work/alice", &job("500", "train"), None),
        Some("/work/alice/%N-500.out".to_string())
    );
    assert_eq!(
        path("%q.out", "/work/alice", &job("500", "train"), None),
        Some("/work/alice/%q.out".to_string())
    );
}

/// A trailing `%` is not the start of anything.
#[test]
fn keeps_a_dangling_per_cent() {
    assert_eq!(
        path("out-%", "/work/alice", &job("500", "train"), None),
        Some("/work/alice/out-%".to_string())
    );
}

/// A job with no working directory recorded still names its file.
#[test]
fn falls_back_to_the_bare_pattern_without_a_working_directory() {
    assert_eq!(
        path("slurm-%j.out", "", &job("500", "train"), None),
        Some("slurm-500.out".to_string())
    );
}

#[test]
fn writes_a_path_under_home_with_a_tilde() {
    assert_eq!(
        under("/home/alice/logs/x.out", "/home/alice"),
        Some("~/logs/x.out".to_string())
    );
    assert_eq!(under("/home/alice", "/home/alice/"), Some("~".to_string()));
}

/// A neighbour's directory shares a prefix without being inside home.
#[test]
fn leaves_a_path_that_only_looks_like_home() {
    assert_eq!(under("/home/alicia/x.out", "/home/alice"), None);
    assert_eq!(under("/work/alice/x.out", "/home/alice"), None);
    assert_eq!(under("/home/alice/x.out", ""), None);
}

#[test]
fn a_path_under_home_is_shortened_on_the_way_out() {
    assert_eq!(
        path("%j.out", "/home/alice/runs/", &job("7", "x"), Some("/home/alice")),
        Some("~/runs/7.out".to_string())
    );
    assert_eq!(
        path("%j.out", "/work", &job("7", "x"), Some("/home/alice")),
        Some("/work/7.out".to_string())
    );
    assert_eq!(shorten("/h/x".to_string(), Some("/h")), "~/x");
    assert_eq!(shorten("/h/x".to_string(), None), "/h/x");
}

#[test]
fn a_width_belongs_to_the_letter_after_it() {
    assert_eq!(expand("%4q", &job("7", "x")), "%4q");
    assert_eq!(expand("%12", &job("7", "x")), "%12");
    assert_eq!(expand("a%3jb%j", &job("7", "x")), "a007b7");
    assert_eq!(expand("%3%", &job("7", "x")), "00%");
    assert_eq!(expand("", &job("7", "x")), "");
}

#[test]
fn every_letter_stands_for_something() {
    let array = job("12_3", "sweep");
    assert_eq!(substitute('%', &array), Some("%".to_string()));
    assert_eq!(substitute('A', &array), Some("12".to_string()));
    assert_eq!(substitute('a', &array), Some("3".to_string()));
    assert_eq!(substitute('j', &array), Some("12_3".to_string()));
    assert_eq!(substitute('J', &array), Some("12_3".to_string()));
    assert_eq!(substitute('x', &array), Some("sweep".to_string()));
    assert_eq!(substitute('u', &array), Some("alice".to_string()));
    assert_eq!(substitute('n', &array), Some("0".to_string()));
    assert_eq!(substitute('s', &array), Some("0".to_string()));
    assert_eq!(substitute('t', &array), Some("0".to_string()));
    assert_eq!(substitute('N', &array), None);
}

#[test]
fn a_width_that_is_none_leaves_the_value_alone() {
    assert_eq!(pad("7", ""), "7");
    assert_eq!(pad("1234", "2"), "1234");
    assert_eq!(pad("7", "0003"), "007");
    assert_eq!(pad("7", "65535").len(), 65535);
    assert_eq!(pad("7", "65536"), "7");
    assert_eq!(pad("7", "99999999999999999999999"), "7");
    assert_eq!(pad("é", "3"), "00é");
}

#[test]
fn a_job_without_a_log_shows_a_dash() {
    assert_eq!(log(" ", "/work", &job("7", "x"), None), "-");
    assert_eq!(log("%j", "/work//", &job("7", "x"), None), "/work/7");
}

/// The root directory is a directory like any other.
#[test]
fn a_log_in_the_root_directory_keeps_it() {
    assert_eq!(
        path("slurm-%j.out", "/", &job("500", "train"), Some("/home/alice")),
        Some("/slurm-500.out".to_string())
    );
    assert_eq!(
        path("slurm-%j.out", " // ", &job("500", "train"), None),
        Some("/slurm-500.out".to_string())
    );
    assert_eq!(
        path("slurm-%j.out", "   ", &job("500", "train"), None),
        Some("slurm-500.out".to_string())
    );
}

/// A path on screen is opened where it stands, the home directory put back in
/// place of the `~`.
#[test]
fn opens_the_file_behind_a_tilde() {
    let home = Some("/home/alice");
    assert_eq!(full("~/logs/x.out", home), "/home/alice/logs/x.out");
    assert_eq!(full("~", Some("/home/alice/")), "/home/alice");
    assert_eq!(full("/work/x.out", home), "/work/x.out");
    assert_eq!(full("", home), "");
    // The home of someone else, which is not for us to know.
    assert_eq!(full("~bob/x.out", home), "~bob/x.out");
    assert_eq!(full("~/x.out", None), "~/x.out");
    assert_eq!(full("~/x.out", Some("/")), "~/x.out");
}

#[test]
fn a_shortened_path_opens_the_same_file() {
    for path in ["/home/alice/logs/x.out", "/home/alice", "/home/alicia/x.out", "/work/x", "x", "~bob"] {
        for home in [None, Some("/home/alice"), Some("/home/alice//"), Some("/"), Some("")] {
            assert_eq!(full(&shorten(path.to_string(), home), home), path, "{home:?}");
        }
    }
}
