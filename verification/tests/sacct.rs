use nchctop::command::Finished;
use nchctop::moment::{timestamp, Moment};
use nchctop::sacct::{arguments, fetched, poll, read, runtime, short_time, state_name, Run};

#[test]
fn parses_a_finished_job() {
    let run = Run::parse(
        "310011|dev|train-a|alice|FAILED|billing=12,cpu=12,gres/gpu=1,mem=200G,node=1|00:00:14|2026-08-28T19:56:24|1:0|2026-08-28T19:56:10|/work/alice/amtpp|slurm-%j.out",
        None,
    )
    .expect("parsed");

    assert_eq!(run.id, "310011");
    assert_eq!(run.name, "train-a");
    assert_eq!(run.state, "FAILED");
    assert_eq!(run.cpus, "12");
    assert_eq!(run.gpus, "1");
    assert_eq!(run.mem, "200G");
    assert_eq!(run.end, "08-28 19:56");
    assert_eq!(run.exit, "1:0");
    assert_eq!(run.gpu_count, 1);
    assert_eq!(run.runtime, 14);
    assert_eq!(run.start, timestamp("2026-08-28T19:56:10"));
    // sacct reports the pattern; the column reports the file.
    assert_eq!(run.log, "/work/alice/amtpp/slurm-310011.out");
}

#[test]
fn drops_the_uid_from_a_cancelled_state() {
    let run = Run::parse(
        "311750|8gpus|train-b|alice|CANCELLED by 12345|billing=2,cpu=2,mem=16G,node=1|00:06:53|2026-08-29T02:58:11|0:0|2026-08-29T02:51:18|/work/alice|slurm-%j.out",
        None,
    )
    .expect("parsed");

    assert_eq!(run.state, "CANCELLED");
}

/// A CPU-only job has no gres/gpu entry, which has to read as "none"
/// rather than as a missing row.
#[test]
fn sacct_marks_a_job_that_asked_for_no_gpus() {
    let run = Run::parse(
        "312000|dev|cpu-only|alice|COMPLETED|billing=2,cpu=2,mem=16G,node=1|00:01:00|2026-08-29T02:58:11|0:0|2026-08-29T02:57:11|/work/alice|",
        None,
    )
    .expect("parsed");

    assert_eq!(run.cpus, "2");
    assert_eq!(run.gpus, "-");
    assert_eq!(run.mem, "16G");
    assert_eq!(run.gpu_count, 0);
    // The same row was launched with srun, which writes no file.
    assert_eq!(run.log, "-");
}

/// A job that never ran has no start time to place it in a cost window.
#[test]
fn marks_a_job_that_never_started() {
    let run = Run::parse(
        "312500|dev|never-ran|alice|CANCELLED|billing=2,cpu=2,mem=16G,node=1|00:00:00|Unknown|0:0|None|/work/alice|slurm-%j.out",
        None,
    )
    .expect("parsed");

    assert_eq!(run.start, None);
    assert_eq!(run.runtime, 0);
}

#[test]
fn reads_an_elapsed_time() {
    assert_eq!(runtime("00:00:14"), 14);
    assert_eq!(runtime("04:00:14"), 4 * 3600 + 14);
    // Past a day sacct prefixes the days, and past a week it keeps
    // counting in days rather than moving on to weeks.
    assert_eq!(
        runtime("7-06:45:10"),
        7 * 86_400 + 6 * 3600 + 45 * 60 + 10
    );
    // Anything unrecognised reads as no time at all rather than taking the
    // refresh down.
    assert_eq!(runtime("INVALID"), 0);
}

#[test]
fn keeps_a_timestamp_it_cannot_shorten() {
    assert_eq!(short_time("Unknown"), "Unknown");
}

#[test]
fn sacct_rejects_a_short_line() {
    assert!(Run::parse("310011|dev|train-a", None).is_none());
}

/// The fields after the start only name the log.
#[test]
fn a_line_that_ends_at_the_start_has_no_log() {
    let run = Run::parse("1|p|n|u|RUNNING|cpu=1|00:01|Unknown|0:0|None", None).expect("parsed");
    assert_eq!(run.log, "-");
    // One of the two fields that name a log is not both of them.
    assert!(Run::parse("1|p|n|u|RUNNING|cpu=1|00:01|Unknown|0:0|None|/w", None).is_none());
    assert!(Run::parse("1|p|n|u|RUNNING|cpu=1|00:01|Unknown|0:0", None).is_none());
}

/// The log pattern is the last field, and keeps any separator of its own.
#[test]
fn keeps_a_separator_in_the_log() {
    let run =
        Run::parse("1|p|n|u|RUNNING|cpu=1|00:01|Unknown|0:0|None|/w|a|b", None).expect("parsed");
    assert_eq!(run.log, "/w/a|b");
}

#[test]
fn reads_shorter_and_stranger_clocks() {
    assert_eq!(runtime("12:34"), 12 * 60 + 34);
    assert_eq!(runtime("34"), 34);
    assert_eq!(runtime("1:00:00:07"), 7);
    assert_eq!(runtime("+1-00:00:01"), 86_401);
    assert_eq!(runtime("x-00:00:01"), 1);
    assert_eq!(runtime(""), 0);
    assert_eq!(runtime("213503982334601-07:00:15"), u64::MAX);
    assert_eq!(runtime("213503982334601-07:00:16"), 0);
}

#[test]
fn shortens_what_it_can() {
    assert_eq!(short_time("2026-08-28T19:59:28"), "08-28 19:59");
    assert_eq!(short_time("2026T19:59:28"), "2026T19:59:28");
    assert_eq!(short_time("2026-08-28T19"), "2026-08-28T19");
    // Neither half is cut inside a character.
    assert_eq!(short_time("2026éTxxxxxx"), "2026éTxxxxxx");
    assert_eq!(short_time("12345T12345"), " 12345");
    assert_eq!(state_name("TIMEOUT"), "TIMEOUT");
    assert_eq!(state_name("CANCELLED by 1 by 2"), "CANCELLED");
}

/// Through to the calendar: the second of a known date.
#[test]
fn reads_a_timestamp() {
    assert_eq!(
        timestamp("2026-08-28T19:56:10"),
        Some(Moment {
            seconds: 1_787_946_970,
            nanos: 0
        })
    );
    assert_eq!(
        timestamp("1970-01-01T00:00:00"),
        Some(Moment {
            seconds: 0,
            nanos: 0
        })
    );
    assert_eq!(timestamp("Unknown"), None);
    assert_eq!(timestamp("2026-08-28"), None);
    assert_eq!(timestamp("2026-02-30T00:00:00"), None);
}

#[test]
fn shows_the_newest_first() {
    let listing = "1|p|n|u|COMPLETED|cpu=1|00:01|Unknown|0:0|None|/w|o\nnoise\n2|p|n|u|COMPLETED|cpu=1|00:01|Unknown|0:0|None|/w|o\n";
    let runs = read(listing, None);
    assert_eq!(runs.len(), 2);
    assert_eq!(runs[0].id, "2");
    assert_eq!(runs[1].id, "1");
}

#[test]
fn a_failed_sacct_is_reported() {
    let failed = Finished {
        success: false,
        status: "exit status: 1".to_string(),
        stdout: Vec::new(),
        stderr: b"sacct: error: Problem talking to the database\n".to_vec(),
    };
    assert!(matches!(
        fetched(&failed, None),
        Err(said) if said
            == "sacct exited with exit status: 1: sacct: error: Problem talking to the database"
    ));
}

#[test]
fn asks_for_a_month_of_whole_jobs() {
    assert_eq!(
        arguments(),
        [
            "--parsable2",
            "--noheader",
            "--allocations",
            "--starttime=now-30days",
            "--format=JobID,Partition,JobName,User,State,AllocTRES,Elapsed,End,ExitCode,Start,WorkDir,StdOut",
        ]
    );
}

#[test]
fn the_accounting_is_polled_every_half_minute() {
    assert_eq!(poll().interval, 30);
}

#[test]
fn counts_gpus_only_when_they_are_counted() {
    let counted = |tres: &str| {
        Run::parse(&format!("1|p|n|u|S|{tres}|00:01|Unknown|0:0|None|/w|o"), None)
            .expect("parsed")
            .gpu_count
    };
    assert_eq!(counted("gres/gpu=8"), 8);
    assert_eq!(counted("gres/gpu=4294967295"), u32::MAX);
    assert_eq!(counted("gres/gpu=4294967296"), 0);
    assert_eq!(counted("gres/gpu=many"), 0);
    assert_eq!(counted("gres/gpu:h100=8"), 0);
    assert_eq!(counted("gres/gpu=-"), 0);
}
