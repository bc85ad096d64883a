use nchctop::command::Finished;
use nchctop::squeue::{arguments, fetched, poll, read, Job, FORMAT};

const RUNNING: &str = "308208|32gpus|train-a|alice|RUNNING|\
    cpu=96,mem=4800G,node=3,billing=96,gres/gpu=24|22:46:39|3|gpn[001-003]|\
    /work/alice/amtpp|slurm-%j.out|None";

/// The format string is written across two lines; the continuation must
/// not smuggle whitespace into what squeue receives.
#[test]
fn format_has_no_spaces() {
    assert!(!FORMAT.contains(' '));
    assert!(FORMAT.contains("tres-alloc"));
}

#[test]
fn parses_a_running_job() {
    let job = Job::parse(RUNNING, None).expect("parsed");

    assert_eq!(job.id, "308208");
    assert_eq!(job.name, "train-a");
    assert_eq!(job.cpus, "96");
    assert_eq!(job.gpus, "24");
    assert_eq!(job.mem, "4800G");
    assert_eq!(job.nodes, "3");
    // A running job shows where it landed, not why.
    assert_eq!(job.reason, "gpn[001-003]");
    // squeue reports the pattern; the column reports the file.
    assert_eq!(job.log, "/work/alice/amtpp/slurm-308208.out");
}

/// A pending job has no nodes yet, so the column carries the reason in
/// brackets the way squeue's own %R does.
#[test]
fn shows_the_reason_when_a_job_is_pending() {
    let job = Job::parse(
        "311567|8gpus|sample|bob|PENDING|cpu=8,mem=200G,node=1,gres/gpu=1|0:00|1||\
         /work/bob|logs/%x-%j.err|Dependency",
        None,
    )
    .expect("parsed");

    assert_eq!(job.reason, "(Dependency)");
    assert_eq!(job.gpus, "1");
    // A job that has not started yet still knows where it will write.
    assert_eq!(job.log, "/work/bob/logs/sample-311567.err");
}

#[test]
fn squeue_marks_a_job_that_asked_for_no_gpus() {
    let job = Job::parse(
        "312000|dev|cpu-only|alice|RUNNING|cpu=2,mem=16G,node=1|0:05|1|n01|/work/alice||None",
        None,
    )
    .expect("parsed");

    assert_eq!(job.gpus, "-");
    assert_eq!(job.mem, "16G");
}

/// A job launched with `srun` has no output file, which the column has to
/// say rather than leaving blank.
#[test]
fn marks_a_job_that_writes_no_log() {
    let job = Job::parse(
        "312000|dev|cpu-only|alice|RUNNING|cpu=2,mem=16G,node=1|0:05|1|n01|/work/alice||None",
        None,
    )
    .expect("parsed");

    assert_eq!(job.log, "-");
}

#[test]
fn squeue_rejects_a_short_line() {
    assert!(Job::parse("312000|dev|cpu-only", None).is_none());
}

/// A separator in the reason is part of the reason.
#[test]
fn keeps_a_separator_in_the_reason() {
    let job = Job::parse("1|p|n|u|PENDING|cpu=1|0:00|1||/w|o| a|b|c ", None).expect("parsed");

    assert_eq!(job.reason, "(a|b|c)");
    assert_eq!(job.log, "/w/o");
}

#[test]
fn reads_every_line_but_a_malformed_one() {
    let listing = format!("{RUNNING}\nslurm_load_jobs error\n{RUNNING}\r\n");
    let jobs = read(&listing, Some("/work/alice"));

    assert_eq!(jobs.len(), 2);
    assert_eq!(jobs[0].partition, "32gpus");
    assert_eq!(jobs[0].user, "alice");
    assert_eq!(jobs[0].state, "RUNNING");
    assert_eq!(jobs[0].time, "22:46:39");
    assert_eq!(jobs[1].log, "~/amtpp/slurm-308208.out");
}

#[test]
fn asks_for_one_user_or_for_all() {
    let format = format!("--Format={FORMAT}");
    assert_eq!(arguments(true), ["--noheader", &format, "--me"]);
    assert_eq!(arguments(false), ["--noheader", &format]);
}

#[test]
fn a_failed_squeue_is_reported() {
    let failed = Finished {
        success: false,
        status: "exit status: 1".to_string(),
        stdout: Vec::new(),
        stderr: b" slurm_load_jobs error\n".to_vec(),
    };
    assert!(matches!(
        fetched(&failed, None),
        Err(said) if said == "squeue exited with exit status: 1: slurm_load_jobs error"
    ));

    let worked = Finished {
        success: true,
        status: "exit status: 0".to_string(),
        stdout: RUNNING.as_bytes().to_vec(),
        stderr: b"ignored".to_vec(),
    };
    assert!(matches!(fetched(&worked, None), Ok(jobs) if jobs.len() == 1));
}

#[test]
fn the_queue_is_polled_every_second() {
    let poller = poll(true);
    assert_eq!(poller.interval, 1);
    assert_eq!(poller.requests, [true]);
}
