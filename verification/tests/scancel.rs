use nchctop::command::Finished;
use nchctop::scancel::{cancelled, failure, reason, Cancels};

#[test]
fn reports_the_job_it_cancelled() {
    let mut cancels = Cancels::new();
    cancels.request("308208".to_string());
    for id in cancels.take_requests() {
        cancels.deliver(id, Ok(()));
    }

    let (id, result) = cancels.drain().remove(0);

    assert_eq!(id, "308208");
    assert!(result.is_ok());
}

/// A cancellation Slurm refused is the whole reason results come back at
/// all, so it has to arrive tagged with the job it was about.
#[test]
fn reports_one_it_could_not() {
    let mut cancels = Cancels::new();
    cancels.request("308208".to_string());
    for id in cancels.take_requests() {
        cancels.deliver(id, Err("Access/permission denied".to_string()));
    }

    let (id, result) = cancels.drain().remove(0);

    assert_eq!(id, "308208");
    assert_eq!(
        result.expect_err("refused").to_string(),
        "Access/permission denied"
    );
}

#[test]
fn takes_the_last_line_of_a_complaint() {
    let stderr = "scancel: error: Kill job error on job id 308208: \
                  Access/permission denied\n";

    assert_eq!(
        reason(stderr).expect("a reason"),
        "Kill job error on job id 308208: Access/permission denied"
    );
}

/// Nothing on stderr leaves the exit status to speak for it, which is the
/// caller's line rather than this one's.
#[test]
fn finds_no_reason_in_silence() {
    assert_eq!(reason(""), None);
    assert_eq!(reason("  \n\n"), None);
}

#[test]
fn the_exit_status_speaks_for_a_silent_failure() {
    assert_eq!(failure("exit status: 1", " \n"), "scancel exited with exit status: 1");
    let silent = Finished {
        success: false,
        status: "signal: 9".to_string(),
        stdout: b"noise".to_vec(),
        stderr: Vec::new(),
    };
    assert_eq!(cancelled(&silent), Err("scancel exited with signal: 9".to_string()));
    let refused = Finished {
        success: false,
        status: "exit status: 1".to_string(),
        stdout: Vec::new(),
        stderr: b"scancel: error: no \xff such job\n  \n".to_vec(),
    };
    assert_eq!(cancelled(&refused), Err("no \u{fffd} such job".to_string()));
    let taken = Finished {
        success: true,
        status: "exit status: 0".to_string(),
        stdout: Vec::new(),
        stderr: b"a warning".to_vec(),
    };
    assert_eq!(cancelled(&taken), Ok(()));
}

#[test]
fn cancellations_come_back_in_order() {
    let mut cancels = Cancels::new();
    cancels.request("1".to_string());
    cancels.request("2".to_string());
    assert_eq!(cancels.take_requests(), ["1", "2"]);
    assert!(cancels.take_requests().is_empty());
    cancels.deliver("2".to_string(), Ok(()));
    cancels.deliver("1".to_string(), Ok(()));
    let order: Vec<String> = cancels.drain().into_iter().map(|(id, _)| id).collect();
    assert_eq!(order, ["2", "1"]);
    assert!(cancels.drain().is_empty());
}
