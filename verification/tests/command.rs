use nchctop::command::{complain, Finished};

#[test]
fn a_command_that_worked_is_read() {
    let finished = Finished {
        success: true,
        status: "exit status: 0".to_string(),
        stdout: b"caf\xc3\xa9 \xff\n".to_vec(),
        stderr: b"noise".to_vec(),
    };
    assert_eq!(finished.output("squeue"), Ok("café \u{fffd}\n".to_string()));
}

#[test]
fn a_command_that_failed_is_quoted() {
    let finished = Finished {
        success: false,
        status: "exit status: 1".to_string(),
        stdout: b"ignored".to_vec(),
        stderr: b"\n error: \xc3\xa9 \n".to_vec(),
    };
    assert_eq!(
        finished.output("sacct"),
        Err("sacct exited with exit status: 1: error: é".to_string())
    );
    assert_eq!(complain("a", "b", " c "), "a exited with b: c");
}
