use nchctop::command::Finished;
use nchctop::update::{
    changed, installed, last_word, parse_version, reason, report, version_change, Check, Outcome,
};

#[test]
fn reads_the_version_clap_prints() {
    assert_eq!(parse_version("nchctop 0.2.0\n").as_deref(), Some("0.2.0"));
}

/// Anything else is a binary that did not answer the question, which is
/// not a version to compare against.
#[test]
fn reads_no_version_from_anything_else() {
    assert_eq!(parse_version(""), None);
    assert_eq!(parse_version("nchctop\n"), None);
}

#[test]
fn takes_the_installers_last_word_as_the_reason() {
    let stderr = b"Downloading\ninstall.sh: Checksum mismatch\n\n";

    assert_eq!(reason(stderr), "Checksum mismatch");
}

#[test]
fn falls_back_when_the_installer_said_nothing() {
    assert_eq!(reason(b""), "The installer failed");
}

/// `--no-update` has to leave a check that stays quiet, not one that
/// reports a failure it never attempted.
#[test]
fn an_idle_check_reports_nothing() {
    let mut check = Check::idle();

    assert!(!check.apply_update());
    assert!(check.outcome().is_none());
}

#[test]
fn a_check_starts_once_and_reports_once() {
    let mut check = Check::start();
    assert!(check.take_start());
    assert!(!check.take_start());
    check.deliver(Outcome::Installed("0.3.0".to_string()));
    assert!(check.outcome().is_none());
    assert!(check.apply_update());
    assert!(!check.apply_update());
    assert!(matches!(check.outcome(), Some(Outcome::Installed(v)) if v == "0.3.0"));
    assert!(!Check::idle().take_start());
}

#[test]
fn only_another_version_is_a_change() {
    assert_eq!(changed("nchctop 0.2.0", "0.2.0"), Ok(None));
    assert_eq!(changed("  nchctop\t0.3.0 extra\nmore", "0.2.0"), Ok(Some("0.3.0".to_string())));
    assert_eq!(
        changed("\nnchctop 0.3.0", "0.2.0"),
        Err("Could not read the installed version".to_string())
    );
    assert_eq!(version_change(b"nchctop \xff", "0.2.0"), Ok(Some("\u{fffd}".to_string())));
    assert_eq!(
        version_change(b"", "0.2.0"),
        Err("Could not read the installed version".to_string())
    );
}

#[test]
fn says_why_an_installer_stopped() {
    assert_eq!(last_word("a\n install.sh: install.sh: b \n \n"), "b");
    assert_eq!(reason(b"bad \xfe byte"), "bad \u{fffd} byte");
    let failed = Finished {
        success: false,
        status: "exit status: 2".to_string(),
        stdout: b"noise".to_vec(),
        stderr: b"install.sh: No route\n".to_vec(),
    };
    assert_eq!(installed(&failed), Err("No route".to_string()));
    let worked = Finished {
        success: true,
        status: "exit status: 0".to_string(),
        stdout: Vec::new(),
        stderr: b"install.sh: Done\n".to_vec(),
    };
    assert_eq!(installed(&worked), Ok(()));
}

#[test]
fn every_way_a_check_ends_is_reported() {
    assert!(matches!(report(Ok(None)), Outcome::Current));
    assert!(matches!(report(Ok(Some("1".to_string()))), Outcome::Installed(v) if v == "1"));
    assert!(matches!(report(Err("x".to_string())), Outcome::Failed(said) if said == "x"));
}
