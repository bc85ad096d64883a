use nchctop::command::Finished;
use nchctop::wallet::{fetched, poll, read, Project};

#[test]
fn parses_a_project_line() {
    let project = Project::parse(
        "PROJECT_ID: MST000000, PROJECT_NAME: some project, SU_BALANCE: 12345.6789",
    )
    .expect("parsed");

    assert_eq!(project.id, "MST000000");
    let balance: f64 = project.balance.written.parse().expect("a number");
    assert!((balance - 12345.6789).abs() < f64::EPSILON);
}

#[test]
fn keeps_a_name_containing_a_comma() {
    let project = Project::parse(
        "PROJECT_ID: ACD000000, PROJECT_NAME: some centre, second clause, SU_BALANCE: -42.5",
    )
    .expect("parsed");

    assert_eq!(project.id, "ACD000000");
    let balance: f64 = project.balance.written.parse().expect("a number");
    assert!(balance < 0.0);
}

#[test]
fn ignores_an_info_line() {
    assert!(
        Project::parse("INFO: If you belong to many projects, it may take longer.").is_none()
    );
}

#[test]
fn a_name_that_looks_like_the_next_field_is_a_name() {
    let project = Project::parse(
        "PROJECT_ID: A , PROJECT_NAME: x, SU_BALANCE: 1, PROJECT_NAME: y, SU_BALANCE:  2 ",
    )
    .expect("parsed");
    assert_eq!(project.id, "A");
    assert_eq!(project.balance.written, "2");
    assert_eq!(project.balance.amount, "2.0");
    assert!(Project::parse("PROJECT_ID: A, SU_BALANCE: 2").is_none());
    assert!(Project::parse("ID: A, PROJECT_NAME: x, SU_BALANCE: 2").is_none());
    assert!(Project::parse("PROJECT_ID: A, PROJECT_NAME: x").is_none());
}

#[test]
fn reads_every_project_in_a_listing() {
    let listing = "INFO: wait\nPROJECT_ID: A, PROJECT_NAME: x, SU_BALANCE: 1\n\nPROJECT_ID: B, PROJECT_NAME: y, SU_BALANCE: none\nPROJECT_ID: C, PROJECT_NAME: z, SU_BALANCE: 3\n";
    let ids: Vec<String> = read(listing).into_iter().map(|project| project.id).collect();
    assert_eq!(ids, ["A", "C"]);
    let worked = Finished {
        success: true,
        status: "exit status: 0".to_string(),
        stdout: listing.as_bytes().to_vec(),
        stderr: Vec::new(),
    };
    assert!(matches!(fetched(&worked), Ok(found) if found.len() == 2));
    let failed = Finished {
        success: false,
        ..worked
    };
    assert!(matches!(fetched(&failed), Err(said) if said == "wallet exited with exit status: 0: "));
}

/// A balance is what double precision makes of it, to one decimal.
#[test]
fn balances_agree_with_double_precision() {
    let mut texts: Vec<String> = [
        "0", "-0", "12345.6789", "-42.5", "0.05", "0.15", "0.25", "0.35", "-0.04", "-0.05", "99.95",
        "1e3", "1E-3", "+7.", ".5", "9007199254740992", "9007199254740993", "9007199254740991.5",
        "123456789012345678901234567890", "1e22", "1e23", "1.7976931348623157e308", "1e309",
        "-1e309", "1e-400", "-1e-400", "-5e-324", "-2e-324", "-3e-324", "nan", "-NaN", "inf",
        "-Infinity", "+INF", "", "-", ".", "e5", "1e", "1e+", "1.2.3", "1 ", "0x10", "1_000",
        "00000000000000000000000000000.1", "1e99999999999999999999999999999999999999999",
        "1e-99999999999999999999999999999999999999999", "0e99999999999999999999999999999999999",
        "2.4703282292062327e-324", "2.4703282292062328e-324", "4503599627370496.25",
    ]
    .iter()
    .map(|text| text.to_string())
    .collect();
    let mut seed: u64 = 7;
    for _ in 0..2000 {
        seed = seed.wrapping_mul(6364136223846793005).wrapping_add(1442695040888963407);
        let places = (seed >> 60) as usize;
        let digits = format!("{:020}", seed >> ((seed >> 33) % 60));
        texts.push(format!("{}.{}", &digits[..20 - places], &digits[20 - places..]));
    }
    for text in texts {
        let line = format!("PROJECT_ID: A, PROJECT_NAME: x, SU_BALANCE: {text}");
        let project = Project::parse(&line);
        match text.trim().parse::<f64>() {
            Ok(balance) => {
                let project = project.expect("a number");
                assert_eq!(project.balance.amount, format!("{balance:.1}"), "{text}");
                assert_eq!(project.balance.overdrawn, balance < 0.0, "{text}");
            }
            Err(_) => assert!(project.is_none(), "{text}"),
        }
    }
}

#[test]
fn the_wallet_is_polled_every_minute() {
    assert_eq!(poll().interval, 60);
}
