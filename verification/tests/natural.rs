use nchctop::double::{show, show_tenths};
use nchctop::natural::Natural;
use nchctop::number::{read_number, Reading};

fn big(digits: &str) -> Natural {
    Natural::spelled(&digits.chars().collect())
}

#[test]
fn counts_past_every_machine_word() {
    let most = Natural::of(u128::MAX);
    assert_eq!(most.written(), u128::MAX.to_string());
    assert_eq!(
        most.scaled(u64::MAX, 7).written(),
        "6277101735386680763495507056286727952620534092958556749832"
    );
    assert_eq!(big("000120").written(), "120");
    assert_eq!(big("").written(), "0");
    assert_eq!(big("12").shifted(3).written(), "12000");
    assert_eq!(big("12").followed_by(5).written(), "125");
}

#[test]
fn takes_one_number_from_another() {
    assert_eq!(big("1000").minus(&big("1")).expect("more").written(), "999");
    assert_eq!(big("0001").minus(&big("1")).expect("as much").written(), "0");
    assert!(big("999").minus(&big("1000")).is_none());
    assert!(big("1000").at_least(&big("0001000")));
    assert!(!big("1000").at_least(&big("1001")));
}

#[test]
fn splits_off_the_low_digits() {
    let (low, high) = big("12345").split(2);
    assert_eq!((low.written().as_str(), high.written().as_str()), ("45", "123"));
    let (low, high) = big("12345").split(9);
    assert_eq!((low.written().as_str(), high.written().as_str()), ("12345", "0"));
}

#[test]
fn shows_a_fraction() {
    assert_eq!(show(&big("5"), &big("2"), 1), "3");
    assert_eq!(show_tenths(&big("1"), &big("4")), "0.2");
    assert_eq!(show_tenths(&big("3"), &big("4")), "0.8");
    assert_eq!(show_tenths(&big("1"), &big("3")), "0.3");
}

#[test]
fn reads_what_floating_point_reads() {
    for text in [
        "1", "-1.5", "1e5", "1E-5", ".5", "5.", "inf", "-Infinity", "nan", "", "-", ".", "e1", "1e", "1.5.2",
        "0x1", "1f", "infinite", "+-1", "1e+-1", "１",
    ] {
        assert_eq!(read_number(text).is_some(), text.parse::<f64>().is_ok(), "{text}");
    }
    assert!(matches!(read_number("-INF"), Some(Reading::Infinite(true))));
    assert!(matches!(read_number("+nAn"), Some(Reading::Nan)));
    assert!(matches!(
        read_number("-12.50e3"),
        Some(Reading::Finite(true, digits, 1)) if digits.written() == "1250"
    ));
}
