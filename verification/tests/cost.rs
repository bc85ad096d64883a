use chrono::{DateTime, NaiveDateTime, TimeDelta};
use nchctop::cost::{self, amount, totals, ACCURACY, ONE, SU_PER_GPU_HOUR, WINDOWS};
use nchctop::moment::{timestamp, within, Moment};
use nchctop::natural::Natural;
use nchctop::sacct::Run;

/// The moment the windows below are measured back from.
const NOW: &str = "2026-08-29T12:00:00";

fn now() -> Moment {
    timestamp(NOW).expect("parsed")
}

/// One `sacct` line for a job that used `gpus` GPUs for `elapsed`, starting
/// at `start`. Real lines rather than a hand-built [`Run`], so the cost is
/// totalled from the same text the cluster sends.
fn line(gpus: u32, elapsed: &str, start: &str) -> String {
    let gres = if gpus > 0 {
        format!("gres/gpu={gpus},")
    } else {
        String::new()
    };

    format!(
        "310011|dev|job|alice|COMPLETED|billing=12,cpu=12,{gres}mem=200G,node=1|{elapsed}|Unknown|0:0|{start}"
    )
}

fn runs(lines: &[String]) -> Vec<Run> {
    lines
        .iter()
        .map(|line| Run::parse(line, None).expect("parsed"))
        .collect()
}

/// A total in service units. It is a double, so nothing is lost on the way.
fn units(total: &Natural) -> f64 {
    total.written().parse::<f64>().expect("a number") / ONE as f64
}

/// The totals in service units.
fn su(runs: &[Run]) -> [f64; 3] {
    totals(runs, now()).map(|total| units(&total))
}

/// The rate itself: one GPU for one hour.
#[test]
fn charges_thirty_su_per_gpu_hour() {
    let runs = runs(&[line(1, "01:00:00", "2026-08-29T11:00:00")]);

    assert_eq!(su(&runs), [30.0, 30.0, 30.0]);
}

/// Eight GPUs for a quarter of an hour costs the same as two for an hour.
#[test]
fn charges_every_gpu_a_job_held() {
    let runs = runs(&[line(8, "00:15:00", "2026-08-29T11:45:00")]);

    assert_eq!(su(&runs), [60.0, 60.0, 60.0]);
}

/// Each window is a superset of the shorter ones, so an older job appears
/// in the longer totals only.
#[test]
fn sorts_runs_into_the_windows_that_contain_them() {
    let runs = runs(&[
        line(1, "01:00:00", "2026-08-29T09:00:00"),
        line(1, "01:00:00", "2026-08-26T09:00:00"),
        line(1, "01:00:00", "2026-08-10T09:00:00"),
    ]);

    assert_eq!(su(&runs), [30.0, 60.0, 90.0]);
}

/// A CPU-only job bills against a rate this does not model, so it adds
/// nothing rather than a wrong number.
#[test]
fn charges_a_job_with_no_gpus_nothing() {
    let runs = runs(&[line(0, "10:00:00", "2026-08-29T02:00:00")]);

    assert_eq!(su(&runs), [0.0, 0.0, 0.0]);
}

/// A job cancelled before it ran has no start time to place it by.
#[test]
fn skips_a_run_that_never_started() {
    let runs = runs(&[line(1, "00:00:00", "None")]);

    assert_eq!(su(&runs), [0.0, 0.0, 0.0]);
}

#[test]
fn totals_nothing_over_an_empty_list() {
    assert_eq!(su(&[]), [0.0, 0.0, 0.0]);
}

/// A run of exactly a window's age has left it.
#[test]
fn a_window_ends_on_the_second() {
    let out = runs(&[line(1, "01:00:00", "2026-08-28T12:00:00")]);
    assert_eq!(su(&out), [0.0, 30.0, 30.0]);
    let inside = runs(&[line(1, "01:00:00", "2026-08-28T12:00:01")]);
    assert_eq!(su(&inside), [30.0, 30.0, 30.0]);
    // A clock ahead of ours started it in every window.
    let ahead = runs(&[line(1, "01:00:00", "2027-01-01T00:00:00")]);
    assert_eq!(su(&ahead), [30.0, 30.0, 30.0]);
}

/// What a run costs in doubles.
fn doubles(gpus: u32, seconds: u64) -> f64 {
    f64::from(gpus) * (seconds as f64 / 3600.0) * 30.0
}

#[test]
fn charges_a_run_in_doubles() {
    assert_eq!(SU_PER_GPU_HOUR, 30);
    assert_eq!(WINDOWS, [1, 7, 30]);
    let whole = runs(&[line(3, "2-00:00:00", "2026-08-29T11:00:00")]);
    assert_eq!(cost::su(&whole[0]).written(), (3 * 48 * 30 * ONE).to_string());
    for gpus in [0, 1, 2, 3, 7, 8, 64, 1000, u32::MAX] {
        for seconds in [0, 1, 2, 3, 6, 7, 12, 59, 3599, 3601, 86_399] {
            let elapsed = format!("{:02}:{:02}:{:02}", seconds / 3600, seconds / 60 % 60, seconds % 60);
            let run = runs(&[line(gpus, &elapsed, "2026-08-29T11:00:00")]);
            assert_eq!(units(&cost::su(&run[0])), doubles(gpus, seconds), "{gpus} {elapsed}");
        }
    }
}

/// What a run costs keeps to the rate, but for the last bits of a double.
#[test]
fn every_cost_keeps_to_the_rate() {
    for (gpus, elapsed, seconds) in [(1, "00:00:06", 6), (3, "00:00:07", 7), (8, "00:15:00", 900)] {
        let run = runs(&[line(gpus, elapsed, "2026-08-29T11:00:00")]);
        let cost: u128 = cost::su(&run[0]).written().parse().expect("a number");
        let exact = u128::from(gpus) * seconds * 30 * ONE;
        assert!((cost * 3600).abs_diff(exact) * u128::from(ACCURACY) <= exact, "{gpus} {elapsed}");
        // Only the quarter of an hour is a double.
        assert_eq!(cost * 3600 == exact, seconds == 900);
    }
}

/// Longer than any cluster has stood: the cost outgrows a machine word.
#[test]
fn charges_a_run_that_outlasts_the_words() {
    for days in [1_000_000_000, 104_249_991_374, 104_249_991_375, 200_000_000_000_001] {
        for gpus in [1, 3, 1_000_003, u32::MAX] {
            let line = line(gpus, &format!("{days}-00:00:01"), "2026-08-29T11:00:00");
            let runs = runs(&[line.clone(), line.clone(), line]);
            let expected = doubles(gpus, days * 86_400 + 1);
            assert_eq!(units(&cost::su(&runs[0])), expected, "{gpus} {days}");
            assert_eq!(su(&runs)[0], expected + expected + expected, "{gpus} {days}");
        }
    }
}

/// Two sums that are exact in hundredths and are not in doubles: the second
/// decimal is a five, and what the double is more decides.
#[test]
fn a_total_is_a_sum_of_doubles() {
    let twelve_and_six = runs(&[
        line(1, "00:00:12", "2026-08-29T11:00:00"),
        line(1, "00:00:06", "2026-08-29T11:00:00"),
    ]);
    let total = &totals(&twelve_and_six, now())[0];
    assert_eq!(amount(total), format!("{:.1} SU", doubles(1, 12) + doubles(1, 6)));
    assert_eq!(amount(total), "0.2 SU");
    let eighteen = runs(&[line(1, "00:00:18", "2026-08-29T11:00:00")]);
    let total = &totals(&eighteen, now())[0];
    assert_eq!(amount(total), format!("{:.1} SU", doubles(1, 18)));
}

/// Runs are added one after another, in the order of the list.
#[test]
fn totals_agree_with_doubles_added_in_order() {
    let mut seed: u64 = 0x2545_F491_4F6C_DD1D;
    let mut lines = Vec::new();
    let mut expected: f64 = 0.0;
    for _ in 0..500 {
        seed = seed.wrapping_mul(6_364_136_223_846_793_005).wrapping_add(1_442_695_040_888_963_407);
        let gpus = (seed >> 60) as u32;
        let seconds = (seed >> 30) % 200_000;
        lines.push(line(
            gpus,
            &format!("{}-{:02}:{:02}:{:02}", seconds / 86_400, seconds / 3600 % 24, seconds / 60 % 60, seconds % 60),
            "2026-08-29T11:00:00",
        ));
        expected += doubles(gpus, seconds);
        assert_eq!(su(&runs(&lines)), [expected; 3]);
    }
    let total = &totals(&runs(&lines), now())[2];
    assert_eq!(amount(total), format!("{expected:.1} SU"));
}

/// A job that asked for no GPUs, or never started, adds nothing, and any other
/// never makes a total smaller.
#[test]
fn another_run_costs_no_less() {
    let some = line(3, "00:00:07", "2026-08-29T11:00:00");
    let free = line(0, "00:00:07", "2026-08-29T11:00:00");
    let never = line(3, "00:00:07", "Unknown");
    let old = line(3, "00:00:11", "2026-08-25T11:00:00");
    let one = su(&runs(&[some.clone()]));
    assert_eq!(su(&runs(&[some.clone(), free, never])), one);
    let two = su(&runs(&[some, old]));
    assert_eq!(two[0], one[0]);
    assert!(two[1] > one[1] && two[2] == two[1]);
}

#[test]
fn counts_a_leap_second_by_the_time_of_day() {
    let leap = Moment {
        seconds: 86_399,
        nanos: 1_500_000_000,
    };
    let next = Moment {
        seconds: 86_400 + 86_399,
        nanos: 1_500_000_000,
    };
    assert!(!within(next, leap, 1));
    let before = Moment {
        seconds: 86_400 + 86_399,
        nanos: 1_499_999_999,
    };
    assert!(within(before, leap, 1));
    // Later in its day than a leap second is in its own, which is one second
    // more away than the clocks say.
    let early = Moment {
        seconds: 10,
        nanos: 1_000_000_000,
    };
    let late = Moment {
        seconds: 86_410,
        nanos: 0,
    };
    assert!(within(late, early, 1));
    assert!(!within(
        Moment {
            seconds: 86_411,
            nanos: 0
        },
        early,
        1
    ));
}

fn naive(moment: Moment) -> Option<NaiveDateTime> {
    DateTime::from_timestamp(moment.seconds, moment.nanos).map(|time| time.naive_utc())
}

/// The age of a run is the calendar's, leap seconds and all.
#[test]
fn ages_agree_with_the_calendar() {
    let mut moments = Vec::new();
    for seconds in [-86_401, -1, 0, 59, 86_339, 86_399, 86_400, 86_459, 172_799, 604_800, 1_787_946_970] {
        for nanos in [0, 1, 999_999_999, 1_000_000_000, 1_000_000_001, 1_999_999_999] {
            let moment = Moment { seconds, nanos };
            if let Some(time) = naive(moment) {
                moments.push((moment, time));
            }
        }
    }
    assert!(moments.iter().any(|(moment, _)| moment.nanos >= 1_000_000_000));
    for (later, later_time) in &moments {
        for (earlier, earlier_time) in &moments {
            for days in [1, 2, 7, 30] {
                assert_eq!(
                    within(*later, *earlier, days),
                    *later_time - *earlier_time < TimeDelta::days(days),
                    "{later:?} {earlier:?} {days}"
                );
            }
        }
    }
}

#[test]
fn a_leap_second_is_a_timestamp() {
    let leap = timestamp("2026-08-28T23:59:60").expect("parsed");
    let before = timestamp("2026-08-28T23:59:59").expect("parsed");
    assert_eq!(leap.seconds, before.seconds);
    assert_eq!(leap.nanos, 1_000_000_000);
}

/// A total is shown in service units, to one decimal.
#[test]
fn shows_a_total_in_service_units() {
    assert_eq!(amount(&Natural::of(30 * ONE)), "30.0 SU");
    assert_eq!(amount(&Natural::of(0)), "0.0 SU");
    assert_eq!(amount(&Natural::of(ONE / 4)), "0.2 SU");
    assert_eq!(amount(&Natural::of(3 * ONE / 4)), "0.8 SU");
    for seconds in 0..20_000 {
        let su = doubles(1, seconds);
        assert_eq!(amount(&Natural::of((su * ONE as f64) as u128)), format!("{su:.1} SU"));
    }
    let vast = doubles(u32::MAX, u64::MAX);
    let total = Natural::spelled(&format!("{:.0}", vast * ONE as f64).chars().collect());
    assert_eq!(amount(&total), format!("{vast:.1} SU"));
}
