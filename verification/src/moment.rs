//! Points in time, as the cluster's clock reads them.

use vstd::prelude::*;

verus! {

/// A date and time of day without a time zone.
#[derive(Clone, Copy, Debug, PartialEq, Eq, Structural)]
pub struct Moment {
    /// Seconds since the start of 1970, counting no leap seconds.
    pub seconds: i64,
    /// Nanoseconds past that second. A leap second is the second before it,
    /// with a billion nanoseconds or more.
    pub nanos: u32,
}

/// How many nanoseconds a second has.
pub const BILLION: u32 = 1_000_000_000;

/// How many seconds a day has.
pub const DAY: i64 = 86_400;

/// The seconds and nanoseconds of the date and time `stamp` spells in the
/// format `fmt`, or nothing when it does not.
pub uninterp spec fn parsed_time(stamp: Seq<char>, fmt: Seq<char>) -> Option<(i64, u32)>;

/// `chrono::NaiveDateTime::parse_from_str` reads a date and time in a given
/// format. What it makes of a text has a name here, as the seconds since 1970
/// and the nanoseconds that the date and time it returns stands for.
#[verifier::external_body]
fn parse_time(stamp: &str, fmt: &str) -> (r: Option<(i64, u32)>)
    ensures
        r == parsed_time(stamp@, fmt@),
{
    let time = chrono::NaiveDateTime::parse_from_str(stamp, fmt).ok()?.and_utc();
    Some((time.timestamp(), time.timestamp_subsec_nanos()))
}

/// How Slurm writes a time.
pub const FORMAT: &'static str = "%Y-%m-%dT%H:%M:%S";

/// The moment a Slurm timestamp stands for.
pub open spec fn moment_of(stamp: Seq<char>) -> Option<Moment> {
    match parsed_time(stamp, FORMAT@) {
        Some((seconds, nanos)) => Some(Moment { seconds, nanos }),
        None => None,
    }
}

/// Parse a Slurm timestamp. A job that has not started reports `None` or
/// `Unknown` rather than a time, and neither is one.
pub fn timestamp(stamp: &str) -> (r: Option<Moment>)
    ensures
        r == moment_of(stamp@),
{
    match parse_time(stamp, FORMAT) {
        Some((seconds, nanos)) => Some(Moment { seconds, nanos }),
        None => None,
    }
}

/// The leap second to count between two moments, beyond what their seconds
/// say. It is told by the time of day alone, the way a clock without a
/// calendar of leap seconds can.
pub open spec fn leap_between(later: Moment, earlier: Moment) -> int {
    if later.seconds % DAY > earlier.seconds % DAY && earlier.nanos >= BILLION {
        1
    } else if later.seconds % DAY < earlier.seconds % DAY && later.nanos >= BILLION {
        -1
    } else {
        0
    }
}

/// How many nanoseconds there are from `earlier` to `later`.
pub open spec fn nanos_between(later: Moment, earlier: Moment) -> int {
    (later.seconds - earlier.seconds + leap_between(later, earlier)) * BILLION + later.nanos
        - earlier.nanos
}

/// Whether fewer than `days` days lie between the two moments.
pub open spec fn is_within(later: Moment, earlier: Moment, days: int) -> bool {
    nanos_between(later, earlier) < days * DAY * BILLION
}

/// Whether fewer than `days` days lie between the two moments.
pub fn within(later: Moment, earlier: Moment, days: i64) -> (r: bool)
    ensures
        r == is_within(later, earlier, days as int),
{
    let late = later.seconds.checked_rem_euclid(DAY).unwrap();
    let early = earlier.seconds.checked_rem_euclid(DAY).unwrap();
    let leap: i128 = if late > early && earlier.nanos >= BILLION {
        1
    } else if late < early && later.nanos >= BILLION {
        -1
    } else {
        0
    };
    let seconds: i128 = later.seconds as i128 - earlier.seconds as i128 + leap;
    let nanos: i128 = seconds * 1_000_000_000 + later.nanos as i128 - earlier.nanos as i128;
    nanos < days as i128 * 86_400 * 1_000_000_000
}

/// Between two seconds that are no leap seconds lie as many nanoseconds as the
/// clock says.
pub proof fn lemma_ordinary_seconds_are_subtracted(later: Moment, earlier: Moment)
    requires
        later.nanos < 1_000_000_000,
        earlier.nanos < 1_000_000_000,
    ensures
        nanos_between(later, earlier) == (later.seconds * 1_000_000_000 + later.nanos) - (
        earlier.seconds * 1_000_000_000 + earlier.nanos),
{
}

/// It is as far back as it is forth, and no time at all to the same moment.
pub proof fn lemma_as_far_back_as_forth(one: Moment, other: Moment)
    ensures
        nanos_between(one, other) == -nanos_between(other, one),
        nanos_between(one, one) == 0,
{
}

/// A leap second is a second of its own: whoever stands later in the day than
/// one is a second further from it than the clock says. At the same time of
/// day, and with no leap second at the earlier time, the clock is right.
pub proof fn lemma_a_leap_second_is_counted(later: Moment, earlier: Moment)
    ensures
        ({
            let by_the_clock = (later.seconds * 1_000_000_000 + later.nanos) - (earlier.seconds
                * 1_000_000_000 + earlier.nanos);
            let late = later.seconds % 86_400;
            let early = earlier.seconds % 86_400;
            &&& late > early && earlier.nanos >= 1_000_000_000 ==> nanos_between(later, earlier)
                == by_the_clock + 1_000_000_000
            &&& late > early && earlier.nanos < 1_000_000_000 ==> nanos_between(later, earlier)
                == by_the_clock
            &&& late == early ==> nanos_between(later, earlier) == by_the_clock
        }),
{
}

/// A window of so many days holds the moments less than so many times 86,400
/// seconds ago, to the nanosecond, and those still to come.
pub proof fn lemma_a_window_is_whole_days(later: Moment, earlier: Moment, days: int)
    ensures
        is_within(later, earlier, days) <==> nanos_between(later, earlier) < days
            * 86_400_000_000_000,
        later.nanos < 1_000_000_000 && earlier.nanos < 1_000_000_000 ==> (is_within(
            later,
            earlier,
            days,
        ) <==> later.seconds < earlier.seconds + days * 86_400 || (later.seconds == earlier.seconds
            + days * 86_400 && later.nanos < earlier.nanos)),
{
}

/// A timestamp is read the way Slurm writes one: the year, month and day, a
/// `T`, and the hour, minute and second.
pub proof fn lemma_a_timestamp_is_in_slurms_format(stamp: Seq<char>)
    ensures
        moment_of(stamp) is Some <==> parsed_time(stamp, "%Y-%m-%dT%H:%M:%S"@) is Some,
        moment_of(stamp) matches Some(moment) ==> parsed_time(stamp, "%Y-%m-%dT%H:%M:%S"@) == Some(
            (moment.seconds, moment.nanos),
        ),
{
}

} // verus!
