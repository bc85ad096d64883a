//! What the recent jobs have cost, in the service units the wallet is spent in.
//!
//! NCHC bills a GPU job by the GPU-hour, so a run costs its GPUs held for as
//! long as it ran. This is an estimate rather than the ledger: a job that asked
//! for no GPUs bills against a rate this does not model and shows as free, and
//! `wallet` remains the authority on what has actually been charged.
//!
//! Costs are doubles, rounded at every step, and are counted here in whole
//! parts of a service unit. There are [`ONE`] parts to the unit, which is as
//! fine as any of these doubles is: the least that is not nothing is the share
//! that one second has of an hour, and the last of its 53 bits is one part.

use vstd::prelude::*;

use crate::double;
use crate::moment;
use crate::moment::Moment;
use crate::natural::Natural;
use crate::sacct::Run;

verus! {

/// Service units per GPU-hour.
pub const SU_PER_GPU_HOUR: u64 = 30;

/// Seconds in an hour.
pub const SECONDS_PER_HOUR: u64 = 3600;

/// Parts that a service unit, or an hour, is counted in.
pub const ONE: u128 = 0x1_0000_0000_0000_0000;

/// The windows to total, in days. Shortest first, which is the order they are
/// read in and the order they are shown in.
pub const WINDOWS: [i64; 3] = [1, 7, 30];

/// So many seconds in hours, as a double.
pub open spec fn hours_of(seconds: nat) -> nat {
    double::double_above(double::reads_as(seconds) * (ONE as nat), SECONDS_PER_HOUR as nat)
}

/// What one run has cost: its GPUs, held for as long as it has run, at the rate
/// of a GPU-hour. The hours are rounded to a double, then the GPU-hours, then
/// the cost.
pub open spec fn charge(run: Run) -> nat {
    double::reads_as(
        double::reads_as(run.gpu_count as nat * hours_of(run.runtime as nat))
            * SU_PER_GPU_HOUR as nat,
    )
}

/// Whether a run counts towards the last `days` days: it started in them.
pub open spec fn counts(run: Run, now: Moment, days: int) -> bool {
    run.start matches Some(start) && moment::is_within(now, start, days)
}

/// What the runs that started in the last `days` days cost together: one is
/// added after another, in the order of the list, and every sum is rounded to
/// a double.
pub open spec fn total(runs: Seq<Run>, now: Moment, days: int) -> nat
    decreases runs.len(),
{
    if runs.len() == 0 {
        0
    } else {
        let before = total(runs.drop_last(), now, days);
        if counts(runs.last(), now, days) {
            double::reads_as(before + charge(runs.last()))
        } else {
            before
        }
    }
}

/// More hours, or more parts of a cost, than are reckoned in a machine word.
const MUCH: u128 = 0x400_0000_0000_0000_0000_0000;

/// What one run has cost, where a machine word can hold all of the reckoning.
fn word_su(run: &Run) -> (r: Option<u128>)
    ensures
        r matches Some(cost) ==> cost == charge(*run) && cost < 2 * double::WORD,
{
    if run.runtime > double::TOP {
        return None;
    }
    proof {
        double::lemma_few_digits_read_as_themselves(run.runtime as nat);
        assert(run.runtime * ONE <= double::TOP * ONE) by (nonlinear_arith)
            requires
                run.runtime <= double::TOP,
        ;
    }
    let hours = double::word_above(run.runtime as u128 * ONE, SECONDS_PER_HOUR as u128);
    if hours > MUCH {
        return None;
    }
    assert(run.gpu_count * hours <= u32::MAX * MUCH) by (nonlinear_arith)
        requires
            run.gpu_count <= u32::MAX,
            hours <= MUCH,
    ;
    let held = double::word_above(run.gpu_count as u128 * hours, 1);
    if held > MUCH {
        return None;
    }
    assert(held * SU_PER_GPU_HOUR <= MUCH * 30) by (nonlinear_arith)
        requires
            held <= MUCH,
            SU_PER_GPU_HOUR == 30,
    ;
    Some(double::word_above(held * SU_PER_GPU_HOUR as u128, 1))
}

/// What one run has cost, in parts of a service unit. A job still going is
/// counted for the time it has run so far, which is what its `Elapsed` reports.
pub fn su(run: &Run) -> (r: Natural)
    ensures
        r@ == charge(*run),
{
    match word_su(run) {
        Some(cost) => Natural::of(cost),
        None => {
            let once = Natural::of(1);
            let seconds = double::above(&Natural::of(run.runtime as u128), &once);
            proof {
                double::lemma_two_to_64();
            }
            let hours = double::above(
                &double::doubled(&seconds, 64),
                &Natural::of(SECONDS_PER_HOUR as u128),
            );
            assert(hours@ * run.gpu_count as nat == run.gpu_count as nat * hours@)
                by (nonlinear_arith);
            let held = double::above(&hours.scaled(run.gpu_count as u64, 0), &once);
            double::above(&held.scaled(SU_PER_GPU_HOUR, 0), &once)
        },
    }
}

/// Whether a run counts towards the last `days` days. A job that never started
/// has nothing to bill and no time to bill it against.
fn in_window(run: &Run, now: Moment, days: i64) -> (r: bool)
    ensures
        r == counts(*run, now, days as int),
{
    match run.start {
        Some(start) => moment::within(now, start, days),
        None => false,
    }
}

/// What the runs that started in the last `days` days cost together, where a
/// machine word can hold all of the reckoning.
fn word_total(runs: &[Run], now: Moment, days: i64) -> (r: Option<u128>)
    ensures
        r matches Some(sum) ==> sum == total(runs@, now, days as int),
{
    let mut sum: u128 = 0;
    let mut i: usize = 0;
    while i < runs.len()
        invariant
            i <= runs.len(),
            sum == total(runs@.take(i as int), now, days as int),
            sum < 2 * double::WORD,
        decreases runs.len() - i,
    {
        assert(runs@.take(i + 1).drop_last() == runs@.take(i as int));
        if in_window(&runs[i], now, days) {
            match word_su(&runs[i]) {
                Some(cost) => {
                    if sum + cost >= double::WORD {
                        return None;
                    }
                    sum = double::word_above(sum + cost, 1);
                },
                None => {
                    return None;
                },
            }
        }
        i += 1;
    }
    assert(runs@.take(i as int) == runs@);
    Some(sum)
}

/// What the runs that started in the last `days` days cost together.
fn total_over(runs: &[Run], now: Moment, days: i64) -> (r: Natural)
    ensures
        r@ == total(runs@, now, days as int),
{
    if let Some(sum) = word_total(runs, now, days) {
        return Natural::of(sum);
    }
    let once = Natural::of(1);
    let mut sum = Natural::of(0);
    let mut i: usize = 0;
    while i < runs.len()
        invariant
            i <= runs.len(),
            once@ == 1,
            sum@ == total(runs@.take(i as int), now, days as int),
        decreases runs.len() - i,
    {
        assert(runs@.take(i + 1).drop_last() == runs@.take(i as int));
        if in_window(&runs[i], now, days) {
            sum = double::above(&sum.plus(&su(&runs[i])), &once);
        }
        i += 1;
    }
    assert(runs@.take(i as int) == runs@);
    sum
}

/// Total what `runs` cost over each of [`WINDOWS`], counting back from `now`,
/// in parts of a service unit.
///
/// A run lands in a window by when it started, matching how the pane itself was
/// asked for: `sacct` selects on start time, so bucketing on anything else
/// would total a different set of jobs than the one on screen. A long run that
/// straddles a boundary therefore counts whole in the windows containing its
/// start and not at all in the shorter ones.
pub fn totals(runs: &[Run], now: Moment) -> (r: [Natural; 3])
    ensures
        forall|i: int| 0 <= i < 3 ==> (#[trigger] r@[i])@ == total(runs@, now, WINDOWS@[i] as int),
{
    [
        total_over(runs, now, WINDOWS[0]),
        total_over(runs, now, WINDOWS[1]),
        total_over(runs, now, WINDOWS[2]),
    ]
}

/// A total in service units, to one decimal.
pub open spec fn service_units(total: nat) -> Seq<char> {
    double::to_a_tenth(total, ONE as nat) + " SU"@
}

/// How a total is shown: in service units, to one decimal.
pub fn amount(total: &Natural) -> (r: String)
    ensures
        r@ == service_units(total@),
{
    let mut r = double::show_tenths(total, &Natural::of(ONE));
    r.append(" SU");
    r
}

/// One GPU for one hour costs what the rate says.
pub proof fn lemma_rate(run: Run)
    requires
        run.gpu_count == 1,
        run.runtime == SECONDS_PER_HOUR,
    ensures
        charge(run) == SU_PER_GPU_HOUR * ONE,
{
    double::lemma_two_to_64();
    double::lemma_few_digits_read_as_themselves(3600);
    double::lemma_few_digits_read_as_themselves(1);
    double::lemma_few_digits_read_as_themselves(30);
    double::lemma_a_double_is_kept(1, 64, 1);
    double::lemma_a_double_is_kept(30, 64, 1);
    lemma_cost_is_proportional(run, ONE as nat);
}

/// The cost is exactly proportional to the GPUs a job held and to the hours it
/// held them, wherever doubles can hold the seconds, the hours, the GPU-hours
/// and the cost.
pub proof fn lemma_cost_is_proportional(run: Run, hours: nat)
    requires
        run.runtime * ONE == SECONDS_PER_HOUR * hours,
        double::reads_as(run.runtime as nat) == run.runtime,
        double::reads_as(hours) == hours,
        double::reads_as(run.gpu_count as nat * hours) == run.gpu_count * hours,
        double::reads_as(run.gpu_count as nat * hours * (SU_PER_GPU_HOUR as nat)) == run.gpu_count
            * hours * SU_PER_GPU_HOUR,
    ensures
        charge(run) == run.gpu_count * hours * SU_PER_GPU_HOUR,
{
    double::lemma_a_double_is_kept(hours, 0, 3600);
    assert(double::two_to(0) == 1);
    assert(hours * double::two_to(0) == hours) by (nonlinear_arith)
        requires
            double::two_to(0) == 1,
    ;
    assert(hours_of(run.runtime as nat) == hours);
}

/// How closely a cost keeps to the rate: to one part in this many.
pub const ACCURACY: u64 = 0x4_0000_0000_0000;

/// What any run costs is its GPUs, held for as long as it has run, at the rate
/// of a GPU-hour. The roundings on the way change it by at most one part in
/// [`ACCURACY`].
pub proof fn lemma_every_cost_keeps_to_the_rate(run: Run)
    ensures
        ({
            let held = run.gpu_count as nat * run.runtime as nat;
            let exact = held * (SU_PER_GPU_HOUR as nat) * (ONE as nat);
            &&& (ACCURACY - 1) * exact <= ACCURACY * (charge(run) * SECONDS_PER_HOUR)
            &&& ACCURACY * (charge(run) * SECONDS_PER_HOUR) <= (ACCURACY + 1) * exact
        }),
{
    let gpus = run.gpu_count as nat;
    let seconds = run.runtime as nat;
    let read = double::reads_as(seconds);
    let hours = hours_of(seconds);
    let gpu_hours = double::reads_as(gpus * hours);
    if seconds <= double::TOP {
        double::lemma_few_digits_read_as_themselves(seconds);
    } else {
        double::lemma_rounding_is_slight(seconds, 1);
    }
    double::lemma_rounding_is_slight(read * ONE as nat, 3600);
    if gpus == 0 || seconds == 0 {
        assert(gpus * seconds == 0) by (nonlinear_arith)
            requires
                gpus == 0 || seconds == 0,
        ;
        assert(gpus * hours == 0) by (nonlinear_arith)
            requires
                gpus == 0 || hours == 0,
        ;
        double::lemma_few_digits_read_as_themselves(0);
    } else {
        assert(gpus * hours >= hours) by (nonlinear_arith)
            requires
                gpus >= 1,
        ;
        double::lemma_rounding_is_slight(gpus * hours, 1);
        double::lemma_rounding_is_slight(gpu_hours * 30, 1);
        let rounded = (hours * 3600) as int;
        lemma_twice_rounded(double::TOP as int, seconds as int, read as int, ONE as int, rounded);
        lemma_gpus_times_hours(gpus, hours, seconds);
    }
}

/// What is off by one part in `top` twice over.
proof fn lemma_twice_rounded(top: int, first: int, second: int, times: int, third: int)
    requires
        top >= 1,
        times >= 0,
        (top - 1) * first <= top * second <= (top + 1) * first,
        (top - 1) * (second * times) <= top * third <= (top + 1) * (second * times),
    ensures
        (top - 1) * (top - 1) * (first * times) <= top * top * third <= (top + 1) * (top + 1) * (
        first * times),
{
    assert((top - 1) * (top - 1) * (first * times) <= top * top * third) by (nonlinear_arith)
        requires
            top >= 1,
            times >= 0,
            (top - 1) * first <= top * second,
            (top - 1) * (second * times) <= top * third,
    {
        assert((top - 1) * first * times <= top * second * times);
        assert((top - 1) * ((top - 1) * first * times) <= (top - 1) * (top * second * times));
        assert(top * ((top - 1) * (second * times)) <= top * (top * third));
    }
    assert(top * top * third <= (top + 1) * (top + 1) * (first * times)) by (nonlinear_arith)
        requires
            top >= 1,
            times >= 0,
            top * second <= (top + 1) * first,
            top * third <= (top + 1) * (second * times),
    {
        assert(top * second * times <= (top + 1) * first * times);
        assert((top + 1) * (top * second * times) <= (top + 1) * ((top + 1) * first * times));
        assert(top * (top * third) <= top * ((top + 1) * (second * times)));
    }
}

/// What two roundings leave of the hours, the GPU-hours have as many times.
proof fn lemma_gpus_times_hours(gpus: nat, hours: nat, seconds: nat)
    requires
        (double::TOP - 1) * (double::TOP - 1) * (seconds * ONE) <= double::TOP * double::TOP * (hours
            * 3600) <= (double::TOP + 1) * (double::TOP + 1) * (seconds * ONE),
    ensures
        (double::TOP - 1) * (double::TOP - 1) * (gpus * seconds * ONE) <= double::TOP * double::TOP
            * (gpus * hours * 3600) <= (double::TOP + 1) * (double::TOP + 1) * (gpus * seconds
            * ONE),
{
    lemma_times(gpus, (double::TOP - 1) * (double::TOP - 1), seconds as int, ONE as int);
    lemma_times(gpus, double::TOP * double::TOP, hours as int, 3600);
    lemma_times(gpus, (double::TOP + 1) * (double::TOP + 1), seconds as int, ONE as int);
    vstd::arithmetic::mul::lemma_mul_inequality(
        (double::TOP - 1) * (double::TOP - 1) * (seconds * ONE),
        double::TOP * double::TOP * (hours * 3600),
        gpus as int,
    );
    vstd::arithmetic::mul::lemma_mul_inequality(
        double::TOP * double::TOP * (hours * 3600),
        (double::TOP + 1) * (double::TOP + 1) * (seconds * ONE),
        gpus as int,
    );
}

/// So many times a product of three is that product with one factor as many
/// times.
proof fn lemma_times(gpus: nat, a: int, b: int, c: int)
    ensures
        (a * (b * c)) * gpus == a * (gpus * b * c),
{
    assert((a * (b * c)) * gpus == a * (gpus * b * c)) by (nonlinear_arith);
}

/// A total is a double.
proof fn lemma_a_total_is_a_double(runs: Seq<Run>, now: Moment, days: int)
    ensures
        double::reads_as(total(runs, now, days)) == total(runs, now, days),
    decreases runs.len(),
{
    if runs.len() == 0 {
        double::lemma_few_digits_read_as_themselves(0);
    } else {
        lemma_a_total_is_a_double(runs.drop_last(), now, days);
        double::lemma_a_double_reads_as_itself(
            total(runs.drop_last(), now, days) + charge(runs.last()),
            1,
        );
    }
}

/// A job that asked for no GPUs, or never started, adds nothing to any total.
pub proof fn lemma_free_run(runs: Seq<Run>, run: Run, now: Moment, days: int)
    requires
        run.gpu_count == 0 || run.start is None,
    ensures
        total(runs.push(run), now, days) == total(runs, now, days),
{
    assert(runs.push(run).drop_last() == runs);
    lemma_a_total_is_a_double(runs, now, days);
    if run.gpu_count == 0 {
        assert(0 * hours_of(run.runtime as nat) == 0);
        double::lemma_few_digits_read_as_themselves(0);
    }
}

/// One more job never makes a total smaller.
pub proof fn lemma_another_run_costs_no_less(runs: Seq<Run>, run: Run, now: Moment, days: int)
    ensures
        total(runs, now, days) <= total(runs.push(run), now, days),
{
    assert(runs.push(run).drop_last() == runs);
    lemma_a_total_is_a_double(runs, now, days);
    double::lemma_reading_grows(
        total(runs, now, days),
        total(runs, now, days) + charge(run),
    );
}

/// Each window is a superset of the shorter ones, so no total is smaller than
/// that of a shorter window.
pub proof fn lemma_longer_window_costs_no_less(runs: Seq<Run>, now: Moment, short: int, long: int)
    requires
        short <= long,
    ensures
        total(runs, now, short) <= total(runs, now, long),
    decreases runs.len(),
{
    if runs.len() > 0 {
        let before = runs.drop_last();
        let run = runs.last();
        lemma_longer_window_costs_no_less(before, now, short, long);
        if counts(run, now, short) {
            double::lemma_reading_grows(
                total(before, now, short) + charge(run),
                total(before, now, long) + charge(run),
            );
        } else {
            assert(before.push(run) == runs);
            lemma_another_run_costs_no_less(before, run, now, long);
        }
    }
}

/// Nothing has cost nothing.
pub proof fn lemma_no_runs_cost_nothing(now: Moment, days: int)
    ensures
        total(Seq::empty(), now, days) == 0,
{
}

/// A run that started less than so many days ago adds its whole cost to the
/// total of that many days, whatever else is known of it: whether it still
/// goes, how it ended and whose it is make no difference.
pub proof fn lemma_a_run_in_the_window_is_added(
    runs: Seq<Run>,
    run: Run,
    start: Moment,
    now: Moment,
    days: int,
)
    requires
        run.start == Some(start),
        moment::nanos_between(now, start) < days * 86_400 * 1_000_000_000,
    ensures
        total(runs.push(run), now, days) == double::reads_as(total(runs, now, days) + charge(run)),
{
    assert(runs.push(run).drop_last() == runs);
}

/// A run that started longer ago, or not at all, adds nothing.
pub proof fn lemma_a_run_outside_the_window_is_not(
    runs: Seq<Run>,
    run: Run,
    now: Moment,
    days: int,
)
    requires
        run.start matches Some(start) ==> moment::nanos_between(now, start) >= days * 86_400
            * 1_000_000_000,
    ensures
        total(runs.push(run), now, days) == total(runs, now, days),
{
    assert(runs.push(run).drop_last() == runs);
}

/// Only the GPUs and the time cost: two runs with as many of both cost the
/// same.
pub proof fn lemma_only_gpus_and_time_cost(one: Run, other: Run)
    requires
        one.gpu_count == other.gpu_count,
        one.runtime == other.runtime,
    ensures
        charge(one) == charge(other),
{
}

/// More GPUs, or a longer time, never cost less.
pub proof fn lemma_more_costs_no_less(less: Run, more: Run)
    requires
        less.gpu_count <= more.gpu_count,
        less.runtime <= more.runtime,
    ensures
        charge(less) <= charge(more),
{
    let a = double::reads_as(less.runtime as nat) * ONE as nat;
    let b = double::reads_as(more.runtime as nat) * ONE as nat;
    double::lemma_reading_grows(less.runtime as nat, more.runtime as nat);
    double::lemma_rounding_grows(a, b, 3600);
    let fewer = hours_of(less.runtime as nat);
    let hours = hours_of(more.runtime as nat);
    assert(less.gpu_count as nat * fewer <= more.gpu_count as nat * hours) by (nonlinear_arith)
        requires
            less.gpu_count <= more.gpu_count,
            fewer <= hours,
    ;
    double::lemma_reading_grows(less.gpu_count as nat * fewer, more.gpu_count as nat * hours);
    double::lemma_reading_grows(
        double::reads_as(less.gpu_count as nat * fewer) * 30,
        double::reads_as(more.gpu_count as nat * hours) * 30,
    );
}

/// The windows are a day, a week and a month of thirty days.
pub proof fn lemma_the_windows()
    ensures
        WINDOWS@ == seq![1i64, 7i64, 30i64],
{
}

/// A total is shown in service units to the nearest tenth, or nearly: no
/// further from it than seven tenths of a tenth, whatever it is up to a million
/// million units.
pub proof fn lemma_a_total_is_shown_to_a_tenth(sum: nat) -> (t: nat)
    requires
        sum <= 1_000_000_000_000 * ONE,
    ensures
        service_units(sum) == double::tenths(t) + " SU"@,
        10 * (t * ONE) <= 10 * (10 * sum) + 7 * ONE,
        10 * (10 * sum) <= 10 * (t * ONE) + 7 * ONE,
{
    double::lemma_the_tenth_is_near(sum, ONE as nat)
}

/// The three totals are those of the last day, the last week and the last
/// thirty days, in that order, and each is shown as what it is.
pub proof fn lemma_the_totals_are_of_the_windows(
    runs: &[Run],
    now: Moment,
    sums: [Natural; 3],
    sum: &Natural,
    shown: String,
)
    requires
        call_ensures(totals, (runs, now), sums),
        call_ensures(amount, (sum,), shown),
    ensures
        sums@[0]@ == total(runs@, now, 1),
        sums@[1]@ == total(runs@, now, 7),
        sums@[2]@ == total(runs@, now, 30),
        shown@ == service_units(sum@),
{
}

} // verus!
