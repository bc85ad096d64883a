//! The balances: what `wallet` reports.

use vstd::prelude::*;

use crate::command::Finished;
use crate::double;
use crate::natural;
use crate::natural::Natural;
use crate::number;
use crate::number::{Number, Reading};
use crate::poller::Poller;
use crate::text;

verus! {

/// How often to re-run `wallet`, in seconds.
///
/// Long, because this is the one command here that is not Slurm. `wallet` is a
/// wrapper that `sudo`s to another account to run the real thing, which asks a
/// billing service: about 80ms of that is the privilege switch and the rest is
/// the query, for some 300 to 600ms all told against the thirty milliseconds
/// `squeue` and `sacct` take. It says itself that it "may take up to 5 seconds
/// or more". Polling it at the rate of the job panes would spend a tenth of
/// the session inside it.
///
/// It does not need to be shorter. A balance moves when a job finishes, and a
/// minute is the longest you would wait to see that — against a cost line that
/// is only ever an estimate anyway, and against spending a tenth of the
/// session asking.
pub const INTERVAL: u64 = 60;

/// One project's service-unit balance.
pub struct Project {
    pub id: String,
    pub balance: Balance,
}

/// A balance.
pub struct Balance {
    /// The service units, as `wallet` wrote them.
    pub written: String,
    /// The service units, to one decimal.
    pub amount: String,
    /// Whether there are fewer than none left.
    pub overdrawn: bool,
}

/// A project as a specification speaks of it.
pub struct ProjectRow {
    pub id: Seq<char>,
    pub written: Seq<char>,
    pub amount: Seq<char>,
    pub overdrawn: bool,
}

impl View for Project {
    type V = ProjectRow;

    open spec fn view(&self) -> ProjectRow {
        ProjectRow {
            id: self.id@,
            written: self.balance.written@,
            amount: self.balance.amount@,
            overdrawn: self.balance.overdrawn,
        }
    }
}

/// The id and the balance in a `PROJECT_ID: …, PROJECT_NAME: …, SU_BALANCE: …`
/// line. The balance is split off from the right: a project name is free text
/// and may itself contain a comma.
pub open spec fn entry_of(line: Seq<char>) -> Option<(Seq<char>, Seq<char>)> {
    match text::halves_at_last(line, ", SU_BALANCE: "@) {
        Some((head, balance)) => if text::begins(head, "PROJECT_ID: "@) {
            match text::halves_at(head.skip("PROJECT_ID: "@.len() as int), ", PROJECT_NAME: "@) {
                Some((id, _)) => Some((text::trimmed(id), text::trimmed(balance))),
                None => None,
            }
        } else {
            None
        },
        None => None,
    }
}

/// A number of service units to one decimal, as double precision has it.
pub open spec fn to_a_tenth(number: Number) -> Seq<char> {
    match number {
        Number::Nan => "NaN"@,
        Number::Infinite { negative } => number::sign(negative) + "inf"@,
        Number::Finite { negative, digits, exponent } => number::sign(negative)
            + double::to_a_tenth(
            digits * natural::ten_to(number::upwards(exponent)),
            natural::ten_to(number::upwards(-exponent)),
        ),
    }
}

/// The power of two by which half of the smallest double is below one.
pub const SMALLEST: u64 = 1075;

/// Whether a number is below zero in double precision: it has a minus, and is
/// not so little that it is nothing.
pub open spec fn is_below_zero(number: Number) -> bool {
    match number {
        Number::Nan => false,
        Number::Infinite { negative } => negative,
        Number::Finite { negative, digits, exponent } => negative && digits * natural::ten_to(
            number::upwards(exponent),
        ) * double::two_to(SMALLEST as nat) > natural::ten_to(number::upwards(-exponent)),
    }
}

/// The project a line is about. Nothing for any other line, or for one whose
/// balance is not a number.
pub open spec fn project_of(line: Seq<char>) -> Option<ProjectRow> {
    match entry_of(line) {
        Some((id, written)) => match number::number_of(written) {
            Some(number) => Some(
                ProjectRow {
                    id,
                    written,
                    amount: to_a_tenth(number),
                    overdrawn: is_below_zero(number),
                },
            ),
            None => None,
        },
        None => None,
    }
}

/// The projects of every line that is about one, in the order of the lines.
pub open spec fn projects_of(lines: Seq<Seq<char>>) -> Seq<ProjectRow>
    decreases lines.len(),
{
    if lines.len() == 0 {
        Seq::empty()
    } else {
        let before = projects_of(lines.drop_last());
        match project_of(lines.last()) {
            Some(project) => before.push(project),
            None => before,
        }
    }
}

/// A list of projects as rows.
pub open spec fn rows(projects: Seq<Project>) -> Seq<ProjectRow> {
    projects.map_values(|project: Project| project@)
}

/// So many times a power of ten, to one decimal.
fn show_units(digits: &Natural, e: i128, Ghost(power): Ghost<int>) -> (r: String)
    requires
        number::tells(e, power),
        e >= -2 * number::MOST,
    ensures
        r@ == double::to_a_tenth(
            digits@ * natural::ten_to(number::upwards(power)),
            natural::ten_to(number::upwards(-power)),
        ),
{
    let ghost num = digits@ * natural::ten_to(number::upwards(power));
    let ghost den = natural::ten_to(number::upwards(-power));
    let one = Natural::of(1);
    proof {
        natural::lemma_ten_is_positive(number::upwards(-power));
        double::lemma_a_little_is_no_tenth(0, 1);
    }
    if !digits.at_least(&one) {
        proof {
            assert(num == 0) by (nonlinear_arith)
                requires
                    num == digits@ * natural::ten_to(number::upwards(power)),
                    digits@ == 0,
            ;
            double::lemma_a_little_is_no_tenth(num, den);
        }
        return double::show_tenths(&Natural::of(0), &one);
    }
    // A power of ten beyond what a double holds is not worth writing out.
    if e > double::FAR as i128 {
        proof {
            natural::lemma_tens_grow(double::FAR as nat, power as nat);
            assert(num >= natural::ten_to(power as nat)) by (nonlinear_arith)
                requires
                    num == digits@ * natural::ten_to(power as nat),
                    digits@ >= 1,
            ;
            assert(natural::ten_to(0) == 1);
            double::lemma_a_great_power_is_infinite(num, 1);
        }
        return "inf".to_string();
    }
    if e >= 0 {
        let top = digits.shifted(e as u128);
        assert(natural::ten_to(0) == 1);
        return double::show_tenths(&top, &one);
    }
    proof {
        natural::lemma_ten_to_zero(digits@ as int);
    }
    let places = digits.len();
    if -e > places as i128 + 1 {
        proof {
            natural::lemma_tens_grow((places + 2) as nat, (-power) as nat);
            assert(natural::ten_to((places + 2) as nat) == 10 * natural::ten_to(
                (places + 1) as nat,
            ));
            double::lemma_a_little_is_no_tenth(num, den);
        }
        return double::show_tenths(&Natural::of(0), &one);
    }
    let bottom = one.shifted((-e) as u128);
    assert(bottom@ == den);
    double::show_tenths(digits, &bottom)
}

/// Whether so many times a power of ten is more than nothing.
fn is_something(digits: &Natural, e: i128, Ghost(power): Ghost<int>) -> (r: bool)
    requires
        number::tells(e, power),
        e >= -2 * number::MOST,
    ensures
        r == (digits@ * natural::ten_to(number::upwards(power)) * double::two_to(SMALLEST as nat)
            > natural::ten_to(number::upwards(-power))),
{
    let ghost num = digits@ * natural::ten_to(number::upwards(power));
    let ghost den = natural::ten_to(number::upwards(-power));
    let ghost smallest = double::two_to(SMALLEST as nat);
    let one = Natural::of(1);
    proof {
        natural::lemma_ten_is_positive(number::upwards(power));
        natural::lemma_ten_is_positive(number::upwards(-power));
        double::lemma_twos_trail_tens(SMALLEST as nat);
        double::lemma_twos_trail_tens((SMALLEST - 1) as nat);
        assert(smallest >= 2);
    }
    if !digits.at_least(&one) {
        assert(num * smallest == 0) by (nonlinear_arith)
            requires
                num == digits@ * natural::ten_to(number::upwards(power)),
                digits@ == 0,
        ;
        return false;
    }
    if e >= 0 {
        proof {
            assert(natural::ten_to(0) == 1);
            assert(num * smallest > 1) by (nonlinear_arith)
                requires
                    num == digits@ * natural::ten_to(number::upwards(power)),
                    digits@ >= 1,
                    natural::ten_to(number::upwards(power)) >= 1,
                    smallest >= 2,
            {
                assert(num >= 1);
            }
        }
        return true;
    }
    proof {
        natural::lemma_ten_to_zero(digits@ as int);
    }
    let places = digits.len();
    if -e > places as i128 + SMALLEST as i128 {
        proof {
            let most = natural::ten_to(places as nat);
            let more = natural::ten_to(SMALLEST as nat);
            natural::lemma_tens_multiply(places as nat, SMALLEST as nat);
            natural::lemma_tens_grow((places + SMALLEST) as nat, (-power) as nat);
            assert(num * smallest <= most * more) by (nonlinear_arith)
                requires
                    num <= most,
                    smallest <= more,
            ;
        }
        return false;
    }
    let bottom = one.shifted((-e) as u128);
    assert(bottom@ == den);
    !bottom.at_least(&double::doubled(digits, SMALLEST))
}

/// Read a balance. Nothing for one that is not a number.
fn balance(written: &str) -> (r: Option<Balance>)
    ensures
        match r {
            Some(balance) => {
                &&& number::number_of(written@) matches Some(number)
                &&& balance.written@ == written@
                &&& balance.amount@ == to_a_tenth(number)
                &&& balance.overdrawn == is_below_zero(number)
            },
            None => number::number_of(written@) is None,
        },
{
    match number::read_number(written) {
        Some(Reading::Nan) => Some(
            Balance {
                written: written.to_string(),
                amount: "NaN".to_string(),
                overdrawn: false,
            },
        ),
        Some(Reading::Infinite(negative)) => {
            let mut amount = String::new();
            if negative {
                amount.push('-');
            }
            amount.append("inf");
            assert(amount@ =~= number::sign(negative) + "inf"@);
            Some(Balance { written: written.to_string(), amount, overdrawn: negative })
        },
        Some(Reading::Finite(negative, digits, e)) => {
            let ghost power = number::number_of(written@)->0->exponent;
            let units = show_units(&digits, e, Ghost(power));
            let mut amount = String::new();
            if negative {
                amount.push('-');
            }
            amount.append(units.as_str());
            assert(amount@ =~= number::sign(negative) + units@);
            let overdrawn = negative && is_something(&digits, e, Ghost(power));
            Some(Balance { written: written.to_string(), amount, overdrawn })
        },
        None => None,
    }
}

impl Project {
    /// Parse one `PROJECT_ID: …, PROJECT_NAME: …, SU_BALANCE: …` line. The
    /// INFO lines `wallet` also prints return `None`, as does anything else
    /// unexpected, so one odd line cannot take the whole refresh down.
    pub fn parse(line: &str) -> (r: Option<Self>)
        ensures
            match r {
                Some(project) => project_of(line@) == Some(project@),
                None => project_of(line@) is None,
            },
    {
        match text::rsplit_once_at(line, ", SU_BALANCE: ") {
            Some((head, written)) => match text::strip_prefix(head, "PROJECT_ID: ") {
                Some(rest) => match text::split_once_at(rest, ", PROJECT_NAME: ") {
                    Some((id, _)) => match balance(text::trim(written)) {
                        Some(balance) => Some(
                            Project { id: text::trim(id).to_string(), balance },
                        ),
                        None => None,
                    },
                    None => None,
                },
                None => None,
            },
            None => None,
        }
    }
}

/// Every project a listing reports, in its order.
pub fn read(listing: &str) -> (r: Vec<Project>)
    ensures
        rows(r@) == projects_of(text::lines_of(listing@)),
{
    let lines = text::lines(listing);
    let ghost all = text::views(lines@);
    let mut r: Vec<Project> = Vec::new();
    let mut i: usize = 0;
    assert(rows(r@) =~= projects_of(all.take(0)));
    while i < lines.len()
        invariant
            i <= lines.len(),
            all == text::views(lines@),
            rows(r@) == projects_of(all.take(i as int)),
        decreases lines.len() - i,
    {
        assert(all.take(i + 1).drop_last() == all.take(i as int));
        assert(all.take(i + 1).last() == lines@[i as int]@);
        match Project::parse(lines[i].as_str()) {
            Some(project) => {
                let ghost gone = r@;
                r.push(project);
                assert(rows(r@) == rows(gone).push(project@));
            },
            None => {},
        }
        i += 1;
    }
    assert(all.take(i as int) == all);
    r
}

/// Every project one run of `wallet` reported, or why there are none to read.
pub fn fetched(finished: &Finished) -> (r: Result<Vec<Project>, String>)
    ensures
        match r {
            Ok(found) => finished.outcome("wallet"@) matches Ok(listing) && rows(found@)
                == projects_of(text::lines_of(listing)),
            Err(said) => finished.outcome("wallet"@) == Err::<Seq<char>, Seq<char>>(said@),
        },
{
    match finished.output("wallet") {
        Ok(listing) => Ok(read(listing.as_str())),
        Err(said) => Err(said),
    }
}

/// Start polling `wallet` in the background. There is nothing to vary per
/// fetch, so the request carries no information.
pub fn poll() -> (r: Poller<(), Vec<Project>>)
    ensures
        r.interval == INTERVAL,
        r.requests@ == seq![()],
        r.results@.len() == 0,
{
    Poller::spawn(INTERVAL, ())
}

/// Every line is read on its own: a listing in two parts holds what the parts
/// hold.
pub proof fn lemma_lines_are_read_apart(first: Seq<Seq<char>>, second: Seq<Seq<char>>)
    ensures
        projects_of(first + second) == projects_of(first) + projects_of(second),
    decreases second.len(),
{
    if second.len() == 0 {
        assert(first + second == first);
        assert(projects_of(first) + Seq::empty() == projects_of(first));
    } else {
        lemma_lines_are_read_apart(first, second.drop_last());
        assert((first + second).drop_last() == first + second.drop_last());
        assert(projects_of(first + second) =~= projects_of(first) + projects_of(second));
    }
}

/// One odd line does not take the refresh down: the listing reads as it would
/// without it.
pub proof fn lemma_an_odd_line_costs_only_itself(
    before: Seq<Seq<char>>,
    line: Seq<char>,
    after: Seq<Seq<char>>,
)
    requires
        project_of(line) is None,
    ensures
        projects_of(before.push(line) + after) == projects_of(before + after),
{
    lemma_lines_are_read_apart(before.push(line), after);
    lemma_lines_are_read_apart(before, after);
    assert(before.push(line).drop_last() == before);
}

/// How `wallet` writes a project.
pub open spec fn written(id: Seq<char>, name: Seq<char>, balance: Seq<char>) -> Seq<char> {
    "PROJECT_ID: "@ + id + ", PROJECT_NAME: "@ + name + ", SU_BALANCE: "@ + balance
}

/// A project reads back as it was written, whatever its name holds. A comma in
/// the name is part of the name, and so is anything else that looks like the
/// next field.
pub proof fn lemma_a_project_reads_back(id: Seq<char>, name: Seq<char>, balance: Seq<char>)
    requires
        !id.contains(','),
        !balance.contains(','),
    ensures
        entry_of(written(id, name, balance)) == Some((text::trimmed(id), text::trimmed(balance))),
        match number::number_of(text::trimmed(balance)) {
            Some(number) => project_of(written(id, name, balance)) == Some(
                ProjectRow {
                    id: text::trimmed(id),
                    written: text::trimmed(balance),
                    amount: to_a_tenth(number),
                    overdrawn: is_below_zero(number),
                },
            ),
            None => project_of(written(id, name, balance)) is None,
        },
{
    let start = "PROJECT_ID: "@;
    let middle = ", PROJECT_NAME: "@;
    let end = ", SU_BALANCE: "@;
    assert(middle.len() > 0 && middle[0] == ',') by {
        reveal_strlit(", PROJECT_NAME: ");
    }
    assert(end.len() > 0 && end[0] == ',' && forall|i: int|
        0 < i < end.len() ==> #[trigger] end[i] != ',') by {
        reveal_strlit(", SU_BALANCE: ");
    }
    let head = start + id + middle + name;
    let rest = head.skip(start.len() as int);
    text::lemma_halves_at_the_last(head, end, balance);
    assert(written(id, name, balance) == head + end + balance);
    assert(head.take(start.len() as int) == start);
    assert(rest == id + middle + name);
    text::lemma_halves_at_the_first(id, middle, name);
}

/// One line is one project, or none.
pub proof fn lemma_one_line_is_one_project(line: Seq<char>)
    ensures
        match project_of(line) {
            Some(project) => projects_of(seq![line]) == seq![project],
            None => projects_of(seq![line]) == Seq::<ProjectRow>::empty(),
        },
        projects_of(Seq::empty()) == Seq::<ProjectRow>::empty(),
{
    assert(seq![line].drop_last() == Seq::<Seq<char>>::empty());
    assert(seq![line].last() == line);
    assert(projects_of(seq![line].drop_last()) == Seq::<ProjectRow>::empty());
}

/// A balance written to a tenth is shown as it was written, under the id of its
/// project, and is overdrawn when there is a minus in front of more than
/// nothing.
pub proof fn lemma_a_balance_is_shown_as_written(
    id: Seq<char>,
    name: Seq<char>,
    negative: bool,
    units: nat,
    tenth: nat,
)
    requires
        !id.contains(','),
        tenth < 10,
        4 * (10 * units + tenth) <= double::TOP,
    ensures
        ({
            let balance = number::sign(negative) + text::decimal_of(units) + seq!['.']
                + text::decimal_of(tenth);
            project_of(written(id, name, balance)) == Some(
                ProjectRow {
                    id: text::trimmed(id),
                    written: balance,
                    amount: balance,
                    overdrawn: negative && units + tenth > 0,
                },
            )
        }),
{
    let whole = text::decimal_of(units);
    let fraction = text::decimal_of(tenth);
    let balance = number::sign(negative) + whole + seq!['.'] + fraction;
    let t = 10 * units + tenth;
    text::lemma_decimal_is_digits(units);
    text::lemma_decimal_is_digits(tenth);
    assert(fraction.len() == 1);
    assert(balance =~= number::sign(negative) + number::pointed(whole, fraction));
    number::lemma_a_decimal_reads_as_its_digits(negative, whole, fraction);
    assert((whole + fraction).drop_last() =~= whole);
    assert(fraction.drop_last() =~= Seq::<char>::empty());
    assert(text::digits_value(fraction.drop_last()) == 0);
    assert(text::digits_value(whole + fraction) == t);
    lemma_a_number_is_plain(negative, whole, fraction);
    text::lemma_trimming_takes_what_is_around(Seq::empty(), balance, Seq::empty());
    lemma_a_project_reads_back(id, name, balance);
    assert(natural::ten_to(0) == 1 && natural::ten_to(1) == 10) by {
        reveal_with_fuel(natural::ten_to, 2);
    }
    natural::lemma_ten_to_zero(t as int);
    double::lemma_tenths_are_written_as_they_are(t);
    assert(t / 10 == units && t % 10 == tenth);
    assert(number::sign(negative) + double::tenths(t) =~= balance);
    lemma_more_than_nothing(negative, t, -1);
}

/// A number without a tenth is shown with a zero for it.
pub proof fn lemma_a_whole_balance_has_no_tenth(
    id: Seq<char>,
    name: Seq<char>,
    negative: bool,
    units: nat,
)
    requires
        !id.contains(','),
        32 * units <= double::TOP,
    ensures
        ({
            let balance = number::sign(negative) + text::decimal_of(units);
            project_of(written(id, name, balance)) == Some(
                ProjectRow {
                    id: text::trimmed(id),
                    written: balance,
                    amount: balance + seq!['.', '0'],
                    overdrawn: negative && units > 0,
                },
            )
        }),
{
    let whole = text::decimal_of(units);
    let balance = number::sign(negative) + whole;
    text::lemma_decimal_is_digits(units);
    number::lemma_number_reads_back(units, negative);
    lemma_a_number_is_plain(negative, whole, Seq::empty());
    assert(balance.len() > 0 && !text::is_space(balance[0]) && !text::is_space(balance.last())
        && !balance.contains(',')) by {
        let more = number::sign(negative) + whole + seq!['.'];
        assert forall|i: int| 0 <= i < balance.len() implies !text::is_space(#[trigger] balance[i])
            && balance[i] != ',' by {
            assert(more[i] == balance[i]);
            if i >= number::sign(negative).len() {
                assert(text::is_digit(whole[i - number::sign(negative).len()]));
            }
        }
    }
    text::lemma_trimming_takes_what_is_around(Seq::empty(), balance, Seq::empty());
    lemma_a_project_reads_back(id, name, balance);
    assert(natural::ten_to(0) == 1);
    natural::lemma_ten_to_zero(units as int);
    double::lemma_a_whole_number_has_no_tenths(units);
    assert(number::sign(negative) + (whole + seq!['.', '0']) =~= balance + seq!['.', '0']);
    lemma_more_than_nothing(negative, units, 0);
}

/// A written number holds neither white space nor a comma.
proof fn lemma_a_number_is_plain(negative: bool, whole: Seq<char>, fraction: Seq<char>)
    requires
        text::all_digits(whole),
        text::all_digits(fraction),
    ensures
        ({
            let s = number::sign(negative) + whole + seq!['.'] + fraction;
            !s.contains(',') && s.len() > 0 && !text::is_space(s[0]) && !text::is_space(s.last())
        }),
{
    let sign = number::sign(negative);
    let s = sign + whole + seq!['.'] + fraction;
    assert forall|i: int| 0 <= i < s.len() implies !text::is_space(#[trigger] s[i]) && s[i]
        != ',' by {
        if i < sign.len() {
        } else if i < sign.len() + whole.len() {
            assert(text::is_digit(whole[i - sign.len()]));
        } else if i > sign.len() + whole.len() {
            assert(text::is_digit(fraction[i - sign.len() - whole.len() - 1]));
        }
    }
}

/// A number with a minus is below zero when its digits are more than nothing
/// and it is not beyond the reach of a double; one without is not.
pub proof fn lemma_more_than_nothing(negative: bool, digits: nat, exponent: int)
    requires
        exponent >= -300,
    ensures
        is_below_zero(Number::Finite { negative, digits, exponent }) == (negative && digits > 0),
{
    let up = natural::ten_to(number::upwards(exponent));
    let down = natural::ten_to(number::upwards(-exponent));
    let smallest = double::two_to(SMALLEST as nat);
    natural::lemma_ten_is_positive(number::upwards(exponent));
    natural::lemma_tens_grow(number::upwards(-exponent), 300);
    double::lemma_tens_trail_more_twos(100);
    double::lemma_greater_powers(1000, SMALLEST as nat);
    if digits > 0 {
        assert(digits * up * smallest >= smallest) by (nonlinear_arith)
            requires
                digits >= 1,
                up >= 1,
        {
            assert(digits * up >= 1);
        }
    } else {
        assert(digits * up * smallest == 0) by (nonlinear_arith)
            requires
                digits == 0,
        ;
    }
}

/// What has no number for a balance, or says nothing of a project, is no
/// project.
pub proof fn lemma_other_lines_are_no_projects(line: Seq<char>)
    ensures
        !text::begins(line, "PROJECT_ID: "@) ==> project_of(line) is None,
        project_of(line) matches Some(project) ==> number::number_of(project.written) is Some,
        (forall|i: int| !text::occurs(line, ", SU_BALANCE: "@, i)) ==> project_of(line) is None,
        (forall|i: int| !text::occurs(line, ", PROJECT_NAME: "@, i)) ==> project_of(line) is None,
{
    let end = ", SU_BALANCE: "@;
    let start = "PROJECT_ID: "@;
    let middle = ", PROJECT_NAME: "@;
    text::lemma_find_back_is_the_last(line, end, line.len() - end.len());
    match text::halves_at_last(line, end) {
        Some((head, balance)) => {
            let at = text::find_back(line, end, line.len() - end.len())->0;
            assert(head == line.take(at));
            if text::begins(head, start) {
                assert(line.take(start.len() as int) =~= head.take(start.len() as int));
                let rest = head.skip(start.len() as int);
                text::lemma_find_is_the_first(rest, middle, 0);
                match text::halves_at(rest, middle) {
                    Some((id, _)) => {
                        let k = text::find_from(rest, middle, 0)->0;
                        assert(line.subrange(
                            start.len() + k,
                            start.len() + k + middle.len(),
                        ) =~= rest.subrange(k, k + middle.len()));
                        assert(text::occurs(line, middle, start.len() + k));
                    },
                    None => {},
                }
            }
        },
        None => {},
    }
}

/// Any balance is shown to the nearest tenth, or nearly: no further from it than
/// seven tenths of one, as long as a double has a few bits to spare for it. Its
/// sign stays.
pub proof fn lemma_any_balance_is_near_its_tenth(negative: bool, digits: nat, exponent: int) -> (t:
    nat)
    requires
        32 * (digits * natural::ten_to(number::upwards(exponent))) <= double::TOP
            * natural::ten_to(number::upwards(-exponent)),
    ensures
        ({
            let num = digits * natural::ten_to(number::upwards(exponent));
            let den = natural::ten_to(number::upwards(-exponent));
            &&& to_a_tenth(Number::Finite { negative, digits, exponent }) == number::sign(negative)
                + double::tenths(t)
            &&& 10 * (t * den) <= 10 * (10 * num) + 7 * den
            &&& 10 * (10 * num) <= 10 * (t * den) + 7 * den
        }),
{
    natural::lemma_ten_is_positive(number::upwards(-exponent));
    double::lemma_the_tenth_is_near(
        digits * natural::ten_to(number::upwards(exponent)),
        natural::ten_to(number::upwards(-exponent)),
    )
}

/// What is no number is shown as that and is not overdrawn; what is without end
/// is overdrawn when there is a minus in front of it.
pub proof fn lemma_balances_beyond_numbers(negative: bool)
    ensures
        to_a_tenth(Number::Nan) == "NaN"@,
        !is_below_zero(Number::Nan),
        to_a_tenth(Number::Infinite { negative }) == number::sign(negative) + "inf"@,
        is_below_zero(Number::Infinite { negative }) == negative,
{
}

/// The projects are listed as they were reported, first to last, every one of
/// them.
pub proof fn lemma_projects_are_listed_as_reported(listing: &str, listed: Vec<Project>, i: int)
    requires
        call_ensures(read, (listing,), listed),
        0 <= i < listed@.len(),
    ensures
        ({
            let projects = projects_of(text::lines_of(listing@));
            listed@.len() == projects.len() && listed@[i]@ == projects[i]
        }),
{
    assert(rows(listed@).len() == listed@.len());
    assert(rows(listed@)[i] == listed@[i]@);
}

/// A listing is read when the command succeeded, and what went wrong is told
/// when it did not.
pub proof fn lemma_a_listing_is_read_or_what_went_wrong_told(
    finished: &Finished,
    fetched: Result<Vec<Project>, String>,
)
    requires
        call_ensures(self::fetched, (finished,), fetched),
    ensures
        fetched is Ok <==> finished.success,
        fetched matches Ok(projects) ==> rows(projects@) == projects_of(
            text::lines_of(text::utf8_lossy(finished.stdout@)),
        ),
        fetched matches Err(said) ==> text::begins(said@, "wallet"@ + " exited with "@),
{
    if let Err(said) = fetched {
        let front = "wallet"@ + " exited with "@;
        assert(said@.take(front.len() as int) =~= front);
    }
}

/// A project that was read from a line holds its id and its balance, as written
/// and to a tenth, in its own fields.
pub proof fn lemma_a_project_holds_what_its_line_says(
    line: &str,
    id: Seq<char>,
    name: Seq<char>,
    balance: Seq<char>,
    read: Option<Project>,
)
    requires
        call_ensures(Project::parse, (line,), read),
        line@ == written(id, name, balance),
        !id.contains(','),
        !balance.contains(','),
    ensures
        match number::number_of(text::trimmed(balance)) {
            Some(number) => read is Some && {
                let project = read->0;
                &&& project.id@ == text::trimmed(id)
                &&& project.balance.written@ == text::trimmed(balance)
                &&& project.balance.amount@ == to_a_tenth(number)
                &&& project.balance.overdrawn == is_below_zero(number)
            },
            None => read is None,
        },
{
    lemma_a_project_reads_back(id, name, balance);
}

} // verus!
