//! How long a life is, how much of it has passed and how much is left.
//!
//! Years are sixteen-bit numbers, as in [`Date`]: a lifespan may be anything from -32768
//! to 32767 years, and the functions that compute the day of death ask that its year is
//! one that a [`Date`] can hold. Counts of days, weeks and months are 32-bit numbers, which
//! hold every difference between two dates.

use crate::calendar::{add_months, add_years, days_since, next_valid, prev_valid};
use crate::date::{
    is_leap_year, lemma_day_number_bounds, lemma_day_number_grows, CalDate, Date, InvalidDay,
};
use vstd::prelude::*;

verus! {

/// The day of death for a birthday and a lifespan in years: the birthday's month and day
/// that many years later, or the last day of that month where it has no such day.
pub open spec fn death_date(birthday: CalDate, years: int) -> CalDate {
    birthday.shifted_years(years).or_prev_valid()
}

/// The number of days from `from` to `to`; negative if `to` is the earlier day.
pub open spec fn days_from_to(from: CalDate, to: CalDate) -> int {
    to.day_number() - from.day_number()
}

/// The quotient of `a` by `b`, rounded toward zero.
pub open spec fn quotient_toward_zero(a: int, b: int) -> int
    recommends
        b > 0,
{
    if a >= 0 {
        a / b
    } else {
        -((-a) / b)
    }
}

/// Whether the day of death for this birthday and lifespan is a day that a [`Date`] can
/// hold.
pub open spec fn death_date_fits(birthday: CalDate, years: int) -> bool {
    i16::MIN <= birthday.year + years <= i16::MAX
}

/// The three numbers that a move by whole years or months reached, whether they are a
/// date or not.
spec fn reached(moved: Result<Date, InvalidDay>) -> CalDate {
    match moved {
        Ok(date) => date@,
        Err(numbers) => numbers@,
    }
}

/// A move by whole years or months started from a date: what it reached has a month and
/// a day of some month, and is an error just where the month it reached has no such day.
spec fn is_move(moved: Result<Date, InvalidDay>) -> bool {
    &&& 1 <= reached(moved).month <= 12
    &&& 1 <= reached(moved).day <= 31
    &&& moved is Ok <==> reached(moved).valid()
}

/// The date for the result of a move by whole years or months: the date that it reached,
/// or the last day of the month that it reached.
fn or_prev_valid(moved: Result<Date, InvalidDay>) -> (r: Date)
    requires
        is_move(moved),
    ensures
        r@ == reached(moved).or_prev_valid(),
{
    match moved {
        Ok(d) => d,
        Err(e) => prev_valid(e),
    }
}

/// The date for the result of a move by whole years or months: the date that it reached,
/// or the first day of the month after the one that it reached.
fn or_next_valid(moved: Result<Date, InvalidDay>) -> (r: Date)
    requires
        is_move(moved),
    ensures
        r@ == reached(moved).or_next_valid(),
{
    match moved {
        Ok(d) => d,
        Err(e) => next_valid(e),
    }
}

/// The birthday's month and day `n` years later, or, where that month has no such day,
/// the first day of the next month (`up`) or the last day of that month.
pub open spec fn yearly_mark(birthday: CalDate, n: int, up: bool) -> CalDate {
    if up {
        birthday.shifted_years(n).or_next_valid()
    } else {
        birthday.shifted_years(n).or_prev_valid()
    }
}

/// The birthday's day `n` months later, or, where that month has no such day, the first
/// day of the next month (`up`) or the last day of that month.
pub open spec fn monthly_mark(birthday: CalDate, n: int, up: bool) -> CalDate {
    if up {
        birthday.shifted_months(n).or_next_valid()
    } else {
        birthday.shifted_months(n).or_prev_valid()
    }
}

/// `n` is the first number from zero on whose yearly mark is not before `today`.
pub open spec fn is_first_year_reaching(
    birthday: CalDate,
    today: CalDate,
    up: bool,
    n: int,
) -> bool {
    &&& 0 <= n
    &&& !yearly_mark(birthday, n, up).is_before(today)
    &&& forall|k: int| 0 <= k < n ==> (#[trigger] yearly_mark(birthday, k, up)).is_before(today)
}

/// `n` is the first number from zero on whose monthly mark is not before `today`.
pub open spec fn is_first_month_reaching(
    birthday: CalDate,
    today: CalDate,
    up: bool,
    n: int,
) -> bool {
    &&& 0 <= n
    &&& !monthly_mark(birthday, n, up).is_before(today)
    &&& forall|k: int| 0 <= k < n ==> (#[trigger] monthly_mark(birthday, k, up)).is_before(today)
}

/// The number of birthdays that have passed by `today`, the day itself counted; -1
/// before the day of birth. A birthday on the 29th of February is kept on the 28th in
/// a year that has no 29th.
pub open spec fn full_years(birthday: CalDate, today: CalDate) -> int {
    if today.is_before(birthday) {
        -1
    } else if today.is_before(yearly_mark(birthday, today.year - birthday.year, false)) {
        today.year - birthday.year - 1
    } else {
        today.year - birthday.year
    }
}

/// The number of yearly marks of a life, counted from the day of birth, that lie before
/// `today`: none up to the day of birth, one from the day after it.
pub open spec fn yearly_marks_before(birthday: CalDate, today: CalDate, up: bool) -> int {
    let years = today.year - birthday.year;
    if !birthday.is_before(today) {
        0
    } else if yearly_mark(birthday, years, up).is_before(today) {
        years + 1
    } else {
        years
    }
}

/// The number of monthly marks of a life, counted from the day of birth, that lie before
/// `today`: none up to the day of birth, one from the day after it.
pub open spec fn monthly_marks_before(birthday: CalDate, today: CalDate, up: bool) -> int {
    let months = 12 * (today.year - birthday.year) + (today.month - birthday.month);
    if !birthday.is_before(today) {
        0
    } else if months >= 1 && !monthly_mark(birthday, months - 1, up).is_before(today) {
        // The mark of the month before was moved up to the first day of this month, and
        // that day is today.
        months - 1
    } else if monthly_mark(birthday, months, up).is_before(today) {
        months + 1
    } else {
        months
    }
}

/// The first year whose mark is not before `today` is the number of marks before it.
pub proof fn lemma_yearly_marks_before(birthday: CalDate, today: CalDate, up: bool, n: int)
    requires
        birthday.valid(),
        today.valid(),
        is_first_year_reaching(birthday, today, up, n),
    ensures
        n == yearly_marks_before(birthday, today, up),
{
    if n > 0 {
        assert(yearly_mark(birthday, n - 1, up).is_before(today));
        assert(yearly_mark(birthday, 0, up).is_before(today));
    }
}

/// A monthly mark lies in the month that many months after the month of birth or, where
/// it was moved up, on the first day of the month after that.
proof fn lemma_monthly_mark_month(birthday: CalDate, n: int, up: bool)
    requires
        birthday.valid(),
    ensures
        ({
            let mark = monthly_mark(birthday, n, up);
            let month = 12 * mark.year + mark.month;
            let reached = 12 * birthday.year + birthday.month + n;
            &&& 1 <= mark.month <= 12
            &&& month == reached || (up && month == reached + 1 && mark.day == 1)
        }),
{
    let months = birthday.month - 1 + n;
    assert(12 * (birthday.year + months / 12) + months % 12 == 12 * birthday.year + months);
}

/// The first month whose mark is not before `today` is the number of marks before it.
pub proof fn lemma_monthly_marks_before(birthday: CalDate, today: CalDate, up: bool, n: int)
    requires
        birthday.valid(),
        today.valid(),
        is_first_month_reaching(birthday, today, up, n),
    ensures
        n == monthly_marks_before(birthday, today, up),
{
    let months = 12 * (today.year - birthday.year) + (today.month - birthday.month);
    lemma_monthly_mark_month(birthday, n, up);
    lemma_monthly_mark_month(birthday, months, up);
    if n > 0 {
        assert(monthly_mark(birthday, n - 1, up).is_before(today));
        assert(monthly_mark(birthday, 0, up).is_before(today));
        lemma_monthly_mark_month(birthday, n - 1, up);
        if months >= 1 {
            lemma_monthly_mark_month(birthday, months - 1, up);
        }
    }
}

/// The yearly mark of `birthday` after `n` years.
fn yearly_mark_at(birthday: Date, n: i32, up: bool) -> (r: Date)
    requires
        0 <= n,
        birthday@.year + n <= i16::MAX,
    ensures
        r@ == yearly_mark(birthday@, n as int, up),
{
    proof {
        use_type_invariant(&birthday);
        birthday.lemma_valid();
    }
    // The years are added in sixteen bits: whole cycles of 400 years, after which the
    // calendar repeats, are taken first.
    let cycles: i32 = n / 400;
    let rest: i32 = n % 400;
    let base = birthday.cycles_later(cycles as i16);
    let moved = add_years(base, rest as i16);
    assert(base@.shifted_years(rest as int) == birthday@.shifted_years(n as int));
    if up {
        or_next_valid(moved)
    } else {
        or_prev_valid(moved)
    }
}

/// The monthly mark of `birthday` after `n` months.
fn monthly_mark_at(birthday: Date, n: i32, up: bool) -> (r: Date)
    requires
        0 <= n <= 12 * 65536,
        birthday@.year + (birthday@.month - 1 + n) / 12 <= i16::MAX,
    ensures
        r@ == monthly_mark(birthday@, n as int, up),
{
    proof {
        use_type_invariant(&birthday);
        birthday.lemma_valid();
    }
    // As for the years: 4800 months are 400 years.
    let cycles: i32 = n / 4800;
    let rest: i32 = n % 4800;
    let base = birthday.cycles_later(cycles as i16);
    let moved = add_months(base, rest);
    assert(base@.shifted_months(rest as int) == birthday@.shifted_months(n as int)) by {
        let m = birthday@.month - 1;
        assert((m + n) / 12 == 400 * cycles + (m + rest) / 12);
        assert((m + n) % 12 == (m + rest) % 12);
    }
    if up {
        or_next_valid(moved)
    } else {
        or_prev_valid(moved)
    }
}

/// The first number of years from zero on after which the yearly mark of `birthday` is
/// not before `today`.
fn years_until_reached(today: Date, birthday: Date, up: bool) -> (n: i32)
    ensures
        is_first_year_reaching(birthday@, today@, up, n as int),
        n == yearly_marks_before(birthday@, today@, up),
        0 <= n <= 65536,
{
    proof {
        use_type_invariant(&birthday);
        use_type_invariant(&today);
        birthday.lemma_valid();
        today.lemma_valid();
    }
    let mut inc: i32 = 0;
    let mut reached = false;
    while !reached
        invariant
            birthday@.valid(),
            today@.valid(),
            i16::MIN <= birthday@.year <= i16::MAX,
            i16::MIN <= today@.year <= i16::MAX,
            0 <= inc <= 65536,
            reached ==> !yearly_mark(birthday@, inc as int, up).is_before(today@),
            forall|k: int|
                0 <= k < inc ==> (#[trigger] yearly_mark(birthday@, k, up)).is_before(today@),
        decreases 65536 - inc + if reached { 0int } else { 1int },
    {
        if birthday.year() as i32 + inc > i16::MAX as i32 {
            // The mark lies in a year after every year that `today` can have.
            reached = true;
        } else {
            let mark = yearly_mark_at(birthday, inc, up);
            if mark.is_before(&today) {
                inc = inc + 1;
            } else {
                reached = true;
            }
        }
    }
    proof {
        lemma_yearly_marks_before(birthday@, today@, up, inc as int);
    }
    inc
}

/// The first number of months from zero on after which the monthly mark of `birthday`
/// is not before `today`.
fn months_until_reached(today: Date, birthday: Date, up: bool) -> (n: i32)
    ensures
        is_first_month_reaching(birthday@, today@, up, n as int),
        n == monthly_marks_before(birthday@, today@, up),
        0 <= n <= 12 * 65536,
{
    proof {
        use_type_invariant(&birthday);
        use_type_invariant(&today);
        birthday.lemma_valid();
        today.lemma_valid();
    }
    let mut inc: i32 = 0;
    let mut reached = false;
    while !reached
        invariant
            birthday@.valid(),
            today@.valid(),
            i16::MIN <= birthday@.year <= i16::MAX,
            i16::MIN <= today@.year <= i16::MAX,
            0 <= inc <= 12 * 65536,
            reached ==> !monthly_mark(birthday@, inc as int, up).is_before(today@),
            forall|k: int|
                0 <= k < inc ==> (#[trigger] monthly_mark(birthday@, k, up)).is_before(today@),
        decreases 12 * 65536 - inc + if reached { 0int } else { 1int },
    {
        let year: i32 = birthday.year() as i32 + (birthday.month() as i32 - 1 + inc) / 12;
        if year > i16::MAX as i32 {
            // The mark lies in a year after every year that `today` can have.
            reached = true;
        } else {
            let mark = monthly_mark_at(birthday, inc, up);
            if mark.is_before(&today) {
                inc = inc + 1;
            } else {
                reached = true;
            }
        }
    }
    proof {
        lemma_monthly_marks_before(birthday@, today@, up, inc as int);
    }
    inc
}

/// Compute the estimated day you will die.
///
/// The year of that day has to be one that a [`Date`] can hold;
/// [`checked_death_day`] tells whether it is.
pub fn death_day(birthday: Date, lifespan_years: i16) -> (r: Date)
    requires
        death_date_fits(birthday@, lifespan_years as int),
    ensures
        r@ == death_date(birthday@, lifespan_years as int),
        r@.valid(),
{
    proof {
        use_type_invariant(&birthday);
        birthday.lemma_valid();
    }
    or_prev_valid(add_years(birthday, lifespan_years))
}

/// The estimated day you will die, or nothing where its year is beyond what a [`Date`]
/// can hold.
pub fn checked_death_day(birthday: Date, lifespan_years: i16) -> (r: Option<Date>)
    ensures
        r is Some <==> death_date_fits(birthday@, lifespan_years as int),
        r is Some ==> r->Some_0@ == death_date(birthday@, lifespan_years as int),
{
    let year: i32 = birthday.year() as i32 + lifespan_years as i32;
    if year < i16::MIN as i32 || year > i16::MAX as i32 {
        None
    } else {
        Some(death_day(birthday, lifespan_years))
    }
}

/// The number of days from `from` to `to`; negative if `to` is the earlier day.
pub fn days_between(from: Date, to: Date) -> (r: i32)
    ensures
        r == days_from_to(from@, to@),
{
    proof {
        use_type_invariant(&from);
        use_type_invariant(&to);
        from.lemma_valid();
        to.lemma_valid();
        lemma_day_number_bounds(from@);
        lemma_day_number_bounds(to@);
    }
    // The calendar repeats every 400 years, which are 146097 days: a date too early for
    // the subtraction is moved up by as much, and the count is corrected.
    let (start, start_moved) = later_twin(from);
    let (end, end_moved) = later_twin(to);
    proof {
        lemma_day_number_bounds(start@);
        lemma_day_number_bounds(end@);
    }
    let mut days = days_since(start, end);
    if start_moved {
        days = days + 146097;
    }
    if end_moved {
        days = days - 146097;
    }
    days
}

/// A date with the same place in the 400-year cycle and a year from -32400 on: the date
/// itself, or the one 400 years later.
fn later_twin(date: Date) -> (r: (Date, bool))
    ensures
        r.0@.valid(),
        -32400 <= r.0@.year <= i16::MAX,
        !r.1 ==> r.0@ == date@,
        r.1 ==> r.0@.day_number() == date@.day_number() + 146097,
{
    proof {
        use_type_invariant(&date);
        date.lemma_valid();
    }
    if date.year() < -32400 {
        (date.cycles_later(1), true)
    } else {
        (date, false)
    }
}

/// Compute the estimated lifespan in days, given a lifespan in years.
pub fn lifespan_days(birthday: Date, lifespan_years: i16) -> (r: i32)
    requires
        death_date_fits(birthday@, lifespan_years as int),
    ensures
        r == days_from_to(birthday@, death_date(birthday@, lifespan_years as int)),
{
    let deathday = death_day(birthday, lifespan_years);
    days_between(birthday, deathday)
}

/// Compute the estimated lifespan in weeks, given a lifespan in years.
pub fn lifespan_weeks(lifespan_years: i16) -> (r: i32)
    ensures
        r == lifespan_years * 52,
{
    lifespan_years as i32 * 52
}

/// Compute the estimated lifespan in months, given a lifespan in years.
pub fn lifespan_months(lifespan_years: i16) -> (r: i32)
    ensures
        r == lifespan_years * 12,
{
    lifespan_years as i32 * 12
}

/// Compute the number of days lived since birth.
pub fn days_lived(today: Date, birthday: Date) -> (r: i32)
    ensures
        r == days_from_to(birthday@, today@),
{
    days_between(birthday, today)
}

/// Compute the number of weeks lived since birth.
pub fn weeks_lived(today: Date, birthday: Date) -> (r: i32)
    ensures
        r == quotient_toward_zero(days_from_to(birthday@, today@), 7),
{
    days_lived(today, birthday) / 7
}

/// Compute the number of months lived since birth: the months that have begun, counted
/// from the day of birth; zero on that day and before it. A month begins on the
/// birthday's day of the month, or on the last day of a month that has no such day.
pub fn months_lived(today: Date, birthday: Date) -> (r: i32)
    ensures
        r == monthly_marks_before(birthday@, today@, false),
{
    months_until_reached(today, birthday, false)
}

/// Compute the number of years lived since birth: the number of birthdays that have passed,
/// the day itself counted, and -1 before the day of birth.
pub fn years_lived(today: Date, birthday: Date) -> (r: i32)
    ensures
        r == full_years(birthday@, today@),
{
    proof {
        use_type_invariant(&birthday);
        use_type_invariant(&today);
        birthday.lemma_valid();
        today.lemma_valid();
    }
    let year_inc = years_until_reached(today, birthday, false);
    let on_the_day: bool = if birthday.year() as i32 + year_inc > i16::MAX as i32 {
        false
    } else {
        let new_date = yearly_mark_at(birthday, year_inc, false);
        !today.is_before(&new_date)
    };
    proof {
        if year_inc > 0 {
            assert(yearly_mark(birthday@, year_inc - 1, false).is_before(today@));
        }
    }
    if on_the_day {
        year_inc
    } else {
        year_inc - 1
    }
}

/// Compute the estimated number of weeks of life remaining, given a lifespan in years:
/// 52 for each year of the lifespan that has not begun. A year begins on the birthday,
/// or on the 1st of March where the birthday is a 29th of February that the year lacks.
pub fn weeks_left(today: Date, birthday: Date, lifespan_years: i16) -> (r: i32)
    ensures
        r == (lifespan_years - yearly_marks_before(birthday@, today@, true)) * 52,
{
    let inc = years_until_reached(today, birthday, true);
    (lifespan_years as i32 - inc) * 52
}

/// Compute the estimated number of months of life remaining, given a lifespan in years:
/// those of the lifespan that have not begun. A month begins on the birthday's day of
/// the month, or on the first day of the next month where the month has no such day.
pub fn months_left(today: Date, birthday: Date, lifespan_years: i16) -> (r: i32)
    ensures
        r == lifespan_years * 12 - monthly_marks_before(birthday@, today@, true),
{
    let inc = months_until_reached(today, birthday, true);
    lifespan_years as i32 * 12 - inc
}

/// Compute the estimated number of years of life remaining, given a lifespan in years:
/// those of the lifespan that have not begun. A year begins on the birthday, or on the
/// 1st of March where the birthday is a 29th of February that the year lacks.
pub fn years_left(today: Date, birthday: Date, lifespan_years: i16) -> (r: i32)
    ensures
        r == lifespan_years - yearly_marks_before(birthday@, today@, true),
{
    let inc = years_until_reached(today, birthday, true);
    lifespan_years as i32 - inc
}

/// Compute the estimated number of days of life remaining, given a lifespan in years.
pub fn days_left(today: Date, birthday: Date, lifespan_years: i16) -> (r: i32)
    requires
        death_date_fits(birthday@, lifespan_years as int),
    ensures
        r == days_from_to(today@, death_date(birthday@, lifespan_years as int)),
{
    days_between(today, death_day(birthday, lifespan_years))
}

/// The day of death exists, in the month of the birthday, on the birthday's day of the
/// month or, only for a birthday on the 29th of February in a year without one, on the
/// 28th.
pub proof fn lemma_death_date_keeps_month_and_day(birthday: CalDate, years: int)
    requires
        birthday.valid(),
    ensures
        death_date(birthday, years).valid(),
        death_date(birthday, years).year == birthday.year + years,
        death_date(birthday, years).month == birthday.month,
        death_date(birthday, years).day <= birthday.day,
        death_date(birthday, years).day != birthday.day <==> birthday.is_leap_day()
            && !is_leap_year(birthday.year + years),
        death_date(birthday, years).day != birthday.day ==> death_date(birthday, years).day
            == 28,
{
}

/// With a lifespan that is not negative, the day of death is not before the day of
/// birth, and the lifespan in days is not negative.
pub proof fn lemma_death_not_before_birth(birthday: CalDate, years: int)
    requires
        birthday.valid(),
        years >= 0,
    ensures
        !death_date(birthday, years).is_before(birthday),
        days_from_to(birthday, death_date(birthday, years)) >= 0,
{
    let death = death_date(birthday, years);
    if birthday.is_before(death) {
        lemma_day_number_grows(birthday, death);
    } else {
        assert(death == birthday);
    }
}

/// Counted in days, a life is as long as what has been lived and what is left together.
pub proof fn lemma_days_lived_and_left(birthday: CalDate, today: CalDate, years: int)
    ensures
        days_from_to(birthday, today) + days_from_to(today, death_date(birthday, years))
            == days_from_to(birthday, death_date(birthday, years)),
{
}

/// On each birthday, the count of full years goes up by one: from the `n`th birthday
/// until the day before the next one, `n` years have been lived.
pub proof fn lemma_full_years_between_birthdays(birthday: CalDate, today: CalDate, n: int)
    requires
        birthday.valid(),
        today.valid(),
        n >= 0,
        !today.is_before(yearly_mark(birthday, n, false)),
        today.is_before(yearly_mark(birthday, n + 1, false)),
    ensures
        full_years(birthday, today) == n,
{
}

} // verus!
