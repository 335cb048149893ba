//! Calendar dates: the mathematical model and the executable type.

use vstd::arithmetic::div_mod::{lemma_hoist_over_denominator, lemma_mod_multiples_vanish};
use vstd::prelude::*;

verus! {

/// Whether `year` has a 29th of February. Year zero has one.
pub open spec fn is_leap_year(year: int) -> bool {
    year % 4 == 0 && (year % 100 != 0 || year % 400 == 0)
}

/// The number of days of `month` (1 to 12) in `year`.
pub open spec fn days_in_month(year: int, month: int) -> int {
    if month == 2 {
        if is_leap_year(year) {
            29
        } else {
            28
        }
    } else if month == 4 || month == 6 || month == 9 || month == 11 {
        30
    } else {
        31
    }
}

/// The number of days of `year` that lie before the first day of `month`.
pub open spec fn days_before_month(year: int, month: int) -> int
    decreases month,
{
    if month <= 1 {
        0
    } else {
        days_before_month(year, month - 1) + days_in_month(year, month - 1)
    }
}

/// The number of leap years from year zero up to `year`, `year` itself left out.
/// It is negative for a negative `year`.
pub open spec fn leap_years_before(year: int) -> int {
    (year + 3) / 4 - (year + 99) / 100 + (year + 399) / 400
}

/// The number of days from the first day of year zero to the first day of `year`.
pub open spec fn days_before_year(year: int) -> int {
    365 * year + leap_years_before(year)
}

/// A date as a mathematical value. The year is not bounded.
pub struct CalDate {
    pub year: int,
    pub month: int,
    pub day: int,
}

impl CalDate {
    /// The date exists in the calendar.
    pub open spec fn valid(self) -> bool {
        &&& 1 <= self.month <= 12
        &&& 1 <= self.day <= days_in_month(self.year, self.month)
    }

    /// `self` is an earlier day than `other`.
    pub open spec fn is_before(self, other: CalDate) -> bool {
        self.year < other.year || (self.year == other.year && (self.month < other.month || (
        self.month == other.month && self.day < other.day)))
    }

    /// The number of days from the first day of year zero to `self`.
    pub open spec fn day_number(self) -> int {
        days_before_year(self.year) + days_before_month(self.year, self.month) + self.day - 1
    }

    /// The 29th of February.
    pub open spec fn is_leap_day(self) -> bool {
        self.month == 2 && self.day == 29
    }

    /// The day after `self`.
    pub open spec fn successor(self) -> CalDate {
        if self.day < days_in_month(self.year, self.month) {
            CalDate { year: self.year, month: self.month, day: self.day + 1 }
        } else if self.month < 12 {
            CalDate { year: self.year, month: self.month + 1, day: 1 }
        } else {
            CalDate { year: self.year + 1, month: 1, day: 1 }
        }
    }

    /// The same month and day `years` years later. It need not exist.
    pub open spec fn shifted_years(self, years: int) -> CalDate {
        CalDate { year: self.year + years, month: self.month, day: self.day }
    }

    /// The same day `months` months later. It need not exist.
    pub open spec fn shifted_months(self, months: int) -> CalDate {
        CalDate {
            year: self.year + (self.month - 1 + months) / 12,
            month: (self.month - 1 + months) % 12 + 1,
            day: self.day,
        }
    }

    /// `self` if it exists, else the last day of its month.
    pub open spec fn or_prev_valid(self) -> CalDate {
        if self.day <= days_in_month(self.year, self.month) {
            self
        } else {
            self.last_of_month()
        }
    }

    /// `self` if it exists, else the first day of the month after it.
    pub open spec fn or_next_valid(self) -> CalDate {
        if self.day <= days_in_month(self.year, self.month) {
            self
        } else {
            self.first_of_next_month()
        }
    }

    /// The last day of the month of `self`.
    pub open spec fn last_of_month(self) -> CalDate {
        CalDate { year: self.year, month: self.month, day: days_in_month(self.year, self.month) }
    }

    /// The first day of the month after the month of `self`.
    pub open spec fn first_of_next_month(self) -> CalDate {
        if self.month < 12 {
            CalDate { year: self.year, month: self.month + 1, day: 1 }
        } else {
            CalDate { year: self.year + 1, month: 1, day: 1 }
        }
    }
}

/// A year, a month and a day that the month does not have: what is left when a date is
/// moved by whole years or months and lands on such a day.
#[derive(Clone, Copy, Debug, PartialEq, Eq, Structural)]
pub struct InvalidDay {
    pub year: i16,
    pub month: u8,
    pub day: u8,
}

impl View for InvalidDay {
    type V = CalDate;

    open spec fn view(&self) -> CalDate {
        CalDate { year: self.year as int, month: self.month as int, day: self.day as int }
    }
}

/// Why three numbers are no date.
#[derive(Clone, Copy, Debug, PartialEq, Eq, Structural)]
pub enum InvalidDate {
    /// The month is not one of 1 to 12.
    InvalidMonthNumber,
    /// The month has no such day in that year.
    InvalidDayOfMonth,
}

/// A date of the calendar, with a year that fits sixteen bits.
#[derive(Clone, Copy, Debug, PartialEq, Eq, Structural)]
pub struct Date {
    pub(crate) year: i16,
    pub(crate) month: u8,
    pub(crate) day: u8,
}

impl View for Date {
    type V = CalDate;

    closed spec fn view(&self) -> CalDate {
        CalDate { year: self.year as int, month: self.month as int, day: self.day as int }
    }
}

impl Date {
    /// What holds of every date: it exists in the calendar.
    #[verifier::type_invariant]
    pub closed spec fn well_formed(self) -> bool {
        self@.valid()
    }

    /// The date of the given year, month (from 1) and day (from 1), if there is one.
    pub fn new(year: i16, month: u8, day: u8) -> (r: Result<Date, InvalidDate>)
        ensures
            r is Ok <==> (CalDate {
                year: year as int,
                month: month as int,
                day: day as int,
            }).valid(),
            r is Ok ==> r->Ok_0@ == (CalDate {
                year: year as int,
                month: month as int,
                day: day as int,
            }),
            r is Err ==> (r->Err_0 == InvalidDate::InvalidMonthNumber <==> !(1 <= month <= 12)),
    {
        if month < 1 || month > 12 {
            return Err(InvalidDate::InvalidMonthNumber);
        }
        if day < 1 || day > month_length(year, month) {
            return Err(InvalidDate::InvalidDayOfMonth);
        }
        Ok(Date { year, month, day })
    }

    /// The year.
    pub fn year(&self) -> (r: i16)
        ensures
            r == self@.year,
    {
        self.year
    }

    /// The month, from 1.
    pub fn month(&self) -> (r: u8)
        ensures
            r == self@.month,
            1 <= r <= 12,
    {
        proof {
            use_type_invariant(self);
        }
        self.month
    }

    /// The day of the month, from 1.
    pub fn day(&self) -> (r: u8)
        ensures
            r == self@.day,
            1 <= r <= days_in_month(self@.year, self@.month),
    {
        proof {
            use_type_invariant(self);
        }
        self.day
    }

    /// Whether `self` is an earlier day than `other`.
    pub fn is_before(&self, other: &Date) -> (r: bool)
        ensures
            r == self@.is_before(other@),
    {
        self.year < other.year || (self.year == other.year && (self.month < other.month || (
        self.month == other.month && self.day < other.day)))
    }

    /// The same month and day `cycles` times 400 years later: the calendar repeats after
    /// 400 years, so that day exists.
    pub fn cycles_later(self, cycles: i16) -> (r: Date)
        requires
            i16::MIN <= self@.year + 400 * cycles <= i16::MAX,
        ensures
            r@ == self@.shifted_years(400 * cycles),
            r@.valid(),
            r@.day_number() == self@.day_number() + 146097 * cycles,
    {
        proof {
            use_type_invariant(&self);
            lemma_whole_cycles(self@, cycles as int);
        }
        let year = (self.year as i32 + 400 * (cycles as i32)) as i16;
        Date { year, month: self.month, day: self.day }
    }

    /// A well-formed date exists in the calendar, and its year fits sixteen bits.
    pub proof fn lemma_valid(self)
        requires
            self.well_formed(),
        ensures
            self@.valid(),
            i16::MIN <= self@.year <= i16::MAX,
    {
    }
}

/// Whether `year` has a 29th of February.
pub fn has_leap_day(year: i16) -> (r: bool)
    ensures
        r == is_leap_year(year as int),
{
    year % 4 == 0 && (year % 100 != 0 || year % 400 == 0)
}

/// The number of days of `month` in `year`.
pub fn month_length(year: i16, month: u8) -> (r: u8)
    requires
        1 <= month <= 12,
    ensures
        r == days_in_month(year as int, month as int),
        28 <= r <= 31,
{
    if month == 2 {
        if has_leap_day(year) {
            29
        } else {
            28
        }
    } else if month == 4 || month == 6 || month == 9 || month == 11 {
        30
    } else {
        31
    }
}

/// One year on there is one leap year more before the year, if the year left behind is
/// one.
proof fn lemma_leap_years_before_next_year(year: int)
    ensures
        leap_years_before(year + 1) == leap_years_before(year) + if is_leap_year(year) {
            1int
        } else {
            0int
        },
{
    assert((year + 4) / 4 == (year + 3) / 4 + if year % 4 == 0 { 1int } else { 0int });
    assert((year + 100) / 100 == (year + 99) / 100 + if year % 100 == 0 { 1int } else { 0int });
    assert((year + 400) / 400 == (year + 399) / 400 + if year % 400 == 0 { 1int } else { 0int });
    assert(year % 400 == 0 ==> year % 100 == 0);
    assert(year % 100 == 0 ==> year % 4 == 0);
}

/// A year has 365 days, and one more if it is a leap year.
pub proof fn lemma_days_before_next_year(year: int)
    ensures
        days_before_year(year + 1) == days_before_year(year) + if is_leap_year(year) {
            366int
        } else {
            365int
        },
{
    lemma_leap_years_before_next_year(year);
}

/// The days before a year grow with the year, by at least 365 for each year.
pub proof fn lemma_days_before_year_grows(earlier: int, later: int)
    requires
        earlier <= later,
    ensures
        days_before_year(earlier) + 365 * (later - earlier) <= days_before_year(later),
    decreases later - earlier,
{
    if earlier < later {
        lemma_days_before_year_grows(earlier, later - 1);
        lemma_days_before_next_year(later - 1);
    }
}

/// The days before a month, month by month.
pub proof fn lemma_days_before_month_values(year: int)
    ensures
        days_before_month(year, 1) == 0,
        days_before_month(year, 2) == 31,
        days_before_month(year, 3) == days_in_month(year, 2) + 31,
        days_before_month(year, 4) == days_in_month(year, 2) + 62,
        days_before_month(year, 5) == days_in_month(year, 2) + 92,
        days_before_month(year, 6) == days_in_month(year, 2) + 123,
        days_before_month(year, 7) == days_in_month(year, 2) + 153,
        days_before_month(year, 8) == days_in_month(year, 2) + 184,
        days_before_month(year, 9) == days_in_month(year, 2) + 215,
        days_before_month(year, 10) == days_in_month(year, 2) + 245,
        days_before_month(year, 11) == days_in_month(year, 2) + 276,
        days_before_month(year, 12) == days_in_month(year, 2) + 306,
        days_before_month(year, 13) == days_in_month(year, 2) + 337,
{
    reveal_with_fuel(days_before_month, 14);
}

/// An earlier date has the smaller day number.
pub proof fn lemma_day_number_grows(earlier: CalDate, later: CalDate)
    requires
        earlier.valid(),
        later.valid(),
        earlier.is_before(later),
    ensures
        earlier.day_number() < later.day_number(),
{
    lemma_days_before_month_values(earlier.year);
    lemma_days_before_month_values(later.year);
    if earlier.year < later.year {
        lemma_days_before_year_grows(earlier.year + 1, later.year);
        lemma_days_before_next_year(earlier.year);
    }
}

/// The day after a date has the next day number, and exists.
pub proof fn lemma_successor(date: CalDate)
    requires
        date.valid(),
    ensures
        date.successor().valid(),
        date.successor().day_number() == date.day_number() + 1,
        date.is_before(date.successor()),
{
    lemma_days_before_month_values(date.year);
    lemma_days_before_next_year(date.year);
}

/// Four hundred years hold 146097 days, and the leap years repeat after them.
pub proof fn lemma_four_hundred_year_cycle(year: int)
    ensures
        is_leap_year(year + 400) == is_leap_year(year),
        days_before_year(year + 400) == days_before_year(year) + 146097,
{
    lemma_hoist_over_denominator(year + 3, 100, 4);
    lemma_hoist_over_denominator(year + 99, 4, 100);
    lemma_hoist_over_denominator(year + 399, 1, 400);
    lemma_mod_multiples_vanish(100, year, 4);
    lemma_mod_multiples_vanish(4, year, 100);
    lemma_mod_multiples_vanish(1, year, 400);
}

/// Four hundred years later the calendar repeats: the same date exists, 146097 days on.
pub proof fn lemma_four_hundred_years(date: CalDate)
    requires
        date.valid(),
    ensures
        date.shifted_years(400).valid(),
        date.shifted_years(400).day_number() == date.day_number() + 146097,
{
    lemma_four_hundred_year_cycle(date.year);
    lemma_days_before_month_values(date.year);
    lemma_days_before_month_values(date.year + 400);
}

/// Any number of times 400 years later, or earlier, the same date exists, and 146097 days
/// lie between for each time.
pub proof fn lemma_whole_cycles(date: CalDate, cycles: int)
    requires
        date.valid(),
    ensures
        date.shifted_years(400 * cycles).valid(),
        date.shifted_years(400 * cycles).day_number() == date.day_number() + 146097 * cycles,
        is_leap_year(date.year + 400 * cycles) == is_leap_year(date.year),
    decreases
            if cycles >= 0 {
                cycles
            } else {
                -cycles
            },
{
    if cycles > 0 {
        lemma_whole_cycles(date, cycles - 1);
        lemma_four_hundred_years(date.shifted_years(400 * (cycles - 1)));
        assert(date.shifted_years(400 * (cycles - 1)).shifted_years(400) == date.shifted_years(
            400 * cycles,
        ));
        lemma_four_hundred_year_cycle(date.year + 400 * (cycles - 1));
    } else if cycles < 0 {
        lemma_whole_cycles(date, cycles + 1);
        let earlier = date.shifted_years(400 * cycles);
        lemma_four_hundred_year_cycle(earlier.year);
        lemma_days_before_month_values(earlier.year);
        lemma_days_before_month_values(earlier.year + 400);
        assert(earlier.shifted_years(400) == date.shifted_years(400 * (cycles + 1)));
    }
}

/// The day number of a date whose year fits sixteen bits.
pub proof fn lemma_day_number_bounds(date: CalDate)
    requires
        date.valid(),
        i16::MIN <= date.year <= i16::MAX,
    ensures
        -11968266 <= date.day_number() <= 11968265,
{
    lemma_days_before_month_values(date.year);
}

} // verus!
