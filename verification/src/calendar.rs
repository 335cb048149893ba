//! The calls into the `gregorian` crate.
//!
//! The functions that make the calls are taken on trust: the contract of each restates,
//! over [`CalDate`], what the crate's function is documented and written to do.

use crate::date::{CalDate, Date, InvalidDay};
use crate::text::zero_padded;
use vstd::prelude::*;

verus! {

/// `gregorian::Date::add_years`: the same month and day `years` years later. Where that
/// month has no such day, the three numbers come back as an error. The crate adds the
/// years in sixteen bits, so the new year has to fit.
#[verifier::external_body]
pub(crate) fn add_years(date: Date, years: i16) -> (r: Result<Date, InvalidDay>)
    requires
        i16::MIN <= date@.year + years <= i16::MAX,
    ensures
        match r {
            Ok(moved) => moved@ == date@.shifted_years(years as int) && moved@.valid(),
            Err(numbers) => numbers@ == date@.shifted_years(years as int) && !numbers@.valid(),
        },
{
    let date = gregorian::Date::new(date.year, date.month, date.day).unwrap();
    match date.add_years(years) {
        Ok(d) => {
            let (year, month) = (d.year().to_number(), d.month().to_number());
            Ok(Date { year, month, day: d.day() })
        },
        Err(e) => {
            let (year, month) = (e.year.to_number(), e.month.to_number());
            Err(InvalidDay { year, month, day: e.day })
        },
    }
}

/// `gregorian::Date::add_months`: the same day `months` months later. Where that month
/// has no such day, the three numbers come back as an error. Only a move forward is
/// stated here. The crate counts the whole years in sixteen bits: both their number and
/// the new year have to fit.
#[verifier::external_body]
pub(crate) fn add_months(date: Date, months: i32) -> (r: Result<Date, InvalidDay>)
    requires
        0 <= months <= i32::MAX - 11,
        (date@.month - 1 + months) / 12 <= i16::MAX,
        date@.year + (date@.month - 1 + months) / 12 <= i16::MAX,
    ensures
        match r {
            Ok(moved) => moved@ == date@.shifted_months(months as int) && moved@.valid(),
            Err(numbers) => numbers@ == date@.shifted_months(months as int) && !numbers@.valid(),
        },
{
    let date = gregorian::Date::new(date.year, date.month, date.day).unwrap();
    match date.add_months(months) {
        Ok(d) => {
            let (year, month) = (d.year().to_number(), d.month().to_number());
            Ok(Date { year, month, day: d.day() })
        },
        Err(e) => {
            let (year, month) = (e.year.to_number(), e.month.to_number());
            Err(InvalidDay { year, month, day: e.day })
        },
    }
}

/// `gregorian::InvalidDayOfMonth::prev_valid`: the last day of the month that the error
/// names.
#[verifier::external_body]
pub(crate) fn prev_valid(e: InvalidDay) -> (r: Date)
    requires
        1 <= e.month <= 12,
    ensures
        r@ == e@.last_of_month(),
{
    let month = gregorian::Month::new(e.month).unwrap();
    let e = gregorian::InvalidDayOfMonth { year: gregorian::Year::new(e.year), month, day: e.day };
    let d = e.prev_valid();
    Date { year: d.year().to_number(), month: d.month().to_number(), day: d.day() }
}

/// `gregorian::InvalidDayOfMonth::next_valid`: the first day of the month after the one
/// that the error names. After December the crate adds one to the year in sixteen bits.
#[verifier::external_body]
pub(crate) fn next_valid(e: InvalidDay) -> (r: Date)
    requires
        1 <= e.month <= 12,
        e.month < 12 || e.year < i16::MAX,
    ensures
        r@ == e@.first_of_next_month(),
{
    let month = gregorian::Month::new(e.month).unwrap();
    let e = gregorian::InvalidDayOfMonth { year: gregorian::Year::new(e.year), month, day: e.day };
    let d = e.next_valid();
    Date { year: d.year().to_number(), month: d.month().to_number(), day: d.day() }
}

/// `gregorian::Date::next`: the day after `date`. After the last day of a year the crate
/// adds one to the year in sixteen bits.
#[verifier::external_body]
pub(crate) fn next(date: Date) -> (r: Date)
    requires
        date@ != (CalDate { year: i16::MAX as int, month: 12, day: 31 }),
    ensures
        r@ == date@.successor(),
{
    let d = gregorian::Date::new(date.year, date.month, date.day).unwrap().next();
    Date { year: d.year().to_number(), month: d.month().to_number(), day: d.day() }
}

/// `gregorian::Date::days_since`: the number of days from `from` to `to`, negative where
/// `to` is the earlier one. The crate rounds each year down to a multiple of 400 in
/// sixteen bits, which a year before -32400 does not survive.
#[verifier::external_body]
pub(crate) fn days_since(from: Date, to: Date) -> (r: i32)
    requires
        -32400 <= from@.year,
        -32400 <= to@.year,
    ensures
        r == to@.day_number() - from@.day_number(),
{
    let from = gregorian::Date::new(from.year, from.month, from.day).unwrap();
    let to = gregorian::Date::new(to.year, to.month, to.day).unwrap();
    from.days_since(to)
}

/// A date as it is written: the year in at least four characters, the month and the day
/// in two, with hyphens between them.
pub open spec fn date_text(date: CalDate) -> Seq<char> {
    zero_padded(date.year, 4) + seq!['-'] + zero_padded(date.month, 2) + seq!['-'] + zero_padded(
        date.day,
        2,
    )
}

/// `gregorian::Date`'s `Display`: the crate writes a date with the format
/// `{:04}-{:02}-{:02}`, in which a number is filled up with zeros to the given width and
/// a minus sign counts as one of its characters.
#[verifier::external_body]
pub(crate) fn write_date(date: Date) -> (r: String)
    ensures
        r@ == date_text(date@),
{
    gregorian::Date::new(date.year, date.month, date.day).unwrap().to_string()
}

impl Date {
    /// The date as it is written, such as `2000-02-29`.
    pub fn to_string(&self) -> (r: String)
        ensures
            r@ == date_text(self@),
    {
        write_date(*self)
    }
}

} // verus!
