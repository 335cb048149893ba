//! The figures of a life: how long it is, what of it has passed, what is left.

use crate::calendar::date_text;
use crate::date::Date;
use crate::lifespan::{
    days_from_to, days_left, days_lived, death_date, death_date_fits, death_day, full_years,
    lifespan_days, lifespan_months, lifespan_weeks, monthly_marks_before, months_left,
    months_lived, quotient_toward_zero, weeks_left, weeks_lived, yearly_marks_before,
    years_left, years_lived,
};
use crate::text::{append_decimal, append_digits, decimal_text, digits_text};
use vstd::prelude::*;

verus! {

/// A lifespan as the sixteen-bit number that the arithmetic of dates takes: what is over
/// 32767 years counts as 32767.
pub fn truncate_u16(num: u16) -> (r: i16)
    ensures
        r == if num > 32767 {
            32767
        } else {
            num as int
        },
{
    if num > 32767 {
        i16::MAX
    } else {
        num as i16
    }
}

/// A number without its sign.
pub open spec fn magnitude(value: int) -> int {
    if value < 0 {
        -value
    } else {
        value
    }
}

/// A 32-bit number without its sign.
fn abs(value: i32) -> (r: u32)
    ensures
        r == magnitude(value as int),
{
    if value < 0 {
        (-(value as i64)) as u32
    } else {
        value as u32
    }
}

/// The figures of a life on a given day. What is left is given without its sign: after
/// the day of death it says how long ago that was.
#[derive(Clone, Copy, Debug, PartialEq, Eq, Structural)]
pub struct LifeSummary {
    pub lifespan_days: i32,
    pub lifespan_weeks: i32,
    pub lifespan_months: i32,
    pub years: i16,
    pub death_day: Date,
    pub days_lived: i32,
    pub weeks_lived: i32,
    pub months_lived: i32,
    pub years_lived: i32,
    pub days_left: u32,
    pub weeks_left: u32,
    pub months_left: u32,
    pub years_left: u32,
}

/// `s` holds the figures of the life that began on `bday` and is expected to last
/// `lifespan_years` years, on the day `today`.
pub open spec fn summarises(s: LifeSummary, bday: Date, lifespan_years: u16, today: Date) -> bool {
    let years = if lifespan_years > 32767 {
        32767
    } else {
        lifespan_years as int
    };
    let end = death_date(bday@, years);
    &&& s.years == years
    &&& s.death_day@ == end
    &&& s.lifespan_days == days_from_to(bday@, end)
    &&& s.lifespan_weeks == years * 52
    &&& s.lifespan_months == years * 12
    &&& s.days_lived == days_from_to(bday@, today@)
    &&& s.weeks_lived == quotient_toward_zero(days_from_to(bday@, today@), 7)
    &&& s.months_lived == monthly_marks_before(bday@, today@, false)
    &&& s.years_lived == full_years(bday@, today@)
    &&& s.days_left == magnitude(days_from_to(today@, end))
    &&& s.weeks_left == magnitude((years - yearly_marks_before(bday@, today@, true)) * 52)
    &&& s.months_left == magnitude(years * 12 - monthly_marks_before(bday@, today@, true))
    &&& s.years_left == magnitude(years - yearly_marks_before(bday@, today@, true))
}

/// The figures of the life that began on `bday` and is expected to last `lifespan_years`
/// years, on the day `today`; nothing where the day of death lies after the year 32767.
pub fn life_summary(bday: Date, lifespan_years: u16, today: Date) -> (r: Option<LifeSummary>)
    ensures
        r is Some <==> death_date_fits(
            bday@,
            if lifespan_years > 32767 {
                32767
            } else {
                lifespan_years as int
            },
        ),
        r is Some ==> summarises(r->Some_0, bday, lifespan_years, today),
{
    let years = truncate_u16(lifespan_years);
    if bday.year() as i32 + years as i32 > i16::MAX as i32 {
        return None;
    }
    Some(
        LifeSummary {
            lifespan_days: lifespan_days(bday, years),
            lifespan_weeks: lifespan_weeks(years),
            lifespan_months: lifespan_months(years),
            years,
            death_day: death_day(bday, years),
            days_lived: days_lived(today, bday),
            weeks_lived: weeks_lived(today, bday),
            months_lived: months_lived(today, bday),
            years_lived: years_lived(today, bday),
            days_left: abs(days_left(today, bday, years)),
            weeks_left: abs(weeks_left(today, bday, years)),
            months_left: abs(months_left(today, bday, years)),
            years_left: abs(years_left(today, bday, years)),
        },
    )
}

impl LifeSummary {
    /// The figures as a text in three paragraphs: how long the life is, what of it has
    /// passed, and what is left.
    pub open spec fn text(self) -> Seq<char> {
        "You will live for approximately:\n• "@ + decimal_text(self.lifespan_days as int)
            + " days\n• "@ + decimal_text(self.lifespan_weeks as int) + " weeks\n• "@
            + decimal_text(self.lifespan_months as int) + " months\n• "@ + decimal_text(
            self.years as int,
        ) + " years\n\nYou will probably die around "@ + date_text(self.death_day@)
            + ".\n\nYou have lived for:\n• "@ + decimal_text(self.days_lived as int)
            + " days\n• "@ + decimal_text(self.weeks_lived as int) + " weeks\n• "@
            + decimal_text(self.months_lived as int) + " months\n• "@ + decimal_text(
            self.years_lived as int,
        ) + " years\n\nYou have remaining:\n• "@ + digits_text(self.days_left as nat)
            + " days\n• "@ + digits_text(self.weeks_left as nat) + " weeks\n• "@ + digits_text(
            self.months_left as nat,
        ) + " months\n• "@ + digits_text(self.years_left as nat) + " years"@
    }

    /// The figures as a text.
    pub fn to_string(&self) -> (r: String)
        ensures
            r@ == self.text(),
    {
        let mut text = "You will live for approximately:\n• ".to_owned();
        append_decimal(&mut text, self.lifespan_days);
        text.append(" days\n• ");
        append_decimal(&mut text, self.lifespan_weeks);
        text.append(" weeks\n• ");
        append_decimal(&mut text, self.lifespan_months);
        text.append(" months\n• ");
        append_decimal(&mut text, self.years as i32);
        text.append(" years\n\nYou will probably die around ");
        text.append(self.death_day.to_string().as_str());
        text.append(".\n\nYou have lived for:\n• ");
        append_decimal(&mut text, self.days_lived);
        text.append(" days\n• ");
        append_decimal(&mut text, self.weeks_lived);
        text.append(" weeks\n• ");
        append_decimal(&mut text, self.months_lived);
        text.append(" months\n• ");
        append_decimal(&mut text, self.years_lived);
        text.append(" years\n\nYou have remaining:\n• ");
        append_digits(&mut text, self.days_left as u64);
        text.append(" days\n• ");
        append_digits(&mut text, self.weeks_left as u64);
        text.append(" weeks\n• ");
        append_digits(&mut text, self.months_left as u64);
        text.append(" months\n• ");
        append_digits(&mut text, self.years_left as u64);
        text.append(" years");
        text
    }
}

/// What there is to say of the life that began on `bday` and is expected to last
/// `lifespan_years` years, on the day `today`: the text of its figures; nothing where the
/// day of death lies after the year 32767.
pub fn info(bday: Date, lifespan_years: u16, today: Date) -> (r: Option<String>)
    ensures
        r is Some <==> death_date_fits(
            bday@,
            if lifespan_years > 32767 {
                32767
            } else {
                lifespan_years as int
            },
        ),
        r is Some ==> exists|summary: LifeSummary|
            {
                &&& #[trigger] summarises(summary, bday, lifespan_years, today)
                &&& r->Some_0@ == summary.text()
            },
{
    match life_summary(bday, lifespan_years, today) {
        Some(summary) => {
            assert(summarises(summary, bday, lifespan_years, today));
            Some(summary.to_string())
        },
        None => None,
    }
}

} // verus!
