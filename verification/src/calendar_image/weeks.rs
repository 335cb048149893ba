//! The walk through a life in weeks that always number 52 to the year.
//!
//! The walk goes day by day and passes over every 29th of February. The first week of each
//! 52 has eight days and the others seven, 365 in all, so that after 52 weeks the walk is
//! back on the month and day where it began, one year later.

use crate::date::{
    days_before_month, days_in_month, lemma_days_before_month_values, lemma_successor, CalDate,
};
use crate::lifespan::death_date;
use vstd::prelude::*;

verus! {

/// The day after `date`, or the day after that where the day after is a 29th of February.
pub open spec fn step_day(date: CalDate) -> CalDate {
    if date.successor().is_leap_day() {
        date.successor().successor()
    } else {
        date.successor()
    }
}

/// The date reached from `date` in `days` steps.
pub open spec fn advance(date: CalDate, days: nat) -> CalDate
    decreases days,
{
    if days == 0 {
        date
    } else {
        step_day(advance(date, (days - 1) as nat))
    }
}

/// The number of steps of the week with the given index, counted from zero.
pub open spec fn week_length(index: nat) -> nat {
    if index % 52 == 0 {
        8
    } else {
        7
    }
}

/// The day on which the week with the given index begins, in a walk from `birthday`.
pub open spec fn week_start(birthday: CalDate, index: nat) -> CalDate
    decreases index,
{
    if index == 0 {
        birthday
    } else {
        advance(week_start(birthday, (index - 1) as nat), week_length((index - 1) as nat))
    }
}

/// `count` weeks of the walk from `birthday` begin before `end`, and no more.
pub open spec fn is_week_count(birthday: CalDate, end: CalDate, count: nat) -> bool {
    &&& forall|i: nat| i < count ==> (#[trigger] week_start(birthday, i)).is_before(end)
    &&& !week_start(birthday, count).is_before(end)
}

/// The number of weeks in the walk through a life of `years` years: 52 for each year,
/// and one more where the life begins and ends on a 29th of February.
pub open spec fn week_count(birthday: CalDate, years: int) -> nat {
    if years <= 0 {
        0
    } else if death_date(birthday, years).is_leap_day() {
        (52 * years + 1) as nat
    } else {
        (52 * years) as nat
    }
}

/// The place of a date in a calendar without leap days, counted in days from the first
/// day of year zero. The 29th of February stands where the 28th does.
pub open spec fn common_day_number(date: CalDate) -> int {
    365 * date.year + days_before_month(1, date.month) + (if date.day <= days_in_month(
        1,
        date.month,
    ) {
        date.day
    } else {
        days_in_month(1, date.month)
    }) - 1
}

/// A step leads to a date that is no 29th of February, one place on in the calendar
/// without leap days, and in no earlier year.
pub proof fn lemma_step_day(date: CalDate)
    requires
        date.valid(),
    ensures
        step_day(date).valid(),
        !step_day(date).is_leap_day(),
        common_day_number(step_day(date)) == common_day_number(date) + 1,
        date.is_before(step_day(date)),
        step_day(date).day_number() > date.day_number(),
{
    lemma_days_before_month_values(1);
    lemma_successor(date);
    lemma_successor(date.successor());
}

/// `days` steps lead as many places on in the calendar without leap days.
pub proof fn lemma_advance(date: CalDate, days: nat)
    requires
        date.valid(),
    ensures
        advance(date, days).valid(),
        days > 0 ==> !advance(date, days).is_leap_day(),
        common_day_number(advance(date, days)) == common_day_number(date) + days,
        advance(date, days).year >= date.year,
        advance(date, days).day_number() >= date.day_number() + days,
    decreases days,
{
    if days > 0 {
        lemma_advance(date, (days - 1) as nat);
        lemma_step_day(advance(date, (days - 1) as nat));
    }
}

/// Steps can be taken in two goes.
pub proof fn lemma_advance_split(date: CalDate, first: nat, then: nat)
    ensures
        advance(date, first + then) == advance(advance(date, first), then),
    decreases then,
{
    if then > 0 {
        lemma_advance_split(date, first, (then - 1) as nat);
        assert((first + then - 1) as nat == first + (then - 1) as nat);
    }
}

/// Where a week begins, in the calendar without leap days: seven places on for each week
/// before it, and one more for each of them that was the first of 52.
pub proof fn lemma_week_start(birthday: CalDate, index: nat)
    requires
        birthday.valid(),
    ensures
        week_start(birthday, index).valid(),
        index > 0 ==> !week_start(birthday, index).is_leap_day(),
        common_day_number(week_start(birthday, index)) == common_day_number(birthday) + 7 * index
            + (index + 51) / 52,
        week_start(birthday, index).day_number() >= birthday.day_number() + 7 * index,
    decreases index,
{
    if index > 0 {
        let before = (index - 1) as nat;
        lemma_week_start(birthday, before);
        lemma_advance(week_start(birthday, before), week_length(before));
    }
}

/// The order of dates is that of their places in the calendar without leap days, but for
/// a 28th and a 29th of February, which have one place.
pub proof fn lemma_common_day_number_order(a: CalDate, b: CalDate)
    requires
        a.valid(),
        b.valid(),
    ensures
        common_day_number(a) < common_day_number(b) ==> a.is_before(b),
        a.is_before(b) ==> common_day_number(a) <= common_day_number(b),
        common_day_number(a) == common_day_number(b) && !a.is_leap_day() && !b.is_leap_day()
            ==> a == b,
        common_day_number(a) == common_day_number(b) && !a.is_leap_day() && b.is_leap_day()
            ==> a.is_before(b),
{
    lemma_days_before_month_values(1);
}

/// The day of death has the place of the birthday, 365 places on for each year.
pub proof fn lemma_common_day_number_of_death(birthday: CalDate, years: int)
    requires
        birthday.valid(),
    ensures
        common_day_number(death_date(birthday, years)) == common_day_number(birthday) + 365
            * years,
{
}

/// The walk through a life of `years` years has 52 weeks for each year: the week after
/// them begins on the day of death. Only where the life begins and ends on a 29th of
/// February, that week begins the day before, and is one week more.
pub proof fn lemma_week_count(birthday: CalDate, years: int)
    requires
        birthday.valid(),
        years >= 0,
    ensures
        is_week_count(birthday, death_date(birthday, years), week_count(birthday, years)),
{
    let end = death_date(birthday, years);
    let count = week_count(birthday, years);
    lemma_common_day_number_of_death(birthday, years);
    assert forall|i: nat| i < count implies (#[trigger] week_start(birthday, i)).is_before(
        end,
    ) by {
        lemma_week_start(birthday, i);
        lemma_common_day_number_order(week_start(birthday, i), end);
        if i == 52 * years {
            assert(i > 0);
        }
    }
    lemma_week_start(birthday, count);
    lemma_common_day_number_order(week_start(birthday, count), end);
    lemma_common_day_number_order(end, week_start(birthday, count));
}

/// Only one number of weeks begins before `end`.
pub proof fn lemma_week_count_unique(birthday: CalDate, end: CalDate, a: nat, b: nat)
    requires
        is_week_count(birthday, end, a),
        is_week_count(birthday, end, b),
    ensures
        a == b,
{
    if a < b {
        assert(week_start(birthday, a).is_before(end));
    }
    if b < a {
        assert(week_start(birthday, b).is_before(end));
    }
}

/// A later week begins on a later day, at least seven days on for each week between.
pub proof fn lemma_week_start_grows(birthday: CalDate, earlier: nat, later: nat)
    requires
        birthday.valid(),
        earlier <= later,
    ensures
        week_start(birthday, later).day_number() >= week_start(birthday, earlier).day_number()
            + 7 * (later - earlier),
    decreases later - earlier,
{
    if earlier < later {
        let before = (later - 1) as nat;
        lemma_week_start_grows(birthday, earlier, before);
        lemma_week_start(birthday, before);
        lemma_advance(week_start(birthday, before), week_length(before));
    }
}

} // verus!
