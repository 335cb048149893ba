//! The logarithmic calendar: what is counted and decided for its axis.
//!
//! The places on the axis are fractions of its width and are computed where the drawing
//! is made. What stands here is the part in whole numbers: the size of the letters, the
//! number of characters of a label, and which years get a label.

use crate::text::digits_text;
use std::num::TryFromIntError;
use vstd::prelude::*;

verus! {

/// The label of the mark for today.
pub fn you_are_here() -> (r: &'static str)
    ensures
        r@ == "You Are Here"@,
{
    "You Are Here"
}

/// The number of characters of a text.
pub fn str_to_charcount(s: &str) -> (r: Result<u32, TryFromIntError>)
    ensures
        r is Ok <==> s@.len() <= u32::MAX,
        r is Ok ==> r->Ok_0 == s@.len(),
{
    u32::try_from(s.unicode_len())
}

/// The number of characters with which a number is written: that of its decimal digits.
pub fn num_to_charcount(num: u32) -> (r: Result<u32, TryFromIntError>)
    ensures
        r is Ok,
        r->Ok_0 == digits_text(num as nat).len(),
{
    let mut rest = num;
    let mut count: u32 = 1;
    while rest >= 10
        invariant
            1 <= count,
            count + rest <= num + 1,
            digits_text(num as nat).len() == count - 1 + digits_text(rest as nat).len(),
        decreases rest,
    {
        rest = rest / 10;
        count = count + 1;
    }
    Ok(count)
}

/// What is drawn for a year of the axis.
#[derive(Clone, Copy, Debug, PartialEq, Eq, Structural)]
pub enum YearMark {
    /// The number of the year, at one end of the axis: the ends are the tick marks there.
    Label,
    /// A tick mark and the number of the year.
    TickAndLabel,
    /// Nothing: a label would run into its neighbour or into the last one.
    Nothing,
}

/// What is drawn for the year `year_num` on an axis of `lifespan_years` years. The first
/// and the last year always get their label. A year between them gets a tick mark and a
/// label only if there is room for it: if its place is at least the least gap away from
/// the label drawn before it, and more than that away from the last year's place. The
/// place of a year that gets a label is the one from which the next gap is measured.
pub fn year_mark(year_num: u16, lifespan_years: u16, there_is_enough_space: bool) -> (r: YearMark)
    ensures
        r == if year_num == 0 || year_num == lifespan_years {
            YearMark::Label
        } else if there_is_enough_space {
            YearMark::TickAndLabel
        } else {
            YearMark::Nothing
        },
{
    if year_num == 0 || year_num == lifespan_years {
        YearMark::Label
    } else if there_is_enough_space {
        YearMark::TickAndLabel
    } else {
        YearMark::Nothing
    }
}

/// Why a logarithmic calendar cannot be drawn.
#[derive(Clone, Copy, Debug, PartialEq, Eq, Structural)]
pub enum AxisError {
    /// The lifespan is zero years: the axis would have no length to divide.
    LifespanZero,
    /// The scale factor is zero.
    ScaleFactorZero,
    /// The letters would be higher than 4294967295 pixels.
    FontTooLarge,
}

/// The whole numbers from which the lengths of a logarithmic calendar are derived.
#[derive(Clone, Copy, Debug, PartialEq, Eq, Structural)]
pub struct AxisUnits {
    /// The height of the letters in pixels: 24 times the scale.
    pub font_size_pixels: u32,
    /// The number of digits of the last year, the widest label of the axis.
    pub lifespan_digits: u32,
    /// The number of characters of the label of the mark for today.
    pub label_chars: u32,
}

/// The error with which a logarithmic calendar is refused, if it is: the first of a
/// lifespan of zero years, a zero scale, and letters beyond 32 bits.
pub open spec fn axis_error(lifespan_years: int, scale_factor: int) -> Option<AxisError> {
    if lifespan_years == 0 {
        Some(AxisError::LifespanZero)
    } else if scale_factor == 0 {
        Some(AxisError::ScaleFactorZero)
    } else if 24 * scale_factor > u32::MAX {
        Some(AxisError::FontTooLarge)
    } else {
        None
    }
}

/// The whole numbers of a logarithmic calendar for a lifespan and a scale, or why there
/// are none.
pub fn axis_units(lifespan_years: u16, scale_factor: u32) -> (r: Result<AxisUnits, AxisError>)
    ensures
        match r {
            Err(e) => axis_error(lifespan_years as int, scale_factor as int) == Some(e),
            Ok(units) => {
                &&& axis_error(lifespan_years as int, scale_factor as int) is None
                &&& units.font_size_pixels == 24 * scale_factor
                &&& units.lifespan_digits == digits_text(lifespan_years as nat).len()
                &&& units.label_chars == 12
            },
        },
{
    if lifespan_years == 0 {
        return Err(AxisError::LifespanZero);
    }
    if scale_factor == 0 {
        return Err(AxisError::ScaleFactorZero);
    }
    if scale_factor > u32::MAX / 24 {
        return Err(AxisError::FontTooLarge);
    }
    proof {
        reveal_strlit("You Are Here");
    }
    let lifespan_digits = match num_to_charcount(lifespan_years as u32) {
        Ok(digits) => digits,
        Err(_) => 1,
    };
    let label_chars = match str_to_charcount(you_are_here()) {
        Ok(chars) => chars,
        Err(_) => 12,
    };
    Ok(AxisUnits { font_size_pixels: 24 * scale_factor, lifespan_digits, label_chars })
}

} // verus!
