//! Lifespan arithmetic and calendar drawings of a life, week by week.
//!
//! The dates are dates of the proleptic Gregorian calendar with a year zero. Every
//! function states its result over [`date::CalDate`], the mathematical value of a date.

use vstd::prelude::*;

pub mod calendar;
pub mod calendar_image;
pub mod date;
pub mod death_info;
pub mod lifespan;
pub mod svg_generator;
pub mod text;

pub use crate::calendar_image::grid::{BorderUnit, SvgShape};
pub use crate::date::{Date, InvalidDate};
pub use crate::lifespan::{
    checked_death_day, days_between, days_left, days_lived, death_day, lifespan_days,
    lifespan_months, lifespan_weeks, months_left, months_lived, weeks_left, weeks_lived,
    years_left, years_lived,
};

verus! {

/// Information about a person's life.
#[derive(Clone, Copy, Debug)]
pub struct LifeInfo {
    /// The day of birth.
    pub birthday: Date,
    /// Expected lifespan in years.
    pub lifespan_years: u16,
}

/// Information about how to render an image, with both colours settled.
#[derive(Debug)]
pub struct DrawingInfoValidated {
    /// The scale of the image: every length in pixels is multiplied by it. At least 1.
    pub scale_factor: u32,
    /// The primary colour, as a style sheet writes it.
    pub color_primary: String,
    /// The secondary colour, as a style sheet writes it.
    pub color_secondary: String,
}

/// Information about how to draw a grid calendar.
#[derive(Clone, Copy, Debug)]
pub struct GridRatios {
    /// How thick should the line around each shape be?
    pub stroke: u32,
    /// How much space should be around each shape?
    pub padding: u32,
    /// How long should the shape be on the inside?
    pub length: u32,
    /// How much space should be around the grid?
    pub border: u32,
    /// Should the border be measured in pixels or the shape?
    pub border_unit: BorderUnit,
}

impl Default for GridRatios {
    fn default() -> (r: Self)
        ensures
            r.stroke == 1,
            r.padding == 1,
            r.length == 15,
            r.border == 3,
            r.border_unit == BorderUnit::Pixel,
    {
        Self { stroke: 1, padding: 1, length: 15, border: 3, border_unit: BorderUnit::Pixel }
    }
}

} // verus!
