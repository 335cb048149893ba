//! The grid calendar: one shape for each week of a life, in columns of 52.
//!
//! All lengths are whole pixels at the scale of the drawing, and 32-bit numbers: a
//! drawing whose view box is wider or higher than such a number is refused.

use crate::calendar::next;
use crate::calendar_image::weeks::{
    advance, lemma_advance, lemma_advance_split, lemma_week_count, lemma_week_count_unique,
    lemma_week_start, lemma_week_start_grows, week_count, week_length, week_start,
};
use crate::calendar_image::{
    append_shape, circle_element, draws, element_model, init_document, rectangle_element,
    shape_element, Canvas, Shape, WEEKS_IN_A_YEAR,
};
use crate::date::{lemma_day_number_bounds, lemma_day_number_grows, CalDate, Date};
use crate::lifespan::{
    checked_death_day, days_between, death_date_fits, lemma_death_not_before_birth,
};
use crate::text::{lowercase_of, same_text, to_lowercase};
use crate::{DrawingInfoValidated, GridRatios, LifeInfo};
use vstd::prelude::*;

verus! {

/// The unit of the border around the grid.
#[derive(Clone, Copy, Debug, PartialEq, Eq, Structural)]
pub enum BorderUnit {
    /// The border is so many pixels wide, times the scale.
    Pixel,
    /// The border is so many shapes wide.
    Shape,
}

/// The text is no name of a border unit.
#[derive(Clone, Copy, Debug, PartialEq, Eq, Structural)]
pub struct ParseBorderUnitError;

impl ParseBorderUnitError {
    /// What went wrong, for a person to read.
    pub fn to_string(&self) -> (r: String)
        ensures
            r@ == "Could not parse string as a border unit variant\nDid you misspell it?"@,
    {
        "Could not parse string as a border unit variant\nDid you misspell it?".to_owned()
    }
}

/// The border unit that a text in lowercase names, if it names one.
pub open spec fn border_unit_named(lowered: Seq<char>) -> Option<BorderUnit> {
    if lowered == "0"@ || lowered == "pixel"@ || lowered == "pixels"@ {
        Some(BorderUnit::Pixel)
    } else if lowered == "1"@ || lowered == "shape"@ || lowered == "shapes"@ {
        Some(BorderUnit::Shape)
    } else {
        None
    }
}

impl BorderUnit {
    /// The name of the unit.
    pub fn to_string(&self) -> (r: String)
        ensures
            r@ == match *self {
                BorderUnit::Pixel => "pixel"@,
                BorderUnit::Shape => "shape"@,
            },
    {
        match *self {
            BorderUnit::Pixel => "pixel".to_owned(),
            BorderUnit::Shape => "shape".to_owned(),
        }
    }

    /// The unit that a text in lowercase names: `0`, `pixel` or `pixels`, or `1`, `shape`
    /// or `shapes`.
    pub fn from_lowercase(lowered: &str) -> (r: Result<BorderUnit, ParseBorderUnitError>)
        ensures
            r == match border_unit_named(lowered@) {
                Some(unit) => Ok::<BorderUnit, ParseBorderUnitError>(unit),
                None => Err(ParseBorderUnitError),
            },
    {
        if same_text(lowered, "0") || same_text(lowered, "pixel") || same_text(lowered, "pixels") {
            Ok(BorderUnit::Pixel)
        } else if same_text(lowered, "1") || same_text(lowered, "shape") || same_text(
            lowered,
            "shapes",
        ) {
            Ok(BorderUnit::Shape)
        } else {
            Err(ParseBorderUnitError)
        }
    }

    /// The unit that a text names, in capitals or small letters.
    pub fn from_str(s: &str) -> (r: Result<BorderUnit, ParseBorderUnitError>)
        ensures
            r == match border_unit_named(lowercase_of(s@)) {
                Some(unit) => Ok::<BorderUnit, ParseBorderUnitError>(unit),
                None => Err(ParseBorderUnitError),
            },
    {
        let lowered = to_lowercase(s);
        BorderUnit::from_lowercase(lowered.as_str())
    }
}

/// The shape that stands for a week.
#[derive(Clone, Copy, Debug, PartialEq, Eq, Structural)]
pub enum SvgShape {
    Square,
    Circle,
}

/// Why a grid calendar cannot be drawn.
#[derive(Clone, Copy, Debug, PartialEq, Eq, Structural)]
pub enum RenderError {
    /// The scale factor is zero.
    ScaleFactorZero,
    /// The lifespan is more than 32767 years.
    LifespanOutOfRange,
    /// The day of death lies after the year 32767.
    DateOutOfRange,
    /// The view box is wider or higher than 4294967295 pixels.
    DrawingTooLarge,
}

/// The lengths of a grid calendar, in pixels.
pub struct GridGeometry {
    pub stroke_width: int,
    pub padding: int,
    pub inner_shape_size: int,
    pub outer_shape_size: int,
    pub border: int,
    pub grid_width: int,
    pub grid_height: int,
    pub viewbox_width: int,
    pub viewbox_height: int,
}

/// The lengths of a grid calendar for the given ratios, scale and lifespan. A negative
/// lifespan gives a grid without columns.
pub open spec fn grid_geometry(
    ratios: GridRatios,
    scale_factor: int,
    lifespan_years: int,
) -> GridGeometry {
    let stroke_width = ratios.stroke * scale_factor * 2;
    let padding = ratios.padding * scale_factor;
    let inner_shape_size = ratios.length * 2 * scale_factor + stroke_width;
    let outer_shape_size = inner_shape_size + padding * 2 + stroke_width;
    let border = match ratios.border_unit {
        BorderUnit::Pixel => ratios.border * scale_factor,
        BorderUnit::Shape => ratios.border * outer_shape_size,
    };
    let columns = if lifespan_years > 0 {
        lifespan_years
    } else {
        0
    };
    let grid_width = outer_shape_size * columns;
    let grid_height = outer_shape_size * 52;
    GridGeometry {
        stroke_width,
        padding,
        inner_shape_size,
        outer_shape_size,
        border,
        grid_width,
        grid_height,
        viewbox_width: grid_width + border * 2 + padding * 2,
        viewbox_height: grid_height + border * 2 + padding * 2,
    }
}

impl GridGeometry {
    /// The view box is no wider and no higher than a 32-bit number.
    pub open spec fn fits(self) -> bool {
        self.viewbox_width <= u32::MAX && self.viewbox_height <= u32::MAX
    }

    /// The shape for the week with the given index: in the column `index / 52` and the
    /// row `index % 52` of a grid that stands in the middle of the view box.
    pub open spec fn cell(
        self,
        kind: SvgShape,
        index: int,
        fill: Seq<char>,
        stroke: Seq<char>,
    ) -> Shape {
        let column = index / 52;
        let row = index % 52;
        let left = (self.viewbox_width - self.grid_width) / 2;
        let top = (self.viewbox_height - self.grid_height) / 2;
        match kind {
            SvgShape::Square => Shape::Rectangle {
                x: column * self.outer_shape_size + left + self.padding + self.stroke_width / 2,
                y: row * self.outer_shape_size + top + self.padding + self.stroke_width / 2,
                width: self.inner_shape_size,
                height: self.inner_shape_size,
                fill,
                stroke,
                stroke_width: self.stroke_width,
            },
            SvgShape::Circle => Shape::Circle {
                cx: column * self.outer_shape_size + left + self.padding / 2 + self.outer_shape_size
                    / 2,
                cy: row * self.outer_shape_size + top + self.padding / 2 + self.outer_shape_size
                    / 2,
                r: self.inner_shape_size / 2,
                fill,
                stroke,
                stroke_width: self.stroke_width,
            },
        }
    }
}

/// The lengths of a grid calendar, as numbers of the machine.
#[derive(Clone, Copy, Debug)]
pub struct GridLayout {
    pub stroke_width: u32,
    pub padding: u32,
    pub inner_shape_size: u32,
    pub outer_shape_size: u32,
    pub border: u32,
    pub grid_width: u32,
    pub grid_height: u32,
    pub viewbox_width: u32,
    pub viewbox_height: u32,
}

impl View for GridLayout {
    type V = GridGeometry;

    open spec fn view(&self) -> GridGeometry {
        GridGeometry {
            stroke_width: self.stroke_width as int,
            padding: self.padding as int,
            inner_shape_size: self.inner_shape_size as int,
            outer_shape_size: self.outer_shape_size as int,
            border: self.border as int,
            grid_width: self.grid_width as int,
            grid_height: self.grid_height as int,
            viewbox_width: self.viewbox_width as int,
            viewbox_height: self.viewbox_height as int,
        }
    }
}

/// The product of two numbers, if it is a 32-bit number.
fn product(a: u32, b: u32) -> (r: Option<u32>)
    ensures
        0 <= a * b,
        r is Some <==> a * b <= u32::MAX,
        r is Some ==> r->Some_0 == a * b,
{
    assert(0 <= a * b <= 0xFFFF_FFFF * 0xFFFF_FFFF) by (nonlinear_arith)
        requires
            0 <= a <= 0xFFFF_FFFF,
            0 <= b <= 0xFFFF_FFFF,
    ;
    let p: u64 = a as u64 * b as u64;
    if p > u32::MAX as u64 {
        None
    } else {
        Some(p as u32)
    }
}

/// The sum of two numbers, if it is a 32-bit number.
fn sum(a: u32, b: u32) -> (r: Option<u32>)
    ensures
        r is Some <==> a + b <= u32::MAX,
        r is Some ==> r->Some_0 == a + b,
{
    let s: u64 = a as u64 + b as u64;
    if s > u32::MAX as u64 {
        None
    } else {
        Some(s as u32)
    }
}

/// The lengths of a grid calendar for the given ratios, scale and lifespan, unless the
/// view box would be wider or higher than a 32-bit number.
pub fn grid_layout(ratios: &GridRatios, scale_factor: u32, lifespan_years: i16) -> (r: Option<
    GridLayout,
>)
    ensures
        r is Some <==> grid_geometry(*ratios, scale_factor as int, lifespan_years as int).fits(),
        r is Some ==> r->Some_0@ == grid_geometry(
            *ratios,
            scale_factor as int,
            lifespan_years as int,
        ),
{
    let ghost g = grid_geometry(*ratios, scale_factor as int, lifespan_years as int);
    let columns: u32 = if lifespan_years > 0 {
        lifespan_years as u32
    } else {
        0
    };
    proof {
        let s = scale_factor as int;
        assert(0 <= ratios.stroke * s && 0 <= ratios.padding * s && 0 <= ratios.border * s && 0
            <= ratios.length * s) by (nonlinear_arith)
            requires
                0 <= s,
                0 <= ratios.stroke,
                0 <= ratios.padding,
                0 <= ratios.border,
                0 <= ratios.length,
        ;
        assert(ratios.length * 2 * s == ratios.length * s * 2) by (nonlinear_arith);
        assert(0 <= g.outer_shape_size);
        assert(0 <= ratios.border * g.outer_shape_size && 0 <= g.outer_shape_size * columns)
            by (nonlinear_arith)
            requires
                0 <= g.outer_shape_size,
                0 <= ratios.border,
                0 <= columns,
        ;
    }
    let half_stroke = match product(ratios.stroke, scale_factor) {
        Some(v) => v,
        None => { return None; },
    };
    let stroke_width = match product(half_stroke, 2) {
        Some(v) => v,
        None => { return None; },
    };
    let padding = match product(ratios.padding, scale_factor) {
        Some(v) => v,
        None => { return None; },
    };
    let padding_twice = match product(padding, 2) {
        Some(v) => v,
        None => { return None; },
    };
    let half_length = match product(ratios.length, scale_factor) {
        Some(v) => v,
        None => { return None; },
    };
    let length = match product(half_length, 2) {
        Some(v) => v,
        None => { return None; },
    };
    let inner_shape_size = match sum(length, stroke_width) {
        Some(v) => v,
        None => { return None; },
    };
    let padded = match sum(inner_shape_size, padding_twice) {
        Some(v) => v,
        None => { return None; },
    };
    let outer_shape_size = match sum(padded, stroke_width) {
        Some(v) => v,
        None => { return None; },
    };
    let border = match ratios.border_unit {
        BorderUnit::Pixel => product(ratios.border, scale_factor),
        BorderUnit::Shape => product(ratios.border, outer_shape_size),
    };
    let border = match border {
        Some(v) => v,
        None => { return None; },
    };
    let border_twice = match product(border, 2) {
        Some(v) => v,
        None => { return None; },
    };
    let margin = match sum(border_twice, padding_twice) {
        Some(v) => v,
        None => { return None; },
    };
    let grid_width = match product(outer_shape_size, columns) {
        Some(v) => v,
        None => { return None; },
    };
    let grid_height = match product(outer_shape_size, WEEKS_IN_A_YEAR) {
        Some(v) => v,
        None => { return None; },
    };
    let viewbox_width = match sum(grid_width, margin) {
        Some(v) => v,
        None => { return None; },
    };
    let viewbox_height = match sum(grid_height, margin) {
        Some(v) => v,
        None => { return None; },
    };
    Some(
        GridLayout {
            stroke_width,
            padding,
            inner_shape_size,
            outer_shape_size,
            border,
            grid_width,
            grid_height,
            viewbox_width,
            viewbox_height,
        },
    )
}

/// The error with which a grid calendar is refused, if it is: the first of a zero scale,
/// a lifespan over 32767 years, a day of death after the year 32767, and a view box
/// beyond 32 bits.
pub open spec fn render_error(
    birthday: CalDate,
    lifespan_years: int,
    scale_factor: int,
    ratios: GridRatios,
) -> Option<RenderError> {
    if scale_factor == 0 {
        Some(RenderError::ScaleFactorZero)
    } else if lifespan_years > i16::MAX {
        Some(RenderError::LifespanOutOfRange)
    } else if !death_date_fits(birthday, lifespan_years) {
        Some(RenderError::DateOutOfRange)
    } else if !grid_geometry(ratios, scale_factor, lifespan_years).fits() {
        Some(RenderError::DrawingTooLarge)
    } else {
        None
    }
}

/// A week counts as lived once its seven days have passed: on the birthday itself, the
/// week that begins there has not.
pub open spec fn week_is_lived(start: CalDate, today: CalDate) -> bool {
    start.day_number() + 7 <= today.day_number()
}

/// The shape for the week with the given index in the walk from `birthday`: filled with
/// the primary colour if the week is lived, else with the secondary, and outlined in
/// the primary.
pub open spec fn week_shape_at(
    geometry: GridGeometry,
    kind: SvgShape,
    birthday: CalDate,
    today: CalDate,
    color_primary: Seq<char>,
    color_secondary: Seq<char>,
    index: int,
) -> Shape {
    let fill = if week_is_lived(week_start(birthday, index as nat), today) {
        color_primary
    } else {
        color_secondary
    };
    geometry.cell(kind, index, fill, color_primary)
}

/// The shapes of a grid calendar with `count` weeks: the background, then the weeks in
/// the order of the walk.
pub open spec fn grid_shapes(
    geometry: GridGeometry,
    kind: SvgShape,
    birthday: CalDate,
    today: CalDate,
    color_primary: Seq<char>,
    color_secondary: Seq<char>,
    count: nat,
) -> Seq<Shape> {
    seq![
        Shape::Background {
            width: geometry.viewbox_width,
            height: geometry.viewbox_height,
            fill: color_secondary,
        },
    ] + Seq::new(
        count,
        |index: int|
            week_shape_at(geometry, kind, birthday, today, color_primary, color_secondary, index),
    )
}

/// The day on which the next week begins, after a week of `days` steps from `start`, or
/// nothing where that day lies after the year 32767.
fn step_week(start: Date, days: u8) -> (r: Option<Date>)
    ensures
        match r {
            Some(d) => d@ == advance(start@, days as nat),
            None => advance(start@, days as nat).year > i16::MAX,
        },
{
    let mut curr_date = start;
    let mut i: u8 = 0;
    while i < days
        invariant
            i <= days,
            curr_date@ == advance(start@, i as nat),
        decreases days - i,
    {
        proof {
            use_type_invariant(&curr_date);
            curr_date.lemma_valid();
        }
        if curr_date.year() == i16::MAX && curr_date.month() == 12 && curr_date.day() == 31 {
            proof {
                let rest = (days - i - 1) as nat;
                lemma_advance_split(start@, (i + 1) as nat, rest);
                assert(advance(start@, (i + 1) as nat) == curr_date@.successor());
                lemma_advance(curr_date@.successor(), rest);
            }
            return None;
        }
        curr_date = next(curr_date);
        if curr_date.month() == 2 && curr_date.day() == 29 {
            curr_date = next(curr_date);
        }
        i = i + 1;
    }
    Some(curr_date)
}

/// The element for the shape of one week.
fn week_element(
    layout: &GridLayout,
    week_shape: &SvgShape,
    count: u32,
    fill: &str,
    stroke: &str,
) -> (element: svg::node::element::Element)
    requires
        layout.grid_width <= layout.viewbox_width,
        layout.grid_height <= layout.viewbox_height,
    ensures
        element_model(element) == shape_element(
            layout@.cell(*week_shape, count as int, fill@, stroke@),
        ),
{
    let outer: u64 = layout.outer_shape_size as u64;
    let column: u64 = (count / WEEKS_IN_A_YEAR) as u64;
    let row: u64 = (count % WEEKS_IN_A_YEAR) as u64;
    let left: u64 = ((layout.viewbox_width - layout.grid_width) / 2) as u64;
    let top: u64 = ((layout.viewbox_height - layout.grid_height) / 2) as u64;
    assert(0 <= column * outer <= 0xFFFF_FFFF * 0xFFFF_FFFF && 0 <= row * outer <= 0xFFFF_FFFF
        * 0xFFFF_FFFF) by (nonlinear_arith)
        requires
            0 <= column <= 0xFFFF_FFFF,
            0 <= row <= 0xFFFF_FFFF,
            0 <= outer <= 0xFFFF_FFFF,
    ;
    match *week_shape {
        SvgShape::Square => {
            let x_offset: u64 = left + layout.padding as u64 + (layout.stroke_width / 2) as u64;
            let x: u64 = column * outer + x_offset;
            let y_offset: u64 = top + layout.padding as u64 + (layout.stroke_width / 2) as u64;
            let y: u64 = row * outer + y_offset;
            rectangle_element(
                x,
                y,
                layout.inner_shape_size,
                layout.inner_shape_size,
                fill,
                stroke,
                layout.stroke_width,
            )
        },
        SvgShape::Circle => {
            let cx_offset: u64 = left + (layout.padding / 2) as u64 + (layout.outer_shape_size
                / 2) as u64;
            let cx: u64 = column * outer + cx_offset;
            let cy_offset: u64 = top + (layout.padding / 2) as u64 + (layout.outer_shape_size
                / 2) as u64;
            let cy: u64 = row * outer + cy_offset;
            circle_element(
                cx,
                cy,
                layout.inner_shape_size / 2,
                fill,
                stroke,
                layout.stroke_width,
            )
        },
    }
}

/// Draw the grid calendar of a life as it stands on the day `today`.
///
/// The drawing has a background and, on it, one shape for each week of the walk from the
/// birthday to the day of death: 52 for each year of the lifespan, column by column.
pub fn render_svg(
    birth_info: &LifeInfo,
    drawing_info: &DrawingInfoValidated,
    drawing_ratios: &GridRatios,
    week_shape: &SvgShape,
    today: Date,
) -> (r: Result<svg::node::element::SVG, RenderError>)
    ensures
        match r {
            Err(e) => render_error(
                birth_info.birthday@,
                birth_info.lifespan_years as int,
                drawing_info.scale_factor as int,
                *drawing_ratios,
            ) == Some(e),
            Ok(document) => {
                let geometry = grid_geometry(
                    *drawing_ratios,
                    drawing_info.scale_factor as int,
                    birth_info.lifespan_years as int,
                );
                &&& render_error(
                    birth_info.birthday@,
                    birth_info.lifespan_years as int,
                    drawing_info.scale_factor as int,
                    *drawing_ratios,
                ) is None
                &&& draws(
                    document,
                    Canvas {
                        width: geometry.viewbox_width,
                        height: geometry.viewbox_height,
                        page_color: drawing_info.color_primary@,
                    },
                    grid_shapes(
                        geometry,
                        *week_shape,
                        birth_info.birthday@,
                        today@,
                        drawing_info.color_primary@,
                        drawing_info.color_secondary@,
                        week_count(birth_info.birthday@, birth_info.lifespan_years as int),
                    ),
                )
            },
        },
{
    let color_primary = drawing_info.color_primary.as_str();
    let color_secondary = drawing_info.color_secondary.as_str();
    let scale_factor = drawing_info.scale_factor;
    let bday = birth_info.birthday;
    if scale_factor == 0 {
        return Err(RenderError::ScaleFactorZero);
    }
    if birth_info.lifespan_years > i16::MAX as u16 {
        return Err(RenderError::LifespanOutOfRange);
    }
    let lifespan_years = birth_info.lifespan_years as i16;
    let end = match checked_death_day(bday, lifespan_years) {
        Some(date) => date,
        None => { return Err(RenderError::DateOutOfRange); },
    };
    let layout = match grid_layout(drawing_ratios, scale_factor, lifespan_years) {
        Some(layout) => layout,
        None => { return Err(RenderError::DrawingTooLarge); },
    };
    let ghost geometry = layout@;
    let ghost birthday = bday@;
    proof {
        use_type_invariant(&bday);
        use_type_invariant(&end);
        use_type_invariant(&today);
        bday.lemma_valid();
        end.lemma_valid();
        today.lemma_valid();
        lemma_day_number_bounds(birthday);
        lemma_day_number_bounds(end@);
        lemma_death_not_before_birth(birthday, lifespan_years as int);
        assert(0 <= layout.outer_shape_size * lifespan_years) by (nonlinear_arith)
            requires
                0 <= layout.outer_shape_size,
                0 <= lifespan_years,
        ;
    }
    let ghost canvas = Canvas {
        width: geometry.viewbox_width,
        height: geometry.viewbox_height,
        page_color: color_primary@,
    };
    let mut document = init_document(
        layout.viewbox_width,
        layout.viewbox_height,
        color_primary,
        color_secondary,
    );
    assert(grid_shapes(
        geometry,
        *week_shape,
        birthday,
        today@,
        color_primary@,
        color_secondary@,
        0,
    ) =~= seq![
        Shape::Background {
            width: geometry.viewbox_width,
            height: geometry.viewbox_height,
            fill: color_secondary@,
        },
    ]);
    let mut count: u32 = 0;
    let mut curr_date = bday;
    let mut more = curr_date.is_before(&end);
    while more
        invariant
            birthday.valid(),
            end@.valid(),
            geometry == layout@,
            layout.grid_width <= layout.viewbox_width,
            layout.grid_height <= layout.viewbox_height,
            -11968266 <= birthday.day_number(),
            end@.day_number() <= 11968265,
            7 * count <= end@.day_number() - birthday.day_number() + 7,
            more ==> curr_date@ == week_start(birthday, count as nat),
            more == week_start(birthday, count as nat).is_before(end@),
            forall|i: nat| i < count ==> (#[trigger] week_start(birthday, i)).is_before(end@),
            canvas == (Canvas {
                width: geometry.viewbox_width,
                height: geometry.viewbox_height,
                page_color: color_primary@,
            }),
            draws(
                document,
                canvas,
                grid_shapes(
                    geometry,
                    *week_shape,
                    birthday,
                    today@,
                    color_primary@,
                    color_secondary@,
                    count as nat,
                ),
            ),
        decreases
                if more {
                    end@.day_number() - week_start(birthday, count as nat).day_number()
                } else {
                    0
                },
    {
        proof {
            use_type_invariant(&curr_date);
            use_type_invariant(&end);
            curr_date.lemma_valid();
            end.lemma_valid();
            lemma_week_start(birthday, count as nat);
            lemma_week_start(birthday, (count + 1) as nat);
            lemma_day_number_grows(curr_date@, end@);
            lemma_advance(curr_date@, week_length(count as nat));
            assert(week_start(birthday, (count + 1) as nat) == advance(
                week_start(birthday, count as nat),
                week_length(count as nat),
            ));
        }
        // A week is lived once its seven days have passed: on the birthday, the week that
        // begins there has not.
        let fill = if days_between(curr_date, today) >= 7 {
            color_primary
        } else {
            color_secondary
        };
        let element = week_element(&layout, week_shape, count, fill, color_primary);
        let ghost shapes = grid_shapes(
            geometry,
            *week_shape,
            birthday,
            today@,
            color_primary@,
            color_secondary@,
            count as nat,
        );
        let ghost shape = geometry.cell(*week_shape, count as int, fill@, color_primary@);
        append_shape(&mut document, element, Ghost(canvas), Ghost(shapes), Ghost(shape));
        proof {
            assert(shapes.push(shape) =~= grid_shapes(
                geometry,
                *week_shape,
                birthday,
                today@,
                color_primary@,
                color_secondary@,
                (count + 1) as nat,
            ));
        }
        // There are always 52 weeks to the year: the first of them has a day more, and a
        // 29th of February is passed over whenever it comes.
        let week_length: u8 = if count % WEEKS_IN_A_YEAR == 0 {
            8
        } else {
            7
        };
        match step_week(curr_date, week_length) {
            Some(date) => {
                curr_date = date;
                more = curr_date.is_before(&end);
                proof {
                    if more {
                        use_type_invariant(&curr_date);
                        curr_date.lemma_valid();
                        lemma_day_number_grows(curr_date@, end@);
                    }
                }
            },
            None => {
                more = false;
            },
        }
        count = count + 1;
    }
    proof {
        lemma_week_count(birthday, lifespan_years as int);
        lemma_week_count_unique(
            birthday,
            end@,
            count as nat,
            week_count(birthday, lifespan_years as int),
        );
    }
    Ok(document)
}

/// The lived weeks come first: once a week is not lived, no later week is.
pub proof fn lemma_lived_weeks_come_first(
    birthday: CalDate,
    today: CalDate,
    earlier: nat,
    later: nat,
)
    requires
        birthday.valid(),
        earlier <= later,
        week_is_lived(week_start(birthday, later), today),
    ensures
        week_is_lived(week_start(birthday, earlier), today),
{
    lemma_week_start_grows(birthday, earlier, later);
}

/// On the birthday no week is lived, and after seven days the first one is.
pub proof fn lemma_first_week(birthday: CalDate, today: CalDate)
    ensures
        week_is_lived(week_start(birthday, 0), today) <==> today.day_number()
            >= birthday.day_number() + 7,
{
}

/// The squares of the weeks of a lifespan stand in 52 rows and as many columns as the
/// lifespan has years, and each of them lies within the view box.
pub proof fn lemma_squares_lie_in_the_view_box(
    ratios: GridRatios,
    scale_factor: int,
    lifespan_years: int,
    index: int,
)
    requires
        scale_factor >= 0,
        lifespan_years >= 1,
        0 <= index < 52 * lifespan_years,
    ensures
        ({
            let geometry = grid_geometry(ratios, scale_factor, lifespan_years);
            let square = geometry.cell(SvgShape::Square, index, Seq::empty(), Seq::empty());
            &&& 0 <= index / 52 < lifespan_years
            &&& 0 <= index % 52 < 52
            &&& 0 <= square->Rectangle_x
            &&& square->Rectangle_x + square->Rectangle_width <= geometry.viewbox_width
            &&& 0 <= square->Rectangle_y
            &&& square->Rectangle_y + square->Rectangle_height <= geometry.viewbox_height
        }),
{
    let geometry = grid_geometry(ratios, scale_factor, lifespan_years);
    let outer = geometry.outer_shape_size;
    let column = index / 52;
    let row = index % 52;
    assert(0 <= ratios.stroke * scale_factor && 0 <= ratios.padding * scale_factor && 0
        <= ratios.border * scale_factor && 0 <= ratios.length * 2 * scale_factor)
        by (nonlinear_arith)
        requires
            0 <= scale_factor,
            0 <= ratios.stroke,
            0 <= ratios.padding,
            0 <= ratios.border,
            0 <= ratios.length,
    ;
    assert(0 <= ratios.border * outer) by (nonlinear_arith)
        requires
            0 <= outer,
            0 <= ratios.border,
    ;
    assert(0 <= column * outer && column * outer + outer <= outer * lifespan_years)
        by (nonlinear_arith)
        requires
            0 <= column < lifespan_years,
            0 <= outer,
    ;
    assert(0 <= row * outer && row * outer + outer <= outer * 52) by (nonlinear_arith)
        requires
            0 <= row < 52,
            0 <= outer,
    ;
}

} // verus!
