use death_calendar::calendar_image::grid::{grid_layout, render_svg, RenderError};
use death_calendar::calendar_image::init_document;
use death_calendar::{BorderUnit, Date, DrawingInfoValidated, GridRatios, LifeInfo, SvgShape};
use svg::Node;

fn date(year: i16, month: u8, day: u8) -> Date {
    Date::new(year, month, day).unwrap()
}

fn colors(scale_factor: u32) -> DrawingInfoValidated {
    DrawingInfoValidated {
        scale_factor,
        color_primary: "#000000".to_string(),
        color_secondary: "#ffffff".to_string(),
    }
}

fn life(birthday: Date, lifespan_years: u16) -> LifeInfo {
    LifeInfo { birthday, lifespan_years }
}

fn attribute(document: &svg::Document, child: usize, name: &str) -> String {
    let children = document.get_children().unwrap();
    children[child].get_attributes().unwrap().get(name).unwrap().to_string()
}

fn has_attribute(document: &svg::Document, child: usize, name: &str) -> bool {
    let children = document.get_children().unwrap();
    children[child].get_attributes().unwrap().contains_key(name)
}

fn child_name(document: &svg::Document, child: usize) -> String {
    document.get_children().unwrap()[child].get_name().to_string()
}

fn child_count(document: &svg::Document) -> usize {
    document.get_children().unwrap().len()
}

#[test]
fn default_ratios_are_one_one_fifteen_three_pixel() {
    let ratios = GridRatios::default();
    assert_eq!(
        (ratios.stroke, ratios.padding, ratios.length, ratios.border),
        (1, 1, 15, 3)
    );
    assert_eq!(ratios.border_unit, BorderUnit::Pixel);
}

#[test]
fn layout_follows_the_sizing_steps() {
    let layout = grid_layout(&GridRatios::default(), 1, 1).unwrap();
    assert_eq!(layout.stroke_width, 2);
    assert_eq!(layout.padding, 1);
    assert_eq!(layout.inner_shape_size, 32);
    assert_eq!(layout.outer_shape_size, 36);
    assert_eq!(layout.border, 3);
    assert_eq!(layout.grid_width, 36);
    assert_eq!(layout.grid_height, 1872);
    assert_eq!(layout.viewbox_width, 44);
    assert_eq!(layout.viewbox_height, 1880);

    let ratios =
        GridRatios { stroke: 2, padding: 3, length: 5, border: 7, border_unit: BorderUnit::Pixel };
    let layout = grid_layout(&ratios, 4, 80).unwrap();
    assert_eq!(layout.stroke_width, 16);
    assert_eq!(layout.padding, 12);
    assert_eq!(layout.inner_shape_size, 56);
    assert_eq!(layout.outer_shape_size, 96);
    assert_eq!(layout.border, 28);
    assert_eq!(layout.grid_width, 96 * 80);
    assert_eq!(layout.grid_height, 96 * 52);
    assert_eq!(layout.viewbox_width, 96 * 80 + 56 + 24);
    assert_eq!(layout.viewbox_height, 96 * 52 + 56 + 24);
}

#[test]
fn a_border_in_shapes_is_a_multiple_of_the_outer_shape_size() {
    let ratios =
        GridRatios { stroke: 1, padding: 1, length: 15, border: 3, border_unit: BorderUnit::Shape };
    let layout = grid_layout(&ratios, 2, 10).unwrap();
    assert_eq!(layout.outer_shape_size, 72);
    // Not scaled a second time: three shapes at the scale of the drawing.
    assert_eq!(layout.border, 216);
    assert_eq!(layout.viewbox_width, 720 + 432 + 4);
}

#[test]
fn a_negative_lifespan_gives_a_grid_without_columns() {
    let layout = grid_layout(&GridRatios::default(), 1, -5).unwrap();
    assert_eq!(layout.grid_width, 0);
    assert_eq!(layout.viewbox_width, 8);
    assert_eq!(layout.viewbox_height, 1880);
    let none = grid_layout(&GridRatios::default(), 1, 0).unwrap();
    assert_eq!(none.grid_width, 0);
}

#[test]
fn a_layout_beyond_32_bits_is_refused() {
    assert!(grid_layout(&GridRatios::default(), u32::MAX, 1).is_none());
    let wide =
        GridRatios { stroke: 0, padding: 0, length: 1, border: 0, border_unit: BorderUnit::Pixel };
    // 2 * 41_297_762 * 52 is the last height that fits.
    assert!(grid_layout(&wide, 41_297_762, 1).is_some());
    assert!(grid_layout(&wide, 41_297_763, 1).is_none());
    // The width is what overflows here: 2 * 1_000_000 * 2148 columns.
    assert!(grid_layout(&wide, 1_000_000, 2147).is_some());
    assert!(grid_layout(&wide, 1_000_000, 2148).is_none());
}

#[test]
fn a_document_begins_with_its_background() {
    let document = init_document(44, 1880, "#000000", "#ffffff");
    assert_eq!(child_count(&document), 1);
    assert_eq!(child_name(&document, 0), "rect");
    assert_eq!(attribute(&document, 0, "x"), "0");
    assert_eq!(attribute(&document, 0, "y"), "0");
    assert_eq!(attribute(&document, 0, "width"), "44");
    assert_eq!(attribute(&document, 0, "height"), "1880");
    assert_eq!(attribute(&document, 0, "fill"), "#ffffff");
    assert!(!has_attribute(&document, 0, "stroke"));
    let attributes = document.get_attributes().unwrap();
    assert_eq!(attributes.get("viewBox").unwrap().to_string(), "0 0 44 1880");
    assert_eq!(attributes.get("style").unwrap().to_string(), "background-color:#000000");
}

#[test]
fn one_year_of_life_is_one_column_of_52_squares() {
    let today = date(2000, 6, 1);
    let document = render_svg(
        &life(date(2000, 1, 1), 1),
        &colors(1),
        &GridRatios::default(),
        &SvgShape::Square,
        today,
    )
    .unwrap();
    assert_eq!(child_count(&document), 53);
    assert_eq!(
        document.get_attributes().unwrap().get("viewBox").unwrap().to_string(),
        "0 0 44 1880"
    );
    for week in 0..52 {
        let child = week + 1;
        assert_eq!(child_name(&document, child), "rect");
        assert_eq!(attribute(&document, child, "x"), "6");
        assert_eq!(attribute(&document, child, "y"), (week * 36 + 6).to_string());
        assert_eq!(attribute(&document, child, "width"), "32");
        assert_eq!(attribute(&document, child, "height"), "32");
        assert_eq!(attribute(&document, child, "stroke"), "#000000");
        assert_eq!(attribute(&document, child, "stroke-width"), "2");
    }
}

#[test]
fn circles_are_placed_by_their_centre() {
    let ratios =
        GridRatios { stroke: 1, padding: 3, length: 15, border: 3, border_unit: BorderUnit::Pixel };
    let document = render_svg(
        &life(date(2000, 1, 1), 2),
        &colors(1),
        &ratios,
        &SvgShape::Circle,
        date(1999, 1, 1),
    )
    .unwrap();
    assert_eq!(child_count(&document), 105);
    // outer = 32 + 6 + 2 = 40; the offset is 6 + 3 / 2 + 40 / 2 = 27.
    assert_eq!(child_name(&document, 1), "circle");
    assert_eq!(attribute(&document, 1, "cx"), "27");
    assert_eq!(attribute(&document, 1, "cy"), "27");
    assert_eq!(attribute(&document, 1, "r"), "16");
    assert_eq!(attribute(&document, 1, "stroke-width"), "2");
    // Week 53 is the second row of the second column.
    assert_eq!(attribute(&document, 54, "cx"), "67");
    assert_eq!(attribute(&document, 54, "cy"), "67");
    assert_eq!(attribute(&document, 104, "cx"), "67");
    assert_eq!(attribute(&document, 104, "cy"), (51 * 40 + 27).to_string());
}

#[test]
fn every_lifespan_has_52_weeks_to_the_year() {
    for (y, m, d) in [(2000, 1, 1), (1999, 3, 1), (1996, 2, 28), (2001, 12, 31), (1900, 2, 28)] {
        for years in [0_u16, 1, 3, 4, 5, 80, 101] {
            let document = render_svg(
                &life(date(y, m, d), years),
                &colors(1),
                &GridRatios::default(),
                &SvgShape::Square,
                date(2020, 1, 1),
            )
            .unwrap();
            assert_eq!(child_count(&document), 1 + 52 * usize::from(years));
        }
    }
}

#[test]
fn a_life_from_leap_day_to_leap_day_has_one_week_more() {
    let birthday = date(1996, 2, 29);
    let cases =
        [(0_u16, 0_usize), (1, 52), (3, 156), (4, 209), (8, 417), (99, 5148), (104, 5408)];
    for (years, weeks) in cases {
        let document = render_svg(
            &life(birthday, years),
            &colors(1),
            &GridRatios::default(),
            &SvgShape::Square,
            date(2020, 1, 1),
        )
        .unwrap();
        assert_eq!(child_count(&document), 1 + weeks);
    }
    // 2100 has no leap day: 104 years end on the 28th of February.
    let document = render_svg(
        &life(birthday, 4),
        &colors(1),
        &GridRatios::default(),
        &SvgShape::Square,
        date(2020, 1, 1),
    )
    .unwrap();
    // The week beyond the last column stands at the top of the column after it.
    assert_eq!(attribute(&document, 209, "x"), (4 * 36 + 6).to_string());
    assert_eq!(attribute(&document, 209, "y"), "6");
}

#[test]
fn a_week_is_lived_once_its_seven_days_have_passed() {
    let birthday = date(2000, 1, 1);
    let draw = |today: Date| {
        render_svg(&life(birthday, 1), &colors(1), &GridRatios::default(), &SvgShape::Square, today)
            .unwrap()
    };
    let on_the_birthday = draw(birthday);
    assert_eq!(attribute(&on_the_birthday, 1, "fill"), "#ffffff");
    let after_six_days = draw(date(2000, 1, 7));
    assert_eq!(attribute(&after_six_days, 1, "fill"), "#ffffff");
    let after_seven_days = draw(date(2000, 1, 8));
    assert_eq!(attribute(&after_seven_days, 1, "fill"), "#000000");
    assert_eq!(attribute(&after_seven_days, 2, "fill"), "#ffffff");
    // The first week has eight days: the second begins on the 9th and is lived on the 16th.
    let on_the_fifteenth = draw(date(2000, 1, 15));
    assert_eq!(attribute(&on_the_fifteenth, 2, "fill"), "#ffffff");
    let on_the_sixteenth = draw(date(2000, 1, 16));
    assert_eq!(attribute(&on_the_sixteenth, 2, "fill"), "#000000");
    assert_eq!(attribute(&on_the_sixteenth, 3, "fill"), "#ffffff");
    let long_after = draw(date(2010, 1, 1));
    for child in 1..53 {
        assert_eq!(attribute(&long_after, child, "fill"), "#000000");
    }
    let long_before = draw(date(1990, 1, 1));
    for child in 1..53 {
        assert_eq!(attribute(&long_before, child, "fill"), "#ffffff");
    }
}

#[test]
fn the_walk_passes_over_the_leap_day() {
    // From the 22nd of February 2000 the first week is eight steps long and ends on the 2nd
    // of March, the 29th of February not counted.
    let birthday = date(2000, 2, 22);
    let draw = |today: Date| {
        render_svg(&life(birthday, 1), &colors(1), &GridRatios::default(), &SvgShape::Square, today)
            .unwrap()
    };
    assert_eq!(attribute(&draw(date(2000, 3, 8)), 2, "fill"), "#ffffff");
    assert_eq!(attribute(&draw(date(2000, 3, 9)), 2, "fill"), "#000000");
}

#[test]
fn a_grid_that_cannot_be_drawn_says_why() {
    let ratios = GridRatios::default();
    let today = date(2020, 1, 1);
    let square = SvgShape::Square;
    assert_eq!(
        render_svg(&life(date(2000, 1, 1), 80), &colors(0), &ratios, &square, today).err(),
        Some(RenderError::ScaleFactorZero)
    );
    assert_eq!(
        render_svg(&life(date(2000, 1, 1), 32768), &colors(1), &ratios, &square, today).err(),
        Some(RenderError::LifespanOutOfRange)
    );
    assert_eq!(
        render_svg(&life(date(2000, 1, 1), 30768), &colors(1), &ratios, &square, today).err(),
        Some(RenderError::DateOutOfRange)
    );
    assert_eq!(
        render_svg(&life(date(2000, 1, 1), 80), &colors(u32::MAX), &ratios, &square, today).err(),
        Some(RenderError::DrawingTooLarge)
    );
    // The first thing that is wrong is the one that is named.
    assert_eq!(
        render_svg(&life(date(2000, 1, 1), 40000), &colors(0), &ratios, &square, today).err(),
        Some(RenderError::ScaleFactorZero)
    );
}

#[test]
fn a_life_that_ends_in_the_last_year_of_all_is_drawn() {
    let document = render_svg(
        &life(date(32765, 12, 31), 2),
        &colors(1),
        &GridRatios::default(),
        &SvgShape::Square,
        date(2020, 1, 1),
    )
    .unwrap();
    assert_eq!(child_count(&document), 105);
}
