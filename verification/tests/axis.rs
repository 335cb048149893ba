use death_calendar::calendar_image::logarithmic::{
    axis_units, num_to_charcount, str_to_charcount, year_mark, you_are_here, AxisError, YearMark,
};

#[test]
fn a_number_has_as_many_characters_as_decimal_digits() {
    for (num, digits) in [
        (0_u32, 1_u32),
        (1, 1),
        (9, 1),
        (10, 2),
        (99, 2),
        (100, 3),
        (999, 3),
        (1000, 4),
        (32767, 5),
        (65535, 5),
        (99_999, 5),
        (100_000, 6),
        (999_999_999, 9),
        (1_000_000_000, 10),
        (u32::MAX, 10),
    ] {
        assert_eq!(num_to_charcount(num).unwrap(), digits);
        assert_eq!(num_to_charcount(num).unwrap(), str_to_charcount(&num.to_string()).unwrap());
    }
}

#[test]
fn characters_are_counted_not_bytes() {
    assert_eq!(str_to_charcount("").unwrap(), 0);
    assert_eq!(str_to_charcount("You Are Here").unwrap(), 12);
    assert_eq!(str_to_charcount(you_are_here()).unwrap(), 12);
    assert_eq!(str_to_charcount("größer").unwrap(), 6);
    assert_eq!(str_to_charcount("日本語").unwrap(), 3);
}

#[test]
fn the_first_and_the_last_year_always_get_their_label() {
    for lifespan in [1_u16, 2, 80, 100, 1000, u16::MAX] {
        for enough_space in [false, true] {
            assert_eq!(year_mark(0, lifespan, enough_space), YearMark::Label);
            assert_eq!(year_mark(lifespan, lifespan, enough_space), YearMark::Label);
        }
    }
}

#[test]
fn a_year_between_gets_its_label_only_where_there_is_room() {
    for year in 1_u16..100 {
        assert_eq!(year_mark(year, 100, true), YearMark::TickAndLabel);
        assert_eq!(year_mark(year, 100, false), YearMark::Nothing);
    }
    // Past the end of the axis the rule is that of the years between.
    assert_eq!(year_mark(101, 100, false), YearMark::Nothing);
}

#[test]
fn letters_are_24_pixels_high_at_scale_one() {
    let units = axis_units(100, 1).unwrap();
    assert_eq!(units.font_size_pixels, 24);
    assert_eq!(units.lifespan_digits, 3);
    assert_eq!(units.label_chars, 12);
    let units = axis_units(9, 3).unwrap();
    assert_eq!(units.font_size_pixels, 72);
    assert_eq!(units.lifespan_digits, 1);
    let units = axis_units(u16::MAX, 178_956_970).unwrap();
    assert_eq!(units.font_size_pixels, 4_294_967_280);
    assert_eq!(units.lifespan_digits, 5);
}

#[test]
fn an_axis_that_cannot_be_drawn_says_why() {
    assert_eq!(axis_units(0, 1), Err(AxisError::LifespanZero));
    assert_eq!(axis_units(0, 0), Err(AxisError::LifespanZero));
    assert_eq!(axis_units(1, 0), Err(AxisError::ScaleFactorZero));
    assert_eq!(axis_units(1, 178_956_971), Err(AxisError::FontTooLarge));
    assert_eq!(axis_units(1, u32::MAX), Err(AxisError::FontTooLarge));
}
