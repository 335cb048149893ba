use death_calendar::calendar_image::grid::ParseBorderUnitError;
use death_calendar::svg_generator::DrawingRatios;
use death_calendar::text::{append_decimal, append_digits, same_text};
use death_calendar::BorderUnit;

fn error_message(text: &str) -> String {
    DrawingRatios::from_str(text).unwrap_err().message().to_string()
}

#[test]
fn border_units_are_named_in_any_case() {
    for name in ["0", "pixel", "pixels", "PIXEL", "Pixels", "pIxEl"] {
        assert_eq!(BorderUnit::from_str(name), Ok(BorderUnit::Pixel));
    }
    for name in ["1", "shape", "shapes", "SHAPE", "Shapes", "sHaPeS"] {
        assert_eq!(BorderUnit::from_str(name), Ok(BorderUnit::Shape));
    }
    for name in ["", " ", "2", "pixel ", " shape", "px", "pixelss", "shap", "00", "-0"] {
        assert_eq!(BorderUnit::from_str(name), Err(ParseBorderUnitError));
    }
}

#[test]
fn a_text_in_lowercase_is_taken_as_it_stands() {
    assert_eq!(BorderUnit::from_lowercase("pixel"), Ok(BorderUnit::Pixel));
    assert_eq!(BorderUnit::from_lowercase("shapes"), Ok(BorderUnit::Shape));
    assert_eq!(BorderUnit::from_lowercase("1"), Ok(BorderUnit::Shape));
    assert_eq!(BorderUnit::from_lowercase("PIXEL"), Err(ParseBorderUnitError));
    assert_eq!(BorderUnit::from_lowercase("Shape"), Err(ParseBorderUnitError));
}

#[test]
fn border_units_have_their_names() {
    assert_eq!(BorderUnit::Pixel.to_string(), "pixel");
    assert_eq!(BorderUnit::Shape.to_string(), "shape");
    assert_eq!(
        ParseBorderUnitError.to_string(),
        "Could not parse string as a border unit variant\nDid you misspell it?"
    );
}

#[test]
fn texts_are_compared_character_by_character() {
    assert!(same_text("", ""));
    assert!(same_text("pixel", "pixel"));
    assert!(same_text("größe", "größe"));
    assert!(!same_text("pixel", "pixels"));
    assert!(!same_text("pixels", "pixel"));
    assert!(!same_text("pixel", "pixeL"));
    assert!(!same_text("", "0"));
}

#[test]
fn five_parts_give_the_ratios() {
    let ratios = DrawingRatios::from_str("1,1,15,3,pixel").unwrap();
    assert_eq!(
        ratios,
        DrawingRatios {
            stroke: 1,
            padding: 1,
            length: 15,
            border: 3,
            border_unit: BorderUnit::Pixel
        }
    );
    let ratios = DrawingRatios::from_str("0,+7,0015,4294967295,SHAPES").unwrap();
    assert_eq!(
        ratios,
        DrawingRatios {
            stroke: 0,
            padding: 7,
            length: 15,
            border: 4294967295,
            border_unit: BorderUnit::Shape
        }
    );
    let grid = ratios.to_grid_ratios();
    assert_eq!((grid.stroke, grid.padding, grid.length, grid.border), (0, 7, 15, 4294967295));
    assert_eq!(grid.border_unit, BorderUnit::Shape);
}

#[test]
fn another_number_of_parts_is_refused_first() {
    let wrong_count = "You do not have the correct number of values";
    let texts =
        ["", "1", "1,1,15,3", "1,1,15,3,pixel,", "1,1,15,3,pixel,9", ",,,,,", "a,b", "x,y,z,w,v,u"];
    for text in texts {
        assert_eq!(error_message(text), wrong_count);
    }
}

#[test]
fn a_part_that_is_no_number_is_refused_before_the_unit() {
    let not_a_number = "Value must be a number";
    for text in [
        ",1,15,3,pixel",
        "1,,15,3,pixel",
        "1,1,15,,pixel",
        "-1,1,15,3,pixel",
        "1,1.5,15,3,pixel",
        "1,1,15 ,3,pixel",
        "1,1, 15,3,pixel",
        "1,1,15,+,pixel",
        "1,1,15,++3,pixel",
        "1,1,15,3+,pixel",
        "1,1,15,4294967296,pixel",
        "1,1,15,99999999999999999999999,pixel",
        "1,1,15,٣,pixel",
        "one,1,15,3,pixel",
        "x,1,15,3,nothing",
        ",,,,",
    ] {
        assert_eq!(error_message(text), not_a_number);
    }
}

#[test]
fn a_last_part_that_names_no_unit_is_refused() {
    let bad_unit = "Border unit can only be 'pixel' or 'shape'";
    for text in ["1,1,15,3,", "1,1,15,3,px", "1,1,15,3, pixel", "1,1,15,3,2"] {
        assert_eq!(error_message(text), bad_unit);
    }
}

#[test]
fn the_error_reads_as_a_sentence() {
    let error = DrawingRatios::from_str("1,2,3").unwrap_err();
    assert_eq!(
        error.to_string(),
        "\nCould not parse the ratio string: You do not have the correct number of values."
    );
}

#[test]
fn numbers_are_written_in_decimal() {
    for n in [0_u64, 1, 9, 10, 11, 99, 100, 101, 1234567890, 4294967295, u64::MAX] {
        let mut text = String::from("n=");
        append_digits(&mut text, n);
        assert_eq!(text, format!("n={n}"));
    }
    for n in [0_i32, 1, -1, 9, -9, 10, -10, 12345, -12345, i32::MAX, i32::MIN] {
        let mut text = String::new();
        append_decimal(&mut text, n);
        assert_eq!(text, n.to_string());
    }
}
