use death_calendar::death_info::{info, life_summary, truncate_u16};
use death_calendar::Date;

fn date(year: i16, month: u8, day: u8) -> Date {
    Date::new(year, month, day).unwrap()
}

#[test]
fn a_lifespan_over_32767_years_counts_as_32767() {
    assert_eq!(truncate_u16(0), 0);
    assert_eq!(truncate_u16(100), 100);
    assert_eq!(truncate_u16(32767), 32767);
    assert_eq!(truncate_u16(32768), 32767);
    assert_eq!(truncate_u16(u16::MAX), 32767);
}

#[test]
fn the_figures_of_a_life_in_its_middle() {
    let s = life_summary(date(2000, 1, 1), 80, date(2050, 1, 1)).unwrap();
    assert_eq!(s.years, 80);
    assert_eq!(s.death_day, date(2080, 1, 1));
    assert_eq!(s.lifespan_days, 29220);
    assert_eq!(s.lifespan_weeks, 80 * 52);
    assert_eq!(s.lifespan_months, 80 * 12);
    assert_eq!(s.days_lived, 18263);
    assert_eq!(s.weeks_lived, 2609);
    assert_eq!(s.months_lived, 600);
    assert_eq!(s.years_lived, 50);
    assert_eq!(s.days_left, 10957);
    assert_eq!(s.weeks_left, 30 * 52);
    assert_eq!(s.months_left, 360);
    assert_eq!(s.years_left, 30);
}

#[test]
fn after_the_day_of_death_what_is_left_has_no_sign() {
    let s = life_summary(date(1900, 1, 1), 50, date(2000, 1, 1)).unwrap();
    assert_eq!(s.death_day, date(1950, 1, 1));
    assert_eq!(s.days_left, 18262);
    assert_eq!(s.years_left, 50);
    assert_eq!(s.weeks_left, 50 * 52);
    assert_eq!(s.months_left, 600);
    assert_eq!(s.years_lived, 100);
}

#[test]
fn there_are_no_figures_for_a_death_after_the_last_year() {
    assert!(life_summary(date(2000, 1, 1), 30767, date(2020, 1, 1)).is_some());
    assert!(life_summary(date(2000, 1, 1), 30768, date(2020, 1, 1)).is_none());
    assert!(life_summary(date(2000, 1, 1), u16::MAX, date(2020, 1, 1)).is_none());
    let s = life_summary(date(-10, 1, 1), u16::MAX, date(2020, 1, 1)).unwrap();
    assert_eq!(s.years, 32767);
    assert_eq!(s.death_day, date(32757, 1, 1));
}

#[test]
fn the_figures_are_told_in_three_paragraphs() {
    let text = info(date(2000, 1, 1), 80, date(2050, 1, 1)).unwrap();
    let expected = "You will live for approximately:
• 29220 days
• 4160 weeks
• 960 months
• 80 years

You will probably die around 2080-01-01.

You have lived for:
• 18263 days
• 2609 weeks
• 600 months
• 50 years

You have remaining:
• 10957 days
• 1560 weeks
• 360 months
• 30 years";
    assert_eq!(text, expected);
    assert_eq!(life_summary(date(2000, 1, 1), 80, date(2050, 1, 1)).unwrap().to_string(), expected);
}

#[test]
fn before_birth_what_has_been_lived_is_negative() {
    let text = info(date(2000, 3, 5), 0, date(1999, 12, 25)).unwrap();
    let expected = "You will live for approximately:
• 0 days
• 0 weeks
• 0 months
• 0 years

You will probably die around 2000-03-05.

You have lived for:
• -71 days
• -10 weeks
• 0 months
• -1 years

You have remaining:
• 71 days
• 0 weeks
• 0 months
• 0 years";
    assert_eq!(text, expected);
}

#[test]
fn years_are_written_in_four_characters_at_least() {
    let of = |year: i16, lifespan: u16| {
        let text = info(date(year, 7, 4), lifespan, date(2000, 1, 1)).unwrap();
        let line = text.lines().nth(6).unwrap().to_string();
        line
    };
    assert_eq!(of(1, 4), "You will probably die around 0005-07-04.");
    assert_eq!(of(-5, 5), "You will probably die around 0000-07-04.");
    assert_eq!(of(-5, 0), "You will probably die around -005-07-04.");
    assert_eq!(of(-50, 0), "You will probably die around -050-07-04.");
    assert_eq!(of(-500, 0), "You will probably die around -500-07-04.");
    assert_eq!(of(-5000, 0), "You will probably die around -5000-07-04.");
    assert_eq!(of(-32768, 0), "You will probably die around -32768-07-04.");
    assert_eq!(of(999, 0), "You will probably die around 0999-07-04.");
    assert_eq!(of(2000, 10767), "You will probably die around 12767-07-04.");
    assert_eq!(info(date(-32768, 12, 31), 0, date(2000, 1, 1)).unwrap().lines().nth(6).unwrap(),
        "You will probably die around -32768-12-31.");
}

#[test]
fn no_text_for_a_death_after_the_last_year() {
    assert!(info(date(2000, 1, 1), 30768, date(2020, 1, 1)).is_none());
    assert!(info(date(32767, 1, 1), 1, date(2020, 1, 1)).is_none());
    assert!(info(date(32767, 1, 1), 0, date(2020, 1, 1)).is_some());
}
