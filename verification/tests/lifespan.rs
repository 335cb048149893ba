use death_calendar::{
    days_left, days_lived, death_day, lifespan_days, lifespan_months, lifespan_weeks, months_left,
    months_lived, weeks_left, weeks_lived, years_left, years_lived, Date,
};

const AVERAGE_DAYS_IN_YEAR: f64 = 365.2425;

#[test]
fn given_birthday_and_lifespan_return_death_day() {
    assert_eq!(
        death_day(Date::new(2000, 1, 1).unwrap(), 80),
        Date::new(2080, 1, 1).unwrap(),
    );
    assert_eq!(
        death_day(Date::new(1996, 2, 29).unwrap(), 99),
        Date::new(2095, 2, 28).unwrap(),
    );
    assert_eq!(
        death_day(Date::new(1998, 8, 15).unwrap(), 1000),
        Date::new(2998, 8, 15).unwrap(),
    );
    assert_eq!(
        death_day(Date::new(1, 1, 1).unwrap(), 100),
        Date::new(101, 1, 1).unwrap(),
    );
}

#[test]
fn given_birthday_and_lifespan_return_lifespan() {
    // Months
    assert_eq!(lifespan_months(100), (12 * 100));
    assert_eq!(lifespan_months(75), (12 * 75));
    // Weeks
    assert_eq!(lifespan_weeks(100), (52 * 100));
    assert_eq!(lifespan_weeks(75), (52 * 75));
    // Days
    assert_eq!(lifespan_days(Date::new(2000, 1, 1).unwrap(), 80), 29220);
    assert_eq!(lifespan_days(Date::new(1996, 2, 29).unwrap(), 99), 36159);
    assert_eq!(
        lifespan_days(Date::new(1998, 8, 15).unwrap(), 1000),
        365_243
    );
}

#[test]
fn given_birthday_lifespan_and_date_after_birth_return_life_lived() {
    // Years
    assert_eq!(
        years_lived(Date::new(2000, 1, 1).unwrap(), Date::new(0, 1, 1).unwrap()),
        2000
    );
    assert_eq!(
        years_lived(
            Date::new(1999, 12, 31).unwrap(),
            Date::new(0, 1, 1).unwrap()
        ),
        1999
    );
    assert_eq!(
        years_lived(
            Date::new(2100, 1, 1).unwrap(),
            Date::new(2000, 1, 1).unwrap()
        ),
        100
    );
    assert_eq!(
        years_lived(
            Date::new(2099, 12, 31).unwrap(),
            Date::new(2000, 1, 1).unwrap()
        ),
        99
    );
    assert_eq!(
        years_lived(
            Date::new(2100, 3, 3).unwrap(),
            Date::new(2000, 3, 3).unwrap()
        ),
        100
    );
    assert_eq!(
        years_lived(
            Date::new(2100, 3, 2).unwrap(),
            Date::new(2000, 3, 3).unwrap()
        ),
        99
    );
    // Months
    assert_eq!(
        months_lived(
            Date::new(2100, 1, 1).unwrap(),
            Date::new(2000, 1, 1).unwrap()
        ),
        (100 * 12)
    );
    // Weeks
    assert_eq!(
        weeks_lived(
            Date::new(2000, 1, 7).unwrap(),
            Date::new(2000, 1, 1).unwrap()
        ),
        0
    );
    assert_eq!(
        weeks_lived(
            Date::new(2000, 1, 8).unwrap(),
            Date::new(2000, 1, 1).unwrap()
        ),
        1
    );
    assert_eq!(
        weeks_lived(
            Date::new(2000, 12, 31).unwrap(),
            Date::new(2000, 1, 1).unwrap()
        ),
        52
    );
    assert_eq!(
        weeks_lived(
            Date::new(2001, 1, 1).unwrap(),
            Date::new(2000, 1, 1).unwrap()
        ),
        52
    );
    // Days
    assert_eq!(
        days_lived(
            Date::new(2000, 1, 2).unwrap(),
            Date::new(2000, 1, 1).unwrap()
        ),
        1
    );
    assert_eq!(
        days_lived(
            Date::new(2000, 2, 1).unwrap(),
            Date::new(2000, 1, 1).unwrap()
        ),
        31
    );
    assert_eq!(
        days_lived(
            Date::new(2010, 1, 1).unwrap(),
            Date::new(2000, 1, 1).unwrap()
        ),
        (10.0 * AVERAGE_DAYS_IN_YEAR) as i32 + 1
    );
    assert_eq!(
        days_lived(
            Date::new(2100, 1, 1).unwrap(),
            Date::new(2000, 1, 1).unwrap()
        ),
        (100.0 * AVERAGE_DAYS_IN_YEAR) as i32 + 1
    );
    assert_eq!(
        days_lived(
            Date::new(3000, 1, 1).unwrap(),
            Date::new(2000, 1, 1).unwrap()
        ),
        (1000.0 * AVERAGE_DAYS_IN_YEAR) as i32 + 1
    );
}

#[test]
fn given_birthday_lifespan_and_date_after_birth_return_life_remaining() {
    // Years
    assert_eq!(
        years_left(
            Date::new(2050, 1, 1).unwrap(),
            Date::new(2000, 1, 1).unwrap(),
            100
        ),
        50,
    );
    assert_eq!(
        years_left(
            Date::new(2020, 1, 1).unwrap(),
            Date::new(2000, 1, 1).unwrap(),
            100
        ),
        80,
    );
    assert_eq!(
        years_left(
            Date::new(2000, 1, 1).unwrap(),
            Date::new(0, 1, 1).unwrap(),
            100
        ),
        -1900,
    );
    // Months
    assert_eq!(
        months_left(
            Date::new(2050, 1, 1).unwrap(),
            Date::new(2000, 1, 1).unwrap(),
            100
        ),
        50 * 12,
    );
    assert_eq!(
        months_left(
            Date::new(2000, 1, 1).unwrap(),
            Date::new(0, 1, 1).unwrap(),
            100
        ),
        -1900 * 12,
    );
    // Weeks
    assert_eq!(
        weeks_left(
            Date::new(2050, 1, 1).unwrap(),
            Date::new(2000, 1, 1).unwrap(),
            100
        ),
        50 * 52
    );
    assert_eq!(
        weeks_left(
            Date::new(2099, 1, 1).unwrap(),
            Date::new(2000, 1, 1).unwrap(),
            100
        ),
        52
    );
    assert_eq!(
        weeks_left(
            Date::new(2000, 1, 1).unwrap(),
            Date::new(0, 1, 1).unwrap(),
            100
        ),
        -1900 * 52
    );
    // Days
    assert_eq!(
        days_left(
            Date::new(2050, 1, 1).unwrap(),
            Date::new(2000, 1, 1).unwrap(),
            100
        ),
        (50.0 * AVERAGE_DAYS_IN_YEAR) as i32,
    );
    assert_eq!(
        days_left(
            Date::new(2000, 1, 1).unwrap(),
            Date::new(0, 1, 1).unwrap(),
            100
        ),
        (-1900.0 * AVERAGE_DAYS_IN_YEAR) as i32,
    );
}
