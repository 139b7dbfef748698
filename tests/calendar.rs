use invogen::date::{Date, DateBoundaries};

fn ymd(year: i32, month: u32, day: u32) -> Date {
    Date::from_ymd_opt(year, month, day).unwrap()
}

fn assert_expected_date(date: Option<Date>, year: i32, month: u32, day: u32) {
    assert_eq!(date, Date::from_ymd_opt(year, month, day));
}

#[test]
fn end_of_month() {
    assert_expected_date(ymd(2023, 1, 30).end_of_month(), 2023, 1, 31);
    assert_expected_date(ymd(2023, 2, 9).end_of_month(), 2023, 2, 28);
    assert_expected_date(ymd(2024, 2, 9).end_of_month(), 2024, 2, 29);
    assert_expected_date(ymd(2023, 9, 24).end_of_month(), 2023, 9, 30);
    assert_expected_date(ymd(2023, 12, 24).end_of_month(), 2023, 12, 31);
}

#[test]
fn start_of_month() {
    assert_expected_date(ymd(2023, 1, 30).start_of_month(), 2023, 1, 1);
    assert_expected_date(ymd(2023, 2, 9).start_of_month(), 2023, 2, 1);
    assert_expected_date(ymd(2024, 2, 9).start_of_month(), 2024, 2, 1);
}

#[test]
fn end_of_week() {
    assert_expected_date(ymd(2023, 1, 30).end_of_week(), 2023, 2, 5);
    assert_expected_date(ymd(2023, 11, 15).end_of_week(), 2023, 11, 19);
    assert_expected_date(ymd(2023, 11, 12).end_of_week(), 2023, 11, 12);
    assert_expected_date(ymd(2023, 12, 31).end_of_week(), 2023, 12, 31);
    assert_expected_date(ymd(2024, 12, 31).end_of_week(), 2025, 1, 5);
}

#[test]
fn start_of_week() {
    assert_expected_date(ymd(2023, 2, 4).start_of_week(), 2023, 1, 30);
    assert_expected_date(ymd(2023, 11, 15).start_of_week(), 2023, 11, 13);
    assert_expected_date(ymd(2023, 11, 13).start_of_week(), 2023, 11, 13);
    assert_expected_date(ymd(2023, 12, 31).start_of_week(), 2023, 12, 25);
    assert_expected_date(ymd(2025, 1, 4).start_of_week(), 2024, 12, 30);
}

#[test]
fn date_fields_and_day_numbers() {
    let d = ymd(1970, 1, 1);
    assert_eq!(d.num_days_from_ce(), 719_163);
    assert_eq!((d.year(), d.month(), d.day()), (1970, 1, 1));
    assert_eq!(ymd(1, 1, 1).num_days_from_ce(), 1);
    assert_eq!(ymd(1, 1, 1).weekday(), 0);
    assert_eq!(ymd(2023, 11, 18).weekday(), 5);
    assert!(Date::from_ymd_opt(2023, 2, 29).is_none());
    assert!(Date::from_ymd_opt(2023, 13, 1).is_none());
}

#[test]
fn day_steps() {
    let d = ymd(2023, 12, 31);
    assert_eq!(d.succ(), Date::from_ymd_opt(2024, 1, 1));
    assert_eq!(d.checked_add_days(9), Date::from_ymd_opt(2024, 1, 9));
    assert_eq!(ymd(2024, 3, 1).checked_sub_days(1), Date::from_ymd_opt(2024, 2, 29));
    assert_eq!(Date::max_value().succ(), None);
    assert_eq!(Date::min_value().checked_sub_days(1), None);
    assert_eq!(Date::max_value().end_of_month(), None);
}
