use invogen::date::Date;
use invogen::historical::Historical;

fn ymd(year: i32, month: u32, day: u32) -> Date {
    Date::from_ymd_opt(year, month, day).unwrap()
}

#[test]
fn as_of_between_two_dates() {
    let mut h: Historical<u32> = Historical::new();
    h.insert(ymd(2021, 4, 1), 10);
    h.insert(ymd(2021, 6, 1), 20);
    assert_eq!(h.as_of(&ymd(2021, 3, 31)), None);
    assert_eq!(h.as_of(&ymd(2021, 4, 1)), Some(&10));
    assert_eq!(h.as_of(&ymd(2021, 5, 31)), Some(&10));
    assert_eq!(h.as_of(&ymd(2021, 6, 1)), Some(&20));
    assert_eq!(h.as_of(&ymd(2030, 1, 1)), Some(&20));
    assert_eq!(h.current(&ymd(2021, 5, 2)), Some(&10));
}

#[test]
fn insert_out_of_order_and_overwrite() {
    let mut h: Historical<&str> = Historical::new();
    h.insert(ymd(2022, 1, 1), "b");
    h.insert(ymd(2021, 1, 1), "a");
    h.insert(ymd(2022, 1, 1), "c");
    assert_eq!(h.as_of(&ymd(2021, 6, 1)), Some(&"a"));
    assert_eq!(h.as_of(&ymd(2022, 6, 1)), Some(&"c"));
}
