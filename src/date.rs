//! Calendar dates of the proleptic Gregorian calendar, computed by `chrono`.
use chrono::{Datelike, Days, Months, NaiveDate};
use vstd::prelude::*;

verus! {

pub const MIN_YEAR: i32 = -262143;

pub const MAX_YEAR: i32 = 262142;

pub open spec fn is_leap(y: int) -> bool {
    (y % 4 == 0 && y % 100 != 0) || y % 400 == 0
}

pub open spec fn days_in_month(y: int, m: int) -> int {
    if m == 2 {
        if is_leap(y) {
            29
        } else {
            28
        }
    } else if m == 4 || m == 6 || m == 9 || m == 11 {
        30
    } else {
        31
    }
}

/// A calendar date that exists within the supported years.
pub open spec fn valid_ymd(y: int, m: int, d: int) -> bool {
    MIN_YEAR <= y <= MAX_YEAR && 1 <= m <= 12 && 1 <= d <= days_in_month(y, m)
}

pub open spec fn days_before_year(y: int) -> int {
    let p = y - 1;
    365 * p + p / 4 - p / 100 + p / 400
}

pub open spec fn days_before_month(y: int, m: int) -> int
    decreases m,
{
    if m <= 1 {
        0
    } else {
        days_before_month(y, m - 1) + days_in_month(y, m - 1)
    }
}

/// The day number of a date, January 1 of year 1 being day 1.
pub open spec fn day_number(y: int, m: int, d: int) -> int {
    days_before_year(y) + days_before_month(y, m) + d
}

pub open spec fn min_days() -> int {
    day_number(MIN_YEAR as int, 1, 1)
}

pub open spec fn max_days() -> int {
    day_number(MAX_YEAR as int, 12, 31)
}

/// Day of the week of a day number, Monday being 0 and Sunday 6.
pub open spec fn weekday_of(n: int) -> int {
    (n + 6) % 7
}

/// A date: its day number together with its year, month and day.
#[derive(Clone, Copy, Debug, PartialEq, Eq, Structural)]
pub struct Date {
    num: i32,
    year: i32,
    month: u32,
    day: u32,
}

impl Date {
    #[verifier::type_invariant]
    spec fn inv(self) -> bool {
        &&& valid_ymd(self.year as int, self.month as int, self.day as int)
        &&& self.num == day_number(self.year as int, self.month as int, self.day as int)
        &&& min_days() <= self.num <= max_days()
    }

    /// The day number, January 1 of year 1 being day 1.
    pub closed spec fn days(self) -> int {
        self.num as int
    }

    pub closed spec fn y(self) -> int {
        self.year as int
    }

    pub closed spec fn m(self) -> int {
        self.month as int
    }

    pub closed spec fn d(self) -> int {
        self.day as int
    }

    /// The date has these fields.
    pub open spec fn is(self, y: int, m: int, d: int) -> bool {
        self.y() == y && self.m() == m && self.d() == d && self.days() == day_number(y, m, d)
    }

    pub fn year(&self) -> (r: i32)
        ensures
            r == self.y(),
            MIN_YEAR <= r <= MAX_YEAR,
    {
        proof {
            use_type_invariant(self);
        }
        self.year
    }

    pub fn month(&self) -> (r: u32)
        ensures
            r == self.m(),
            1 <= r <= 12,
    {
        proof {
            use_type_invariant(self);
        }
        self.month
    }

    pub fn day(&self) -> (r: u32)
        ensures
            r == self.d(),
            1 <= r <= days_in_month(self.y(), self.m()),
    {
        proof {
            use_type_invariant(self);
        }
        self.day
    }

    pub fn num_days_from_ce(&self) -> (r: i32)
        ensures
            r == self.days(),
            min_days() <= r <= max_days(),
            r == day_number(self.y(), self.m(), self.d()),
    {
        proof {
            use_type_invariant(self);
        }
        self.num
    }

    /// The date with this year, month and day, if it exists.
    pub fn from_ymd_opt(year: i32, month: u32, day: u32) -> (r: Option<Date>)
        ensures
            r is Some <==> valid_ymd(year as int, month as int, day as int),
            r matches Some(x) ==> x.is(year as int, month as int, day as int),
    {
        naive_from_ymd(year, month, day)
    }
}

/// Relies on `NaiveDate::from_ymd_opt`: `Some` exactly for the dates that exist
/// in the supported years, with the day numbers of `Datelike::num_days_from_ce`.
#[verifier::external_body]
fn naive_from_ymd(year: i32, month: u32, day: u32) -> (r: Option<Date>)
    ensures
        r is Some <==> valid_ymd(year as int, month as int, day as int),
        r matches Some(x) ==> x.is(year as int, month as int, day as int),
{
    NaiveDate::from_ymd_opt(year, month, day).map(
        |n| Date { num: n.num_days_from_ce(), year: n.year(), month: n.month(), day: n.day() },
    )
}

/// Relies on `Datelike::with_day`: the same year and month with another day,
/// if that day exists in the month.
#[verifier::external_body]
fn naive_with_day(date: &Date, day: u32) -> (r: Option<Date>)
    ensures
        r is Some <==> 1 <= day <= days_in_month(date.y(), date.m()),
        r matches Some(x) ==> x.is(date.y(), date.m(), day as int),
{
    let n = NaiveDate::from_ymd_opt(date.year, date.month, date.day).unwrap();
    n.with_day(day).map(
        |n| Date { num: n.num_days_from_ce(), year: n.year(), month: n.month(), day: n.day() },
    )
}

/// The year and month that lie `k` months after year `y`, month `m`.
pub open spec fn month_shift(y: int, m: int, k: int) -> (int, int) {
    let t = y * 12 + (m - 1) + k;
    (t / 12, t % 12 + 1)
}

/// Day `d` if the month `ym` has it, else that month's last day.
pub open spec fn clamp_day(d: int, ym: (int, int)) -> int {
    if d <= days_in_month(ym.0, ym.1) {
        d
    } else {
        days_in_month(ym.0, ym.1)
    }
}

/// Relies on `NaiveDate::checked_add_months`: the month `months` later, the day
/// clamped to that month's length; `None` past the supported years.
#[verifier::external_body]
fn naive_add_months(date: &Date, months: u32) -> (r: Option<Date>)
    ensures
        r is Some <==> (months <= i32::MAX && MIN_YEAR <= month_shift(date.y(), date.m(), months as int).0
            <= MAX_YEAR),
        r matches Some(x) ==> x.is(
            month_shift(date.y(), date.m(), months as int).0,
            month_shift(date.y(), date.m(), months as int).1,
            clamp_day(date.d(), month_shift(date.y(), date.m(), months as int)),
        ),
{
    let n = NaiveDate::from_ymd_opt(date.year, date.month, date.day).unwrap();
    n.checked_add_months(Months::new(months)).map(
        |n| Date { num: n.num_days_from_ce(), year: n.year(), month: n.month(), day: n.day() },
    )
}

/// Relies on `NaiveDate::checked_add_days`: the date `n` days later, if it is
/// within the supported years.
#[verifier::external_body]
fn naive_add_days(date: &Date, n: u64) -> (r: Option<Date>)
    ensures
        r is Some <==> (n <= i32::MAX && date.days() + n <= max_days()),
        r matches Some(x) ==> x.days() == date.days() + n,
{
    let d = NaiveDate::from_ymd_opt(date.year, date.month, date.day).unwrap();
    d.checked_add_days(Days::new(n)).map(
        |n| Date { num: n.num_days_from_ce(), year: n.year(), month: n.month(), day: n.day() },
    )
}

/// The calendar day before year `y`, month `m`, day `d`.
pub open spec fn prev_day(y: int, m: int, d: int) -> (int, int, int) {
    if d > 1 {
        (y, m, d - 1)
    } else if m > 1 {
        (y, m - 1, days_in_month(y, m - 1))
    } else {
        (y - 1, 12, 31)
    }
}

/// Relies on `NaiveDate::checked_sub_days`: the date `n` days earlier, if it is
/// within the supported years; one day earlier is the previous calendar day, which every date but the
/// earliest has.
#[verifier::external_body]
fn naive_sub_days(date: &Date, n: u64) -> (r: Option<Date>)
    ensures
        r is Some <==> (n <= i32::MAX && date.days() - n >= min_days()),
        r matches Some(x) ==> x.days() == date.days() - n,
        n == 1 ==> (r is Some <==> !(date.y() == MIN_YEAR && date.m() == 1 && date.d() == 1)),
        n == 1 ==> (r matches Some(x) ==> x.is(
            prev_day(date.y(), date.m(), date.d()).0,
            prev_day(date.y(), date.m(), date.d()).1,
            prev_day(date.y(), date.m(), date.d()).2,
        )),
{
    let d = NaiveDate::from_ymd_opt(date.year, date.month, date.day).unwrap();
    d.checked_sub_days(Days::new(n)).map(
        |n| Date { num: n.num_days_from_ce(), year: n.year(), month: n.month(), day: n.day() },
    )
}

/// Relies on `Datelike::weekday` and `Weekday::num_days_from_monday`: day 1
/// (January 1 of year 1) was a Monday, and weekdays repeat every seven days.
#[verifier::external_body]
fn naive_weekday(date: &Date) -> (r: u32)
    ensures
        r == weekday_of(date.days()),
{
    let n = NaiveDate::from_ymd_opt(date.year, date.month, date.day).unwrap();
    n.weekday().num_days_from_monday()
}

/// Relies on `NaiveDate::MIN`: January 1 of the earliest supported year.
#[verifier::external_body]
fn naive_min() -> (r: Date)
    ensures
        r.is(MIN_YEAR as int, 1, 1),
{
    let n = NaiveDate::MIN;
    Date { num: n.num_days_from_ce(), year: n.year(), month: n.month(), day: n.day() }
}

/// Relies on `NaiveDate::MAX`: December 31 of the latest supported year.
#[verifier::external_body]
fn naive_max() -> (r: Date)
    ensures
        r.is(MAX_YEAR as int, 12, 31),
{
    let n = NaiveDate::MAX;
    Date { num: n.num_days_from_ce(), year: n.year(), month: n.month(), day: n.day() }
}

/// The earliest supported date.
pub closed spec fn min_date() -> Date {
    Date { num: min_days() as i32, year: MIN_YEAR, month: 1, day: 1 }
}

/// The latest supported date.
pub closed spec fn max_date() -> Date {
    Date { num: max_days() as i32, year: MAX_YEAR, month: 12, day: 31 }
}

impl Date {
    /// The earliest supported date.
    pub fn min_value() -> (r: Date)
        ensures
            r == min_date(),
            r.is(MIN_YEAR as int, 1, 1),
            r.days() == min_days(),
    {
        let r = naive_min();
        proof {
            use_type_invariant(&r);
        }
        r
    }

    /// The latest supported date.
    pub fn max_value() -> (r: Date)
        ensures
            r == max_date(),
            r.is(MAX_YEAR as int, 12, 31),
            r.days() == max_days(),
    {
        let r = naive_max();
        proof {
            use_type_invariant(&r);
        }
        r
    }

    /// Day of the week, Monday being 0 and Sunday 6.
    pub fn weekday(&self) -> (r: u32)
        ensures
            r == weekday_of(self.days()),
            r < 7,
    {
        naive_weekday(self)
    }

    /// The next day, if it is supported.
    pub fn succ(&self) -> (r: Option<Date>)
        ensures
            r is Some <==> self.days() < max_days(),
            r matches Some(x) ==> x.days() == self.days() + 1,
    {
        naive_add_days(self, 1)
    }

    /// The date `n` days later, if it is supported.
    pub fn checked_add_days(&self, n: u64) -> (r: Option<Date>)
        ensures
            r is Some <==> (n <= i32::MAX && self.days() + n <= max_days()),
            r matches Some(x) ==> x.days() == self.days() + n,
    {
        naive_add_days(self, n)
    }

    /// The date `n` days earlier, if it is supported.
    pub fn checked_sub_days(&self, n: u64) -> (r: Option<Date>)
        ensures
            r is Some <==> (n <= i32::MAX && self.days() - n >= min_days()),
            r matches Some(x) ==> x.days() == self.days() - n,
    {
        naive_sub_days(self, n)
    }
}

/// First and last days of the month and of the ISO week (Monday to Sunday)
/// that hold a date.
pub trait DateBoundaries: Sized {
    fn start_of_month(&self) -> Option<Self>;

    fn end_of_month(&self) -> Option<Self>;

    fn start_of_week(&self) -> Option<Self>;

    fn end_of_week(&self) -> Option<Self>;
}

proof fn lemma_next_month(y: int, m: int)
    requires
        1 <= m <= 12,
    ensures
        m < 12 ==> month_shift(y, m, 1) == (y, m + 1),
        m == 12 ==> month_shift(y, m, 1) == (y + 1, 1int),
{
    let t = y * 12 + (m - 1) + 1;
    if m < 12 {
        vstd::arithmetic::div_mod::lemma_fundamental_div_mod_converse(t, 12, y, m);
    } else {
        assert(t == (y + 1) * 12 + 0) by (nonlinear_arith)
            requires
                t == y * 12 + (m - 1) + 1,
                m == 12,
        ;
        vstd::arithmetic::div_mod::lemma_fundamental_div_mod_converse(t, 12, y + 1, 0);
    }
}

impl DateBoundaries for Date {
    fn start_of_month(&self) -> (r: Option<Date>)
        ensures
            r matches Some(x) && x.is(self.y(), self.m(), 1),
    {
        proof {
            use_type_invariant(self);
        }
        naive_with_day(self, 1)
    }

    fn end_of_month(&self) -> (r: Option<Date>)
        ensures
            r is Some <==> (self.m() < 12 || self.y() < MAX_YEAR),
            r matches Some(x) ==> x.is(self.y(), self.m(), days_in_month(self.y(), self.m())),
    {
        proof {
            use_type_invariant(self);
            lemma_next_month(self.y(), self.m());
        }
        match naive_add_months(self, 1) {
            None => None,
            Some(next) => {
                match naive_with_day(&next, 1) {
                    None => None,
                    Some(first) => {
                        proof {
                            use_type_invariant(&first);
                        }
                        naive_sub_days(&first, 1)
                    },
                }
            },
        }
    }

    fn start_of_week(&self) -> (r: Option<Date>)
        ensures
            r is Some <==> self.days() - weekday_of(self.days()) >= min_days(),
            r matches Some(x) ==> x.days() == self.days() - weekday_of(self.days()),
    {
        let wd = naive_weekday(self);
        naive_sub_days(self, wd as u64)
    }

    fn end_of_week(&self) -> (r: Option<Date>)
        ensures
            r is Some <==> self.days() + 6 - weekday_of(self.days()) <= max_days(),
            r matches Some(x) ==> x.days() == self.days() + 6 - weekday_of(self.days()),
    {
        let wd = naive_weekday(self);
        naive_add_days(self, (6 - wd) as u64)
    }
}

} // verus!
