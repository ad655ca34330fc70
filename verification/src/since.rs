//! Days between a date and the first day of 2020.

use vstd::prelude::*;

verus! {

/// `chrono::NaiveDate`: a calendar date, carried between the calls into
/// `chrono` and not looked into.
#[verifier::external_type_specification]
#[verifier::external_body]
pub struct ExNaiveDate(chrono::NaiveDate);

/// Whether `year` is a leap year of the Gregorian calendar.
pub open spec fn is_leap(year: int) -> bool {
    year % 4 == 0 && (year % 100 != 0 || year % 400 == 0)
}

/// The number of days of `month` in `year`.
pub open spec fn month_length(year: int, month: int) -> int {
    if month == 2 {
        if is_leap(year) {
            29
        } else {
            28
        }
    } else if month == 4 || month == 6 || month == 9 || month == 11 {
        30
    } else {
        31
    }
}

/// Whether the calendar has the day `day` of `month` in `year`.
pub open spec fn valid_date(year: int, month: int, day: int) -> bool {
    1 <= month <= 12 && 1 <= day <= month_length(year, month)
}

/// The number of days of `year` that lie before its month `month`.
pub open spec fn days_before_month(year: int, month: int) -> int
    decreases month,
{
    if month <= 1 {
        0
    } else {
        days_before_month(year, month - 1) + month_length(year, month - 1)
    }
}

/// The number of days from the first day of year 0 to the first day of
/// `year`.
pub open spec fn days_before_year(year: int) -> int
    decreases year,
{
    if year <= 0 {
        0
    } else {
        days_before_year(year - 1) + if is_leap(year - 1) {
            366int
        } else {
            365int
        }
    }
}

/// The number of a day, counted through the years from year 0 on.
pub open spec fn day_number(year: int, month: int, day: int) -> int {
    days_before_year(year) + days_before_month(year, month) + day
}

/// The number of days from the first day of 2020 to the given day.
pub open spec fn days_since_2020(year: int, month: int, day: int) -> int {
    day_number(year, month, day) - day_number(2020, 1, 1)
}

/// The number of the day that a date of `chrono` stands for.
pub uninterp spec fn day_of(date: chrono::NaiveDate) -> int;

/// `chrono::NaiveDate::from_ymd_opt`: the date of the given calendar day, or
/// nothing where the calendar has no such day. The contract claims that the
/// function accepts the days of the Gregorian calendar and no others, and
/// that the date it returns stands for the day of that number.
#[verifier::external_body]
fn date_from_ymd(year: u16, month: u16, day: u16) -> (r: Option<chrono::NaiveDate>)
    ensures
        r is Some <==> valid_date(year as int, month as int, day as int),
        r matches Some(d) ==> day_of(d) == day_number(year as int, month as int, day as int),
{
    chrono::NaiveDate::from_ymd_opt(year as i32, month as u32, day as u32)
}

/// `chrono::NaiveDate::signed_duration_since` and `chrono::TimeDelta::num_days`:
/// the number of days from `start` to `date`. The contract claims that it is
/// the difference of the two days' numbers.
#[verifier::external_body]
fn days_between(date: &chrono::NaiveDate, start: &chrono::NaiveDate) -> (r: i64)
    ensures
        r == day_of(*date) - day_of(*start),
{
    date.signed_duration_since(*start).num_days()
}

/// `chrono::Utc::now` and `chrono::DateTime::date_naive`: the day that the
/// clock shows. Nothing is claimed of it.
#[verifier::external_body]
fn today() -> chrono::NaiveDate {
    chrono::Utc::now().date_naive()
}

/// Why the days since 2020 could not be counted.
#[derive(Debug, Clone, Copy, PartialEq, Eq)]
pub enum SinceError {
    /// The calendar has no such day, or fewer than three numbers were given.
    InvalidDate,
}

/// The number of days from the first day of 2020 to `date`.
pub fn days_from_2020(date: &chrono::NaiveDate) -> (r: i64)
    ensures
        r == day_of(*date) - day_number(2020, 1, 1),
{
    assert(valid_date(2020, 1, 1));
    match date_from_ymd(2020, 1, 1) {
        Some(start) => days_between(date, &start),
        None => 0,
    }
}

/// The number of days from the first day of 2020 to the given day, which may
/// lie before it; `None` where the calendar has no such day.
pub fn get_days_since_2020(year: u16, month: u16, day: u16) -> (r: Option<i64>)
    ensures
        match r {
            Some(n) => valid_date(year as int, month as int, day as int) && n == days_since_2020(
                year as int,
                month as int,
                day as int,
            ),
            None => !valid_date(year as int, month as int, day as int),
        },
{
    match date_from_ymd(year, month, day) {
        Some(date) => Some(days_from_2020(&date)),
        None => None,
    }
}

/// The number of days from the first day of 2020 to `date`, given as year,
/// month and day, or to the day that the clock shows where no date is given.
pub fn since_2023(date: Option<Vec<u16>>) -> (r: Result<i64, SinceError>)
    ensures
        match date {
            Some(d) => if d@.len() >= 3 && valid_date(d@[0] as int, d@[1] as int, d@[2] as int) {
                r matches Ok(n) && n == days_since_2020(d@[0] as int, d@[1] as int, d@[2] as int)
            } else {
                r == Err::<i64, SinceError>(SinceError::InvalidDate)
            },
            None => r is Ok,
        },
{
    match date {
        Some(d) => {
            if d.len() < 3 {
                return Err(SinceError::InvalidDate);
            }
            match get_days_since_2020(d[0], d[1], d[2]) {
                Some(n) => Ok(n),
                None => Err(SinceError::InvalidDate),
            }
        },
        None => {
            let now = today();
            Ok(days_from_2020(&now))
        },
    }
}

} // verus!
