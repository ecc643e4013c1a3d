//! Days and moments: the text of a date, its weekday, and the minute of the day.
use vstd::prelude::*;

verus! {

/// The date type of `chrono`.
#[verifier::external_type_specification]
#[verifier::external_body]
pub struct ExNaiveDate(chrono::NaiveDate);

/// The year, the month and the day of a `chrono::NaiveDate`.
pub uninterp spec fn date_parts(d: chrono::NaiveDate) -> (int, int, int);

/// Whether February has a 29th day in that year.
pub open spec fn leap_year(year: int) -> bool {
    year % 4 == 0 && (year % 100 != 0 || year % 400 == 0)
}

/// How many days a month has.
pub open spec fn month_length(year: int, month: int) -> int {
    if month == 2 {
        if leap_year(year) {
            29
        } else {
            28
        }
    } else if month == 4 || month == 6 || month == 9 || month == 11 {
        30
    } else {
        31
    }
}

/// Whether that day exists, in a year that `chrono` can hold.
pub open spec fn calendar_day(year: int, month: int, day: int) -> bool {
    -262143 <= year <= 262142 && 1 <= month <= 12 && 1 <= day <= month_length(year, month)
}

/// How many days of a year lie before a month.
pub open spec fn days_before_month(year: int, month: int) -> int
    decreases month,
{
    if month <= 1 {
        0
    } else {
        days_before_month(year, month - 1) + month_length(year, month - 1)
    }
}

/// How many days lie from the first day of the year 1, which is day 1, to a day. Days
/// before it count down from 0.
pub open spec fn day_number(year: int, month: int, day: int) -> int {
    let y = year - 1;
    365 * y + y / 4 - y / 100 + y / 400 + days_before_month(year, month) + day
}

/// The weekday of a day, counted from Sunday. The first day of the year 1 is a Monday.
pub open spec fn weekday_of(year: int, month: int, day: int) -> int {
    day_number(year, month, day) % 7
}

/// The decimal form of `n`, filled up with zeros to `width` characters.
pub open spec fn padded(n: nat, width: nat) -> Seq<char> {
    let s = crate::text::decimal(n);
    if s.len() < width {
        Seq::new((width - s.len()) as nat, |i: int| '0') + s
    } else {
        s
    }
}

/// A year in four digits, with a sign where it is before 0 or after 9999.
pub open spec fn year_text(year: int) -> Seq<char> {
    if year < 0 {
        seq!['-'] + padded((-year) as nat, 4)
    } else if year > 9999 {
        seq!['+'] + padded(year as nat, 4)
    } else {
        padded(year as nat, 4)
    }
}

/// A date as year, month and day with hyphens between them.
pub open spec fn date_text(year: int, month: int, day: int) -> Seq<char> {
    year_text(year) + seq!['-'] + padded(month as nat, 2) + seq!['-'] + padded(day as nat, 2)
}

/// `chrono::NaiveDate::from_ymd_opt`: the date of that day, where the day exists.
pub assume_specification[ chrono::NaiveDate::from_ymd_opt ](
    year: i32,
    month: u32,
    day: u32,
) -> (r: Option<chrono::NaiveDate>)
    ensures
        match r {
            Some(d) => calendar_day(year as int, month as int, day as int) && date_parts(d) == (
                year as int,
                month as int,
                day as int,
            ),
            None => !calendar_day(year as int, month as int, day as int),
        },
;

/// `chrono::NaiveDate::format` with the pattern of year, month and day.
#[verifier::external_body]
fn format_date(d: &chrono::NaiveDate) -> (r: String)
    ensures
        r@ == date_text(date_parts(*d).0, date_parts(*d).1, date_parts(*d).2),
{
    d.format("%Y-%m-%d").to_string()
}

/// `chrono::Datelike::weekday`, as the number that
/// `chrono::Weekday::num_days_from_sunday` gives: the weekday of the date in the
/// proleptic Gregorian calendar.
#[verifier::external_body]
fn weekday_from_sunday(d: &chrono::NaiveDate) -> (r: u32)
    ensures
        r == weekday_of(date_parts(*d).0, date_parts(*d).1, date_parts(*d).2),
{
    chrono::Datelike::weekday(d).num_days_from_sunday()
}

/// A moment of local time, as far as reminders depend on it.
pub struct Moment {
    /// The date.
    pub today: String,
    /// The minute of the day.
    pub minute: i64,
    /// The weekday, counted from Sunday.
    pub weekday: u64,
}

impl Moment {
    /// The moment at that hour and minute of that day. None where the day does not
    /// exist.
    pub fn at(year: i32, month: u32, day: u32, hour: u32, minute: u32) -> (r: Option<Moment>)
        ensures
            match r {
                Some(m) => {
                    &&& calendar_day(year as int, month as int, day as int)
                    &&& m.today@ == date_text(year as int, month as int, day as int)
                    &&& m.minute == 60 * hour + minute
                    &&& m.weekday == weekday_of(year as int, month as int, day as int)
                    &&& m.weekday < 7
                },
                None => !calendar_day(year as int, month as int, day as int),
            },
    {
        match chrono::NaiveDate::from_ymd_opt(year, month, day) {
            Some(d) => {
                let today = format_date(&d);
                let weekday: u64 = weekday_from_sunday(&d) as u64;
                let minute: i64 = (hour as i64) * 60 + (minute as i64);
                Some(Moment { today, minute, weekday })
            },
            None => None,
        }
    }
}

/// A year has as many days as lie between its first day and that of the next.
proof fn lemma_year_length(year: int)
    ensures
        day_number(year + 1, 1, 1) == day_number(year, 12, 31) + 1,
{
    reveal_with_fuel(days_before_month, 12);
    let y = year;
    assert(y / 4 - (y - 1) / 4 == (if y % 4 == 0 {
        1int
    } else {
        0int
    }));
    assert(y / 100 - (y - 1) / 100 == (if y % 100 == 0 {
        1int
    } else {
        0int
    }));
    assert(y / 400 - (y - 1) / 400 == (if y % 400 == 0 {
        1int
    } else {
        0int
    }));
    assert(y % 400 == 0 ==> y % 100 == 0);
    assert(y % 100 == 0 ==> y % 4 == 0);
}

/// From each day to the next the weekday goes on by one, through the ends of months and
/// years.
pub proof fn law_weekdays_follow(year: int, month: int, day: int)
    requires
        calendar_day(year, month, day),
    ensures
        ({
            let next = if day < month_length(year, month) {
                (year, month, day + 1)
            } else if month < 12 {
                (year, month + 1, 1)
            } else {
                (year + 1, 1, 1)
            };
            weekday_of(next.0, next.1, next.2) == (weekday_of(year, month, day) + 1) % 7
        }),
{
    if day == month_length(year, month) && month == 12 {
        lemma_year_length(year);
    }
}

} // verus!
