//! Points in time as an event carries them: a date of the Gregorian calendar and an hour.

use vstd::prelude::*;

verus! {

/// The first and the last year that a date can have.
pub const MIN_YEAR: i32 = -9999;

pub const MAX_YEAR: i32 = 9999;

/// Whether a year of the Gregorian calendar has a 29 February.
pub open spec fn is_leap_year(year: int) -> bool {
    year % 4 == 0 && (year % 100 != 0 || year % 400 == 0)
}

/// The number of days in a month.
pub open spec fn days_in_month(year: int, month: int) -> int {
    if month == 2 {
        if is_leap_year(year) {
            29
        } else {
            28
        }
    } else if month == 4 || month == 6 || month == 9 || month == 11 {
        30
    } else {
        31
    }
}

/// The number of days in a year before the first of a month.
pub open spec fn days_before_month(year: int, month: int) -> int {
    let common = seq![0int, 31, 59, 90, 120, 151, 181, 212, 243, 273, 304, 334];
    common[month - 1] + if month > 2 && is_leap_year(year) {
        1int
    } else {
        0int
    }
}

/// Whether the calendar has the date.
pub open spec fn is_date(year: int, month: int, day: int) -> bool {
    &&& MIN_YEAR <= year <= MAX_YEAR
    &&& 1 <= month <= 12
    &&& 1 <= day <= days_in_month(year, month)
}

/// How many days a date is after 1 January of the year 1, which was a Monday.
pub open spec fn day_number(year: int, month: int, day: int) -> int {
    let past = year - 1;
    365 * past + past / 4 - past / 100 + past / 400 + days_before_month(year, month) + day - 1
}

/// The day of the week of a date, 0 for Monday.
pub open spec fn weekday(year: int, month: int, day: int) -> int {
    day_number(year, month, day) % 7
}

/// The calendar date after a date.
pub open spec fn next_date(year: int, month: int, day: int) -> (int, int, int) {
    if day < days_in_month(year, month) {
        (year, month, day + 1)
    } else if month < 12 {
        (year, month + 1, 1)
    } else {
        (year + 1, 1, 1)
    }
}

/// Days of the week follow one another without a gap, over the ends of months and years.
pub proof fn law_weekdays_follow_one_another(year: int, month: int, day: int)
    requires
        is_date(year, month, day),
    ensures
        ({
            let (next_year, next_month, next_day) = next_date(year, month, day);
            weekday(next_year, next_month, next_day) == (weekday(year, month, day) + 1) % 7
        }),
{
    let (next_year, next_month, next_day) = next_date(year, month, day);
    if day < days_in_month(year, month) {
    } else if month < 12 {
        lemma_month_lengths(year, month);
    } else {
        lemma_year_length(year);
    }
    assert(day_number(next_year, next_month, next_day) == day_number(year, month, day) + 1);
    lemma_next_place_in_a_week(day_number(year, month, day));
}

proof fn lemma_next_place_in_a_week(day: int)
    ensures
        (day + 1) % 7 == (day % 7 + 1) % 7,
{
}

/// New Year's Day comes after the last of December.
proof fn lemma_year_length(year: int)
    ensures
        day_number(year + 1, 1, 1) == day_number(year, 12, 31) + 1,
{
    let past = year - 1;
    assert(year / 4 == past / 4 + if year % 4 == 0 { 1int } else { 0int });
    assert(year / 100 == past / 100 + if year % 100 == 0 { 1int } else { 0int });
    assert(year / 400 == past / 400 + if year % 400 == 0 { 1int } else { 0int });
    assert(year % 400 == 0 ==> year % 100 == 0);
    assert(year % 100 == 0 ==> year % 4 == 0);
    assert(days_before_month(year + 1, 1) == 0);
    assert(days_before_month(year, 12) == 334 + if is_leap_year(year) { 1int } else { 0int });
}

/// The days before a month add up from the lengths of the months before it.
proof fn lemma_month_lengths(year: int, month: int)
    requires
        1 <= month < 12,
    ensures
        days_before_month(year, month + 1) == days_before_month(year, month) + days_in_month(
            year,
            month,
        ),
{
}

/// The day of the week of a date, 0 for Monday, and nothing where the calendar has no such date.
///
/// `time::Month::try_from` accepts the numbers 1 to 12. `time::Date::from_calendar_date` accepts
/// the days that the month has in the proleptic Gregorian calendar, for every year up to four
/// digits. `time::Date::weekday` and `time::Weekday::number_days_from_monday` then give the place
/// of the date in the cycle of seven days that starts on Mondays.
#[verifier::external_body]
fn calendar_weekday(year: i32, month: u8, day: u8) -> (number: Option<u8>)
    requires
        MIN_YEAR <= year <= MAX_YEAR,
    ensures
        number is Some <==> is_date(year as int, month as int, day as int),
        number matches Some(found) ==> found == weekday(year as int, month as int, day as int),
{
    match time::Month::try_from(month) {
        Ok(named) => match time::Date::from_calendar_date(year, named, day) {
            Ok(date) => Some(date.weekday().number_days_from_monday()),
            Err(_) => None,
        },
        Err(_) => None,
    }
}

/// The hour of a day in which something happened, without a time zone.
#[derive(Clone, Copy, Debug, PartialEq, Eq)]
pub struct CivilDateTime {
    year: i32,
    month: u8,
    day: u8,
    hour: u8,
}

/// What a [`CivilDateTime`] stands for.
pub struct CivilView {
    pub year: int,
    pub month: int,
    pub day: int,
    pub hour: int,
}

impl View for CivilDateTime {
    type V = CivilView;

    closed spec fn view(&self) -> CivilView {
        CivilView {
            year: self.year as int,
            month: self.month as int,
            day: self.day as int,
            hour: self.hour as int,
        }
    }
}

impl CivilDateTime {
    #[verifier::type_invariant]
    spec fn is_valid(self) -> bool {
        is_date(self.year as int, self.month as int, self.day as int) && self.hour < 24
    }

    /// The given hour of the given date, where there is such an hour and such a date.
    pub fn new(year: i32, month: u8, day: u8, hour: u8) -> (time: Option<Self>)
        ensures
            time is Some <==> is_date(year as int, month as int, day as int) && hour < 24,
            time matches Some(found) ==> found@ == (CivilView {
                year: year as int,
                month: month as int,
                day: day as int,
                hour: hour as int,
            }),
    {
        if year < MIN_YEAR || year > MAX_YEAR || hour >= 24 {
            return None;
        }
        match calendar_weekday(year, month, day) {
            Some(_) => Some(CivilDateTime { year, month, day, hour }),
            None => None,
        }
    }

    /// The day of the week, 0 for Monday.
    pub fn weekday_from_monday(&self) -> (number: u8)
        ensures
            number == weekday(self@.year, self@.month, self@.day),
            number < 7,
    {
        proof {
            use_type_invariant(self);
        }
        calendar_weekday(self.year, self.month, self.day).unwrap()
    }

    /// The day of the month, 1 for the first.
    pub fn day(&self) -> (day: u8)
        ensures
            day == self@.day,
            1 <= day <= 31,
    {
        proof {
            use_type_invariant(self);
        }
        self.day
    }

    /// The hour of the day.
    pub fn hour(&self) -> (hour: u8)
        ensures
            hour == self@.hour,
            hour < 24,
    {
        proof {
            use_type_invariant(self);
        }
        self.hour
    }
}

} // verus!
