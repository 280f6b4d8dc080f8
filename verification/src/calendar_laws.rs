//! What dates, days of the week and slots say in plain numbers.

use crate::calendar::{
    day_number, days_before_month, is_date, law_weekdays_follow_one_another, weekday, CivilView,
};
use crate::document::slots_at;
use vstd::prelude::*;

verus! {

/// The dates there are: seven months have 31 days, four have 30, and February has 28, or 29 in the
/// years that four divides, except for those that a hundred divides and four hundred does not.
pub proof fn law_dates_of_the_calendar(year: int, month: int, day: int)
    ensures
        is_date(year, month, day) <==> {
            &&& -9999 <= year <= 9999
            &&& day >= 1
            &&& {
                ||| (month == 1 || month == 3 || month == 5 || month == 7 || month == 8 || month
                    == 10 || month == 12) && day <= 31
                ||| (month == 4 || month == 6 || month == 9 || month == 11) && day <= 30
                ||| month == 2 && day <= 28
                ||| month == 2 && day == 29 && year % 4 == 0 && (year % 100 != 0 || year % 400 == 0)
            }
        },
{
}

/// The first day of the year 1 was a Monday, and from one day to the next the day of the week moves
/// on by one. The next day is in the same month where the month has one more day, else in the next
/// month of the year, and after December in the next year.
pub proof fn law_days_of_the_week(year: int, month: int, day: int)
    requires
        is_date(year, month, day),
    ensures
        weekday(1, 1, 1) == 0,
        0 <= weekday(year, month, day) < 7,
        ({
            let today = weekday(year, month, day);
            let tomorrow = if is_date(year, month, day + 1) {
                weekday(year, month, day + 1)
            } else if month < 12 {
                weekday(year, month + 1, 1)
            } else {
                weekday(year + 1, 1, 1)
            };
            &&& today < 6 ==> tomorrow == today + 1
            &&& today == 6 ==> tomorrow == 0
        }),
{
    law_weekdays_follow_one_another(year, month, day);
    assert(days_before_month(1, 1) == 0);
}

/// The slots of a point in time: the first of a month is slot 0 of the days of the month, each day
/// after it is the next slot, and the slot of an hour is its number.
pub proof fn law_slots_of_a_point_in_time(ts: CivilView)
    ensures
        slots_at(ts).0 == weekday(ts.year, ts.month, ts.day),
        slots_at(ts).1 + 1 == ts.day,
        slots_at(ts).2 == ts.hour,
{
}

/// Each day of a month has a slot of its own, one further than the day before: the slots of two days
/// are as far apart as the days.
pub proof fn law_days_of_a_month_have_their_own_slots(left: CivilView, right: CivilView)
    ensures
        slots_at(left).1 - slots_at(right).1 == left.day - right.day,
        left.day == right.day + 1 ==> slots_at(left).1 == slots_at(right).1 + 1,
        left.day != right.day ==> slots_at(left).1 != slots_at(right).1,
        1 <= left.day <= 31 <==> 0 <= slots_at(left).1 <= 30,
{
}

/// Each hour has a slot of its own, and so has each day of a week.
pub proof fn law_hours_and_weekdays_have_their_own_slots(left: CivilView, right: CivilView)
    requires
        is_date(left.year, left.month, left.day),
        is_date(right.year, right.month, right.day),
        left.year == right.year && left.month == right.month,
    ensures
        slots_at(left).2 - slots_at(right).2 == left.hour - right.hour,
        slots_at(left).0 == slots_at(right).0 <==> (left.day - right.day) % 7 == 0,
{
    let first = day_number(left.year, left.month, left.day);
    let second = day_number(right.year, right.month, right.day);
    assert(first - second == left.day - right.day);
    lemma_same_place_in_a_week(first, second);
}

proof fn lemma_same_place_in_a_week(left: int, right: int)
    ensures
        left % 7 == right % 7 <==> (left - right) % 7 == 0,
{
}

} // verus!
