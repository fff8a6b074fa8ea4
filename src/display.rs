use vstd::prelude::*;

use crate::calendar::GhWeek;

verus! {

/// The intensity class of a day with `count` events: above 20, above 10,
/// above 5, above 0, or none.
pub fn color_class(count: i32) -> (r: &'static str)
    ensures
        count > 20 ==> r@ == "quiteALot"@,
        10 < count <= 20 ==> r@ == "aLot"@,
        5 < count <= 10 ==> r@ == "okay"@,
        0 < count <= 5 ==> r@ == "meh"@,
        count <= 0 ==> r@ == "nothing"@,
{
    if count > 20 {
        "quiteALot"
    } else if count > 10 {
        "aLot"
    } else if count > 5 {
        "okay"
    } else if count > 0 {
        "meh"
    } else {
        "nothing"
    }
}

/// The English name of weekday `weekday`, 0 for Sunday; any number past 6
/// also names Sunday.
pub fn day_name(weekday: usize) -> (r: &'static str)
    ensures
        weekday == 1 ==> r@ == "Monday"@,
        weekday == 2 ==> r@ == "Tuesday"@,
        weekday == 3 ==> r@ == "Wednesday"@,
        weekday == 4 ==> r@ == "Thursday"@,
        weekday == 5 ==> r@ == "Friday"@,
        weekday == 6 ==> r@ == "Saturday"@,
        weekday == 0 || weekday > 6 ==> r@ == "Sunday"@,
{
    if weekday == 1 {
        "Monday"
    } else if weekday == 2 {
        "Tuesday"
    } else if weekday == 3 {
        "Wednesday"
    } else if weekday == 4 {
        "Thursday"
    } else if weekday == 5 {
        "Friday"
    } else if weekday == 6 {
        "Saturday"
    } else {
        "Sunday"
    }
}

/// The position in `week` of the first day that falls on weekday `weekday`,
/// if any: a week shows seven slots, Sunday first, and a slot with no day
/// stays empty.
pub fn day_for_weekday(week: &GhWeek, weekday: usize) -> (r: Option<usize>)
    ensures
        match r {
            Some(i) => i < week.contributionDays@.len() && week.contributionDays@[i as int].weekday
                == weekday && forall|j: int|
                0 <= j < i ==> #[trigger] week.contributionDays@[j].weekday != weekday,
            None => forall|j: int|
                0 <= j < week.contributionDays@.len() ==> #[trigger] week.contributionDays@[j].weekday
                    != weekday,
        },
{
    let days = &week.contributionDays;
    let mut i: usize = 0;
    while i < days.len()
        invariant
            days@ == week.contributionDays@,
            0 <= i <= days@.len(),
            forall|j: int| 0 <= j < i ==> #[trigger] days@[j].weekday != weekday,
        decreases days@.len() - i,
    {
        if days[i].weekday == weekday {
            return Some(i);
        }
        i = i + 1;
    }
    None
}

} // verus!
