use vstd::prelude::*;

use crate::calendar::{week_counts, weeks_counts, ContributionsCollection};
use crate::time::{civil_ordinal0, UtcDateTime};

verus! {

/// The counts of all days of one year of a series.
pub open spec fn year_counts(y: (ContributionsCollection, i32)) -> Seq<int> {
    y.0.contributionCalendar.day_counts()
}

/// The days of `years[i..]` in traversal order: the last element first, each
/// year's days in stored order.
pub open spec fn older_history(years: Seq<(ContributionsCollection, i32)>, i: int) -> Seq<int>
    decreases years.len() - i,
{
    if i < 0 || i >= years.len() {
        Seq::empty()
    } else {
        older_history(years, i + 1) + year_counts(years[i])
    }
}

/// The number of days held by a whole series.
pub open spec fn total_days(years: Seq<(ContributionsCollection, i32)>) -> int {
    older_history(years, 0).len() as int
}

/// The days of a series that have happened by day `today` (zero-based day of
/// the year) of the current year. The series lists the current year first;
/// traversal runs from its last element to its first, and stops in the
/// current year at the first day whose offset is `today` or later.
pub open spec fn history(years: Seq<(ContributionsCollection, i32)>, today: int) -> Seq<int> {
    if years.len() == 0 {
        Seq::empty()
    } else {
        let current = year_counts(years[0]);
        older_history(years, 1) + if today < current.len() {
            current.take(today)
        } else {
            current
        }
    }
}

/// The length of the run of days with a positive count that ends `s`.
pub open spec fn trailing_run(s: Seq<int>) -> int
    decreases s.len(),
{
    if s.len() == 0 {
        0
    } else if s.last() > 0 {
        trailing_run(s.drop_last()) + 1
    } else {
        0
    }
}

/// The length of the longest run of consecutive days with a positive count in `s`.
pub open spec fn longest_run(s: Seq<int>) -> int
    decreases s.len(),
{
    if s.len() == 0 {
        0
    } else {
        let before = longest_run(s.drop_last());
        let here = trailing_run(s);
        if here > before {
            here
        } else {
            before
        }
    }
}

/// The current streak of a series on day `today` of the current year.
pub open spec fn current_streak_of(years: Seq<(ContributionsCollection, i32)>, today: int) -> int {
    trailing_run(history(years, today))
}

/// The longest streak of a series on day `today` of the current year.
pub open spec fn longest_streak_of(years: Seq<(ContributionsCollection, i32)>, today: int) -> int {
    longest_run(history(years, today))
}

/// A run never exceeds the longest run, and no run exceeds the number of days.
pub proof fn lemma_runs_bounded(s: Seq<int>)
    ensures
        0 <= trailing_run(s) <= longest_run(s) <= s.len(),
    decreases s.len(),
{
    if s.len() > 0 {
        lemma_runs_bounded(s.drop_last());
    }
}

/// The longest streak is never below the current streak.
pub proof fn lemma_longest_at_least_current(
    years: Seq<(ContributionsCollection, i32)>,
    today: int,
)
    ensures
        0 <= current_streak_of(years, today) <= longest_streak_of(years, today),
{
    lemma_runs_bounded(history(years, today));
}

/// Two runs of the streak computation on the same series and day agree.
pub proof fn lemma_streaks_idempotent(
    years: Seq<(ContributionsCollection, i32)>,
    today: int,
    first: (i32, i32),
    second: (i32, i32),
)
    requires
        first.0 == current_streak_of(years, today),
        first.1 == longest_streak_of(years, today),
        second.0 == current_streak_of(years, today),
        second.1 == longest_streak_of(years, today),
    ensures
        first == second,
{
}

proof fn lemma_older_history_len(years: Seq<(ContributionsCollection, i32)>, i: int)
    requires
        0 <= i <= years.len(),
    ensures
        older_history(years, i).len() <= total_days(years),
    decreases i,
{
    if i > 0 {
        lemma_older_history_len(years, i - 1);
    }
}

/// Counts the days of a series, up to a limit: whether the series holds at
/// most `i32::MAX` days, so that any streak over it fits an `i32`.
pub fn streaks_fit(years: &[(ContributionsCollection, i32)]) -> (r: bool)
    ensures
        r == (total_days(years@) <= i32::MAX),
{
    let mut n: usize = 0;
    let mut i: usize = years.len();
    while i > 0
        invariant
            0 <= i <= years.len(),
            n as int == older_history(years@, i as int).len(),
            n <= i32::MAX,
        decreases i,
    {
        let len = years[i - 1].0.contributionCalendar.weeks.len();
        let weeks = &years[i - 1].0.contributionCalendar.weeks;
        let ghost ws = weeks@;
        let mut j: usize = 0;
        while j < len
            invariant
                0 < i <= years.len(),
                weeks@ == ws,
                ws == years@[i - 1].0.contributionCalendar.weeks@,
                len == ws.len(),
                0 <= j <= len,
                n as int == older_history(years@, i as int).len() + weeks_counts(
                    ws.take(j as int),
                ).len(),
                n <= i32::MAX,
            decreases len - j,
        {
            proof {
                crate::calendar::lemma_weeks_counts_take(ws, j as int);
            }
            let m = weeks[j].contributionDays.len();
            if m > (i32::MAX as usize) - n {
                proof {
                    years@[i - 1].0.contributionCalendar.lemma_prefix_of_day_counts(
                        j as int,
                        m as int,
                    );
                    assert(older_history(years@, i - 1) == older_history(years@, i as int)
                        + year_counts(years@[i - 1]));
                    lemma_older_history_len(years@, i - 1);
                }
                return false;
            }
            n = n + m;
            j = j + 1;
        }
        proof {
            assert(ws.take(len as int) =~= ws);
        }
        i = i - 1;
    }
    true
}

/// The current and longest streak of a series on day `today` (zero-based)
/// of the current year. The series lists the current year first.
///
/// Years are walked from the last element of the series to the first, and
/// each year's days in stored order. In the current year the walk stops at
/// the first day whose offset is `today` or later, before that day is
/// counted: today may have no activity yet without breaking the streak. A
/// positive count extends the running streak and a zero count ends it; the
/// running streak when the walk stops is the current streak.
pub fn streaks_for_day(years: &[(ContributionsCollection, i32)], today: u32) -> (r: (i32, i32))
    requires
        total_days(years@) <= i32::MAX,
    ensures
        r.0 as int == current_streak_of(years@, today as int),
        r.1 as int == longest_streak_of(years@, today as int),
        0 <= r.0 <= r.1,
{
    let mut current: i32 = 0;
    let mut longest: i32 = 0;
    let ghost mut seen: Seq<int> = Seq::empty();
    let mut i: usize = years.len();
    while i > 0
        invariant
            0 <= i <= years.len(),
            total_days(years@) <= i32::MAX,
            seen == older_history(years@, i as int),
            current as int == trailing_run(seen),
            longest as int == longest_run(seen),
            i == 0 && years.len() > 0 ==> history(years@, today as int) == seen,
        ensures
            i == 0,
        decreases i,
    {
        let idx: usize = i - 1;
        let is_current_year = idx == 0;
        let ghost cal = years@[idx as int].0.contributionCalendar;
        let weeks = &years[idx].0.contributionCalendar.weeks;
        let ghost ws = weeks@;
        let ghost base = seen;
        proof {
            lemma_older_history_len(years@, idx as int);
        }
        let mut day_c: usize = 0;
        let mut j: usize = 0;
        while j < weeks.len()
            invariant
                0 <= idx < years.len(),
                i == idx + 1,
                is_current_year == (idx == 0),
                total_days(years@) <= i32::MAX,
                cal == years@[idx as int].0.contributionCalendar,
                weeks@ == ws,
                ws == cal.weeks@,
                base == older_history(years@, i as int),
                older_history(years@, idx as int) == base + cal.day_counts(),
                base.len() + cal.day_counts().len() <= total_days(years@),
                0 <= j <= ws.len(),
                seen == base + weeks_counts(ws.take(j as int)),
                day_c as int == weeks_counts(ws.take(j as int)).len(),
                is_current_year ==> day_c <= today,
                current as int == trailing_run(seen),
                longest as int == longest_run(seen),
            decreases ws.len() - j,
        {
            let days = &weeks[j].contributionDays;
            let ghost wc = week_counts(ws[j as int]);
            let ghost before = seen;
            let mut k: usize = 0;
            while k < days.len()
                invariant
                    0 <= idx < years.len(),
                    i == idx + 1,
                    is_current_year == (idx == 0),
                    total_days(years@) <= i32::MAX,
                    cal == years@[idx as int].0.contributionCalendar,
                    weeks@ == ws,
                    ws == cal.weeks@,
                    base == older_history(years@, i as int),
                    older_history(years@, idx as int) == base + cal.day_counts(),
                    base.len() + cal.day_counts().len() <= total_days(years@),
                    0 <= j < ws.len(),
                    days@ == ws[j as int].contributionDays@,
                    wc == week_counts(ws[j as int]),
                    before == base + weeks_counts(ws.take(j as int)),
                    0 <= k <= days.len(),
                    seen == before + wc.take(k as int),
                    day_c as int == weeks_counts(ws.take(j as int)).len() + k,
                    is_current_year ==> day_c <= today,
                    current as int == trailing_run(seen),
                    longest as int == longest_run(seen),
                decreases days.len() - k,
            {
                proof {
                    cal.lemma_prefix_of_day_counts(j as int, k as int + 1);
                    cal.lemma_prefix_of_day_counts(j as int, k as int);
                    assert(weeks_counts(ws.take(j as int)) + wc.take(k as int + 1) =~= (
                    weeks_counts(ws.take(j as int)) + wc.take(k as int)).push(wc[k as int]));
                }
                if is_current_year && day_c >= today as usize {
                    proof {
                        assert(seen =~= base + weeks_counts(ws.take(j as int)) + wc.take(
                            k as int,
                        ));
                        assert(seen == history(years@, today as int));
                        lemma_runs_bounded(seen);
                    }
                    return (current, longest);
                }
                let c = days[k].contributionCount;
                proof {
                    assert(wc[k as int] == c as int);
                    assert(seen.push(c as int) =~= before + wc.take(k as int + 1));
                    assert(seen.push(c as int).drop_last() =~= seen);
                    lemma_runs_bounded(seen);
                    lemma_runs_bounded(seen.push(c as int));
                }
                if c > 0 {
                    current = current + 1;
                    if current > longest {
                        longest = current;
                    }
                } else {
                    current = 0;
                }
                proof {
                    seen = seen.push(c as int);
                }
                day_c = day_c + 1;
                k = k + 1;
            }
            proof {
                assert(wc.take(days.len() as int) =~= wc);
                crate::calendar::lemma_weeks_counts_take(ws, j as int);
                assert(seen =~= base + weeks_counts(ws.take(j as int + 1)));
            }
            j = j + 1;
        }
        proof {
            assert(ws.take(ws.len() as int) =~= ws);
            assert(seen == older_history(years@, idx as int));
            if is_current_year {
                assert(history(years@, today as int) =~= seen);
            }
        }
        i = idx;
    }
    proof {
        lemma_runs_bounded(seen);
    }
    (current, longest)
}

/// The current and longest streak of a series at the instant `now`; see
/// `streaks_for_day`, which this calls with `now`'s day of the year.
pub fn get_streaks(years: &[(ContributionsCollection, i32)], now: UtcDateTime) -> (r: (i32, i32))
    requires
        now.wf(),
        total_days(years@) <= i32::MAX,
    ensures
        r.0 as int == current_streak_of(years@, civil_ordinal0(now.timestamp as int)),
        r.1 as int == longest_streak_of(years@, civil_ordinal0(now.timestamp as int)),
        0 <= r.0 <= r.1,
{
    let today = now.ordinal0();
    streaks_for_day(years, today)
}

} // verus!
