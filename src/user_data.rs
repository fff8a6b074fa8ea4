use vstd::prelude::*;

use crate::calendar::ContributionsCollection;
use crate::streak::{
    current_streak_of, get_streaks, longest_streak_of, streaks_fit, total_days,
};
use crate::time::{civil_ordinal0, UtcDateTime};
use crate::windows::YearWindow;

verus! {

/// Freshness window of a cached snapshot, in seconds: one hour.
pub const FRESHNESS_SECONDS: i64 = 3600;

/// Everything computed for one user at one instant.
#[derive(Clone, Debug)]
pub struct UserData {
    /// When the snapshot was computed.
    pub created_at: UtcDateTime,
    /// The yearly calendars with their years, the current year first.
    pub years: Vec<(ContributionsCollection, i32)>,
    /// The calendar of the 365 days that end at `created_at`.
    pub last_year: ContributionsCollection,
    pub current_streak: i32,
    pub longest_streak: i32,
}

/// The series that pairs each fetched calendar with the year of its window,
/// listed from the last window to the first.
pub open spec fn newest_first(
    windows: Seq<YearWindow>,
    calendars: Seq<ContributionsCollection>,
) -> Seq<(ContributionsCollection, i32)> {
    Seq::new(
        calendars.len(),
        |k: int|
            (calendars[calendars.len() - 1 - k], windows[calendars.len() - 1 - k].year),
    )
}

/// A snapshot taken at `now` is fresh while less than one hour has passed
/// since it was computed.
pub open spec fn fresh_at(created_at: UtcDateTime, now: UtcDateTime) -> bool {
    now.timestamp - created_at.timestamp < FRESHNESS_SECONDS
}

/// Whether a snapshot computed at `created_at` may still be served at `now`.
pub fn is_fresh(created_at: UtcDateTime, now: UtcDateTime) -> (r: bool)
    requires
        created_at.wf(),
        now.wf(),
    ensures
        r == fresh_at(created_at, now),
{
    now.timestamp - created_at.timestamp < FRESHNESS_SECONDS
}

impl UserData {
    /// Assembles the snapshot for `now` from the calendars fetched for the
    /// yearly windows, `calendars[k]` for `windows[k]` (oldest first), and
    /// the calendar of the rolling window. The years are stored newest
    /// first and the streaks are computed over them.
    ///
    /// Fails when the calendars do not match the windows one for one, or
    /// when the history holds more days than a streak can count.
    pub fn assemble(
        windows: &Vec<YearWindow>,
        calendars: Vec<ContributionsCollection>,
        last_year: ContributionsCollection,
        now: UtcDateTime,
    ) -> (r: Option<UserData>)
        requires
            now.wf(),
        ensures
            r.is_some() <==> calendars@.len() == windows@.len() && total_days(
                newest_first(windows@, calendars@),
            ) <= i32::MAX,
            r matches Some(d) ==> {
                &&& d.created_at == now
                &&& d.years@ == newest_first(windows@, calendars@)
                &&& d.last_year == last_year
                &&& d.current_streak == current_streak_of(
                    d.years@,
                    civil_ordinal0(now.timestamp as int),
                )
                &&& d.longest_streak == longest_streak_of(
                    d.years@,
                    civil_ordinal0(now.timestamp as int),
                )
            },
    {
        if calendars.len() != windows.len() {
            return None;
        }
        let ghost original = calendars@;
        let n = calendars.len();
        let mut calendars = calendars;
        let mut years: Vec<(ContributionsCollection, i32)> = Vec::new();
        while calendars.len() > 0
            invariant
                n == original.len(),
                n == windows@.len(),
                calendars@ == original.take(calendars@.len() as int),
                calendars@.len() <= n,
                years@.len() == n - calendars@.len(),
                forall|k: int|
                    0 <= k < years@.len() ==> #[trigger] years@[k] == (
                        original[n - 1 - k],
                        windows@[n - 1 - k].year,
                    ),
            decreases calendars@.len(),
        {
            let m = calendars.len();
            let year = windows[m - 1].year;
            match calendars.pop() {
                Some(c) => {
                    proof {
                        assert(c == original[m - 1]);
                    }
                    years.push((c, year));
                },
                None => {},
            }
            proof {
                assert(calendars@ =~= original.take(calendars@.len() as int));
            }
        }
        proof {
            assert(years@ =~= newest_first(windows@, original));
        }
        if !streaks_fit(years.as_slice()) {
            return None;
        }
        let (current_streak, longest_streak) = get_streaks(years.as_slice(), now);
        Some(UserData { created_at: now, years, last_year, current_streak, longest_streak })
    }
}

} // verus!
