use vstd::prelude::*;
use vstd::string::StringExecFns;

use crate::time::{
    civil_year, year_start_of, year_start_timestamp, UtcDateTime, SECONDS_PER_DAY,
};

verus! {

/// Length of the rolling window in days.
pub const ROLLING_WINDOW_DAYS: i64 = 365;

/// The window of one calendar year, from January 1, 00:00:00 to December 31,
/// 23:59:59 UTC, as Unix timestamps. Its bounds are its key.
#[derive(Clone, Copy, Debug, PartialEq, Eq, Structural)]
pub struct YearWindow {
    pub year: i32,
    pub from: i64,
    pub to: i64,
}

/// The trailing window of 365 days that ends at "now", as Unix timestamps.
#[derive(Clone, Copy, Debug, PartialEq, Eq, Structural)]
pub struct RollingWindow {
    pub from: i64,
    pub to: i64,
}

/// `w` is the window of the calendar year `year`.
pub open spec fn is_year_window(w: YearWindow, year: int) -> bool {
    &&& w.year as int == year
    &&& w.from as int == year_start_of(year)
    &&& w.to as int == year_start_of(year + 1) - 1
}

/// The windows `ws` are those of the years `first`, `first + 1`, ... in order,
/// through the year `last`; none when `first` is after `last`.
pub open spec fn are_year_windows(ws: Seq<YearWindow>, first: int, last: int) -> bool {
    &&& ws.len() == if first <= last {
        last - first + 1
    } else {
        0
    }
    &&& forall|k: int| 0 <= k < ws.len() ==> is_year_window(#[trigger] ws[k], first + k)
}

/// `w` is the rolling window that ends at `now`.
pub open spec fn is_rolling_window(w: RollingWindow, now: UtcDateTime) -> bool {
    &&& w.to == now.timestamp
    &&& w.from == now.timestamp - ROLLING_WINDOW_DAYS * SECONDS_PER_DAY
}

/// The window of the calendar year `year`.
pub fn year_window(year: i32) -> (r: YearWindow)
    requires
        1 <= year <= 9999,
    ensures
        is_year_window(r, year as int),
{
    let from = year_start_timestamp(year);
    let to = year_start_timestamp(year + 1) - 1;
    YearWindow { year, from, to }
}

/// The key under which the calendar of the rolling window is requested.
pub const ROLLING_WINDOW_KEY: &'static str = "past_year";

/// The ten decimal digits.
pub open spec fn digit_chars() -> Seq<char> {
    seq!['0', '1', '2', '3', '4', '5', '6', '7', '8', '9']
}

/// `year` written with exactly four decimal digits.
pub open spec fn four_digits(year: int) -> Seq<char> {
    seq![
        digit_chars()[year / 1000],
        digit_chars()[(year / 100) % 10],
        digit_chars()[(year / 10) % 10],
        digit_chars()[year % 10],
    ]
}

/// The key of the window of `year`: `year` followed by the four digits of
/// the year. Keys are fixed by the window alone, so that calendars fetched
/// one window at a time or many at once are addressed alike.
pub open spec fn window_key(year: int) -> Seq<char> {
    "year"@ + four_digits(year)
}

fn digit_str(d: i32) -> (r: &'static str)
    requires
        0 <= d <= 9,
    ensures
        r@ == seq![digit_chars()[d as int]],
{
    proof {
        reveal_strlit("0");
        reveal_strlit("1");
        reveal_strlit("2");
        reveal_strlit("3");
        reveal_strlit("4");
        reveal_strlit("5");
        reveal_strlit("6");
        reveal_strlit("7");
        reveal_strlit("8");
        reveal_strlit("9");
    }
    if d == 0 {
        "0"
    } else if d == 1 {
        "1"
    } else if d == 2 {
        "2"
    } else if d == 3 {
        "3"
    } else if d == 4 {
        "4"
    } else if d == 5 {
        "5"
    } else if d == 6 {
        "6"
    } else if d == 7 {
        "7"
    } else if d == 8 {
        "8"
    } else {
        "9"
    }
}

impl YearWindow {
    /// The key of this window; see `window_key`.
    pub fn key(&self) -> (r: String)
        requires
            1 <= self.year <= 9999,
        ensures
            r@ == window_key(self.year as int),
    {
        let y = self.year;
        proof {
            reveal_strlit("year");
        }
        let r = <String as StringExecFns>::from_str("year").concat(digit_str(y / 1000)).concat(
            digit_str((y / 100) % 10),
        ).concat(digit_str((y / 10) % 10)).concat(digit_str(y % 10));
        proof {
            assert(r@ =~= window_key(y as int));
        }
        r
    }
}

/// Distinct years have distinct window keys, and no window key is the key
/// of the rolling window.
pub proof fn lemma_window_keys_unique(a: int, b: int)
    requires
        1 <= a <= 9999,
        1 <= b <= 9999,
    ensures
        a != b ==> window_key(a) != window_key(b),
        window_key(a) != ROLLING_WINDOW_KEY@,
{
    reveal_strlit("year");
    reveal_strlit("past_year");
    assert(window_key(a)[0] == 'y');
    assert(ROLLING_WINDOW_KEY@[0] == 'p');
    if window_key(a) == window_key(b) {
        let (ka, kb) = (window_key(a), window_key(b));
        assert(ka[4] == kb[4] && ka[5] == kb[5] && ka[6] == kb[6] && ka[7] == kb[7]);
        assert(a / 1000 == b / 1000);
        assert((a / 100) % 10 == (b / 100) % 10);
        assert((a / 10) % 10 == (b / 10) % 10);
        assert(a % 10 == b % 10);
        assert(a == b);
    }
}

/// The windows of the calendar years `first` through `last`, oldest first;
/// none when `first` is after `last`.
pub fn year_windows(first: i32, last: i32) -> (r: Vec<YearWindow>)
    requires
        1 <= first <= 9999,
        1 <= last <= 9999,
    ensures
        are_year_windows(r@, first as int, last as int),
{
    let mut windows: Vec<YearWindow> = Vec::new();
    if first <= last {
        let mut year: i32 = first;
        while year <= last
            invariant
                1 <= first <= year <= last + 1,
                last <= 9999,
                windows@.len() == year - first,
                forall|k: int| 0 <= k < windows@.len() ==> is_year_window(#[trigger] windows@[k], first + k),
            decreases last + 1 - year,
        {
            windows.push(year_window(year));
            year = year + 1;
        }
    }
    windows
}

/// The windows that cover a user's history: one for each calendar year from
/// the year of `joined` (its timestamp truncated to the year) through the
/// year of `now`, oldest first, and the rolling window of 365 days that ends
/// at `now`.
pub fn compute_windows(joined: UtcDateTime, now: UtcDateTime) -> (r: (Vec<YearWindow>, RollingWindow))
    requires
        joined.wf(),
        now.wf(),
    ensures
        are_year_windows(
            r.0@,
            civil_year(joined.timestamp as int),
            civil_year(now.timestamp as int),
        ),
        is_rolling_window(r.1, now),
{
    let windows = year_windows(joined.year(), now.year());
    let rolling = RollingWindow {
        from: now.timestamp - ROLLING_WINDOW_DAYS * SECONDS_PER_DAY,
        to: now.timestamp,
    };
    (windows, rolling)
}

/// The yearly windows partition the history: with the join year at or
/// before the current year there is one window more than the number of
/// whole years between them, the first for the join year and the last for
/// the current year, each following the one before it without gap or overlap.
pub proof fn lemma_windows_partition(
    joined: UtcDateTime,
    now: UtcDateTime,
    windows: Seq<YearWindow>,
)
    requires
        joined.wf(),
        now.wf(),
        civil_year(joined.timestamp as int) <= civil_year(now.timestamp as int),
        are_year_windows(
            windows,
            civil_year(joined.timestamp as int),
            civil_year(now.timestamp as int),
        ),
    ensures
        windows.len() == civil_year(now.timestamp as int) - civil_year(joined.timestamp as int)
            + 1,
        windows[0].year == civil_year(joined.timestamp as int),
        windows.last().year == civil_year(now.timestamp as int),
        forall|k: int|
            0 <= k < windows.len() - 1 ==> {
                &&& windows[k + 1].year == windows[k].year + 1
                &&& #[trigger] windows[k].to + 1 == windows[k + 1].from
            },
{
    assert(is_year_window(windows[0], civil_year(joined.timestamp as int)));
    assert(is_year_window(windows[windows.len() - 1], civil_year(now.timestamp as int)));
    assert forall|k: int| 0 <= k < windows.len() - 1 implies {
        &&& windows[k + 1].year == windows[k].year + 1
        &&& #[trigger] windows[k].to + 1 == windows[k + 1].from
    } by {
        assert(is_year_window(windows[k], civil_year(joined.timestamp as int) + k));
        assert(is_year_window(windows[k + 1], civil_year(joined.timestamp as int) + k + 1));
    }
}

} // verus!
