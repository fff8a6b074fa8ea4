use ghboard::{
    compute_windows, date_with_just_year, new_date_year, year_window, year_windows, UtcDateTime,
    ROLLING_WINDOW_KEY,
};

fn ts(y: i32, mo: u32, d: u32, h: u32, mi: u32, s: u32) -> i64 {
    chrono::NaiveDate::from_ymd_opt(y, mo, d)
        .unwrap()
        .and_hms_opt(h, mi, s)
        .unwrap()
        .and_utc()
        .timestamp()
}

fn at(y: i32, mo: u32, d: u32, h: u32, mi: u32, s: u32) -> UtcDateTime {
    UtcDateTime::from_timestamp(ts(y, mo, d, h, mi, s)).unwrap()
}

#[test]
fn joined_this_year_gives_one_window() {
    let (windows, rolling) = compute_windows(at(2024, 3, 5, 8, 30, 0), at(2024, 10, 19, 9, 0, 0));
    assert_eq!(windows.len(), 1);
    assert_eq!(windows[0].year, 2024);
    assert_eq!(windows[0].from, ts(2024, 1, 1, 0, 0, 0));
    assert_eq!(windows[0].to, ts(2024, 12, 31, 23, 59, 59));
    assert_eq!(rolling.to, ts(2024, 10, 19, 9, 0, 0));
    assert_eq!(rolling.from, ts(2023, 10, 20, 9, 0, 0));
}

#[test]
fn windows_cover_join_year_through_now() {
    let (windows, rolling) =
        compute_windows(at(2019, 12, 31, 23, 59, 59), at(2023, 1, 1, 0, 0, 0));
    assert_eq!(windows.len(), 5);
    for (k, w) in windows.iter().enumerate() {
        assert_eq!(w.year, 2019 + k as i32);
        assert_eq!(w.from, ts(w.year, 1, 1, 0, 0, 0));
        assert_eq!(w.to, ts(w.year, 12, 31, 23, 59, 59));
    }
    for k in 0..windows.len() - 1 {
        assert_eq!(windows[k].to + 1, windows[k + 1].from);
    }
    assert_eq!(rolling.to - rolling.from, 365 * 86400);
}

#[test]
fn leap_year_window() {
    let w = year_window(2024);
    assert_eq!(w.to - w.from + 1, 366 * 86400);
    let w = year_window(2023);
    assert_eq!(w.to - w.from + 1, 365 * 86400);
}

#[test]
fn now_before_join_year_gives_no_window() {
    let (windows, _) = compute_windows(at(2024, 1, 1, 0, 0, 0), at(2023, 6, 1, 0, 0, 0));
    assert!(windows.is_empty());
}

#[test]
fn truncation_zeroes_everything_but_the_year() {
    let t = date_with_just_year(at(2021, 7, 14, 13, 45, 12)).unwrap();
    assert_eq!(t.timestamp, ts(2021, 1, 1, 0, 0, 0));
    assert_eq!(new_date_year(1970).timestamp, 0);
    assert_eq!(new_date_year(2000).timestamp, 946684800);
}

#[test]
fn timestamp_range() {
    assert!(UtcDateTime::from_timestamp(ts(1, 1, 1, 0, 0, 0)).is_some());
    assert!(UtcDateTime::from_timestamp(ts(1, 1, 1, 0, 0, 0) - 1).is_none());
    assert!(UtcDateTime::from_timestamp(ts(9999, 12, 31, 23, 59, 59)).is_some());
    assert!(UtcDateTime::from_timestamp(ts(9999, 12, 31, 23, 59, 59) + 1).is_none());
    let last = at(9999, 12, 31, 23, 59, 59);
    assert_eq!(last.year(), 9999);
    assert_eq!(last.ordinal0(), 364);
    assert_eq!(at(2024, 12, 31, 0, 0, 0).ordinal0(), 365);
}

#[test]
fn windows_between_years() {
    let ws = year_windows(2020, 2022);
    assert_eq!(ws.iter().map(|w| w.year).collect::<Vec<_>>(), vec![2020, 2021, 2022]);
    assert_eq!(ws[1], year_window(2021));
    assert_eq!(year_windows(2022, 2022).len(), 1);
    assert!(year_windows(2023, 2022).is_empty());
}

#[test]
fn window_keys() {
    assert_eq!(year_window(2024).key(), "year2024");
    assert_eq!(year_window(1).key(), "year0001");
    assert_eq!(year_window(9999).key(), "year9999");
    assert_eq!(ROLLING_WINDOW_KEY, "past_year");
    let keys: Vec<String> = year_windows(2008, 2024).iter().map(|w| w.key()).collect();
    for (i, a) in keys.iter().enumerate() {
        for b in &keys[i + 1..] {
            assert_ne!(a, b);
        }
        assert_ne!(a, ROLLING_WINDOW_KEY);
    }
}
