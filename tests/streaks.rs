use ghboard::{
    get_streaks, streaks_fit, streaks_for_day, ContributionCalendar, ContributionsCollection,
    GhDay, GhWeek, UtcDateTime,
};

fn day(count: i32, weekday: usize) -> GhDay {
    GhDay { contributionCount: count, weekday, date: String::new() }
}

/// A calendar whose days carry `counts`, seven to a week.
fn collection(counts: &[i32]) -> ContributionsCollection {
    let mut weeks = Vec::new();
    let mut week = GhWeek { contributionDays: Vec::new() };
    let mut total = 0usize;
    for (i, c) in counts.iter().enumerate() {
        week.contributionDays.push(day(*c, i % 7));
        total += *c as usize;
        if week.contributionDays.len() == 7 {
            weeks.push(week);
            week = GhWeek { contributionDays: Vec::new() };
        }
    }
    if !week.contributionDays.is_empty() {
        weeks.push(week);
    }
    ContributionsCollection {
        contributionCalendar: ContributionCalendar { totalContributions: total, weeks },
    }
}

#[test]
fn three_days_then_gap_then_two() {
    let years = vec![(collection(&[1, 2, 3, 0, 4, 5]), 2024)];
    assert!(streaks_fit(&years));
    assert_eq!(streaks_for_day(&years, 10), (2, 3));
}

#[test]
fn all_days_zero() {
    let years = vec![(collection(&[0; 20]), 2024), (collection(&[0; 30]), 2023)];
    assert_eq!(streaks_for_day(&years, 15), (0, 0));
}

#[test]
fn empty_series() {
    let years: Vec<(ContributionsCollection, i32)> = Vec::new();
    assert!(streaks_fit(&years));
    assert_eq!(streaks_for_day(&years, 0), (0, 0));
}

#[test]
fn zero_count_today_keeps_streak() {
    // Day 4 is today and has no activity yet: the run of days 1 to 3 stands.
    let years = vec![(collection(&[0, 1, 1, 1, 0, 0, 0]), 2024)];
    assert_eq!(streaks_for_day(&years, 4), (3, 3));
}

#[test]
fn today_and_later_days_are_not_counted() {
    // Today (day 2) already has activity, as do later days: neither counts.
    let years = vec![(collection(&[1, 1, 5, 7, 9]), 2024)];
    assert_eq!(streaks_for_day(&years, 2), (2, 2));
}

#[test]
fn today_is_first_day_of_year() {
    let years = vec![(collection(&[3, 3]), 2025), (collection(&[0, 1, 1, 1]), 2024)];
    assert_eq!(streaks_for_day(&years, 0), (3, 3));
}

#[test]
fn streak_spans_year_boundary() {
    // The current year comes first; the older year is walked before it.
    let years = vec![
        (collection(&[2, 2, 0, 0]), 2025),
        (collection(&[1, 0, 1, 1, 1, 1]), 2024),
    ];
    assert_eq!(streaks_for_day(&years, 2), (6, 6));
}

#[test]
fn longest_streak_in_older_year() {
    let years = vec![
        (collection(&[1, 1, 0, 0]), 2025),
        (collection(&[1, 1, 1, 1, 1, 1, 1, 1, 1, 0]), 2024),
    ];
    let r = streaks_for_day(&years, 3);
    assert_eq!(r, (0, 9));
    assert!(r.1 >= r.0);
}

#[test]
fn streaks_are_idempotent() {
    let years = vec![
        (collection(&[0, 4, 4, 0, 1]), 2025),
        (collection(&[1, 1, 0, 1, 1, 1, 1]), 2024),
    ];
    let first = streaks_for_day(&years, 5);
    let second = streaks_for_day(&years, 5);
    assert_eq!(first, second);
    assert_eq!(first, (1, 4));
}

#[test]
fn get_streaks_uses_day_of_year_of_now() {
    // 2024-01-04T12:00:00Z is day 3 of its year.
    let now_secs = chrono::NaiveDate::from_ymd_opt(2024, 1, 4)
        .unwrap()
        .and_hms_opt(12, 0, 0)
        .unwrap()
        .and_utc()
        .timestamp();
    let now = UtcDateTime::from_timestamp(now_secs).unwrap();
    assert_eq!(now.ordinal0(), 3);
    assert_eq!(now.year(), 2024);
    let years = vec![(collection(&[1, 1, 1, 0, 1, 1]), 2024)];
    assert_eq!(get_streaks(&years, now), (3, 3));
}
