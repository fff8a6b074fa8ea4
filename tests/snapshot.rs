use ghboard::{
    cache_key, compute_windows, is_fresh, Cache, ContributionCalendar, ContributionsCollection,
    GhDay, GhWeek, UserData, UtcDateTime,
};

fn week(counts: &[i32]) -> GhWeek {
    GhWeek {
        contributionDays: counts
            .iter()
            .enumerate()
            .map(|(i, c)| GhDay { contributionCount: *c, weekday: i, date: String::new() })
            .collect(),
    }
}

fn calendar(total: usize, weeks: Vec<GhWeek>) -> ContributionCalendar {
    ContributionCalendar { totalContributions: total, weeks }
}

fn collection(total: usize, counts: &[i32]) -> ContributionsCollection {
    ContributionsCollection { contributionCalendar: calendar(total, vec![week(counts)]) }
}

fn at(y: i32, mo: u32, d: u32, h: u32, mi: u32, s: u32) -> UtcDateTime {
    let secs = chrono::NaiveDate::from_ymd_opt(y, mo, d)
        .unwrap()
        .and_hms_opt(h, mi, s)
        .unwrap()
        .and_utc()
        .timestamp();
    UtcDateTime::from_timestamp(secs).unwrap()
}

fn snapshot(created_at: UtcDateTime, current: i32) -> UserData {
    UserData {
        created_at,
        years: Vec::new(),
        last_year: ContributionsCollection::default(),
        current_streak: current,
        longest_streak: current,
    }
}

#[test]
fn total_matches_sum_of_days() {
    let c = calendar(10, vec![week(&[1, 2]), week(&[3, 0, 4])]);
    assert!(c.is_consistent());
}

#[test]
fn total_differs_from_sum_of_days() {
    assert!(!calendar(9, vec![week(&[1, 2]), week(&[3, 0, 4])]).is_consistent());
    assert!(!calendar(11, vec![week(&[1, 2]), week(&[3, 0, 4])]).is_consistent());
}

#[test]
fn negative_count_is_inconsistent() {
    assert!(!calendar(2, vec![week(&[3, -1])]).is_consistent());
}

#[test]
fn empty_calendar_is_consistent() {
    assert!(calendar(0, Vec::new()).is_consistent());
    assert!(calendar(0, vec![week(&[])]).is_consistent());
    assert!(!calendar(1, Vec::new()).is_consistent());
}

#[test]
fn fresh_within_the_hour() {
    let now = at(2024, 5, 1, 12, 0, 0);
    assert!(is_fresh(at(2024, 5, 1, 11, 1, 0), now));
    assert!(!is_fresh(at(2024, 5, 1, 10, 59, 0), now));
    assert!(!is_fresh(at(2024, 5, 1, 11, 0, 0), now));
    assert!(is_fresh(at(2024, 5, 1, 11, 0, 1), now));
}

#[test]
fn cache_serves_fresh_and_refetches_stale() {
    let now = at(2024, 5, 1, 12, 0, 0);
    let mut cache = Cache::new();
    cache.set("user_a", snapshot(at(2024, 5, 1, 11, 1, 0), 4));
    cache.set("user_b", snapshot(at(2024, 5, 1, 10, 59, 0), 5));
    assert_eq!(cache.get_fresh("user_a", now).map(|d| d.current_streak), Some(4));
    assert!(cache.get_fresh("user_b", now).is_none());
    assert_eq!(cache.get("user_b").map(|d| d.current_streak), Some(5));
    assert!(cache.get_fresh("user_c", now).is_none());
}

#[test]
fn cache_set_replaces_whole_entry() {
    let mut cache = Cache::new();
    assert!(cache.get("user_a").is_none());
    cache.set("user_a", snapshot(at(2024, 5, 1, 11, 0, 0), 1));
    cache.set("user_a", snapshot(at(2024, 5, 1, 12, 0, 0), 2));
    let d = cache.get("user_a").unwrap();
    assert_eq!(d.current_streak, 2);
    assert_eq!(d.created_at, at(2024, 5, 1, 12, 0, 0));
}

#[test]
fn key_has_user_prefix() {
    assert_eq!(cache_key("octocat"), "user_octocat");
    assert_eq!(cache_key(""), "user_");
}

#[test]
fn assemble_orders_years_newest_first() {
    let now = at(2024, 1, 3, 10, 0, 0);
    let (windows, _) = compute_windows(at(2023, 6, 1, 0, 0, 0), now);
    assert_eq!(windows.len(), 2);
    let calendars = vec![collection(3, &[1, 1, 1]), collection(7, &[2, 0, 5])];
    let last_year = collection(3, &[1, 1, 1]);
    let d = UserData::assemble(&windows, calendars, last_year.clone(), now).unwrap();
    assert_eq!(d.created_at, now);
    assert_eq!(d.years.len(), 2);
    assert_eq!(d.years[0].1, 2024);
    assert_eq!(d.years[0].0, collection(7, &[2, 0, 5]));
    assert_eq!(d.years[1].1, 2023);
    assert_eq!(d.years[1].0, collection(3, &[1, 1, 1]));
    assert_eq!(d.last_year, last_year);
    // 2023: three active days; 2024: day 0 active, day 1 empty, day 2 is today.
    assert_eq!((d.current_streak, d.longest_streak), (0, 4));
}

#[test]
fn assemble_rejects_missing_calendar() {
    let now = at(2024, 1, 3, 10, 0, 0);
    let (windows, _) = compute_windows(at(2023, 6, 1, 0, 0, 0), now);
    let calendars = vec![collection(3, &[1, 1, 1])];
    assert!(UserData::assemble(&windows, calendars, collection(0, &[]), now).is_none());
}
