use ghboard::{color_class, day_for_weekday, day_name, ContributionCalendar, GhDay, GhWeek};

fn day(count: i32, weekday: usize) -> GhDay {
    GhDay { contributionCount: count, weekday, date: format!("2024-01-0{}", weekday + 1) }
}

#[test]
fn color_classes_by_count() {
    assert_eq!(color_class(21), "quiteALot");
    assert_eq!(color_class(20), "aLot");
    assert_eq!(color_class(11), "aLot");
    assert_eq!(color_class(10), "okay");
    assert_eq!(color_class(6), "okay");
    assert_eq!(color_class(5), "meh");
    assert_eq!(color_class(1), "meh");
    assert_eq!(color_class(0), "nothing");
    assert_eq!(color_class(-3), "nothing");
}

#[test]
fn day_names() {
    assert_eq!(day_name(0), "Sunday");
    assert_eq!(day_name(1), "Monday");
    assert_eq!(day_name(3), "Wednesday");
    assert_eq!(day_name(6), "Saturday");
    assert_eq!(day_name(9), "Sunday");
}

#[test]
fn weekday_slots_of_partial_week() {
    let week = GhWeek { contributionDays: vec![day(1, 3), day(2, 4), day(0, 6)] };
    assert_eq!(day_for_weekday(&week, 0), None);
    assert_eq!(day_for_weekday(&week, 3), Some(0));
    assert_eq!(day_for_weekday(&week, 4), Some(1));
    assert_eq!(day_for_weekday(&week, 5), None);
    assert_eq!(day_for_weekday(&week, 6), Some(2));
}

#[test]
fn builder_computes_total() {
    let weeks = vec![
        GhWeek { contributionDays: vec![day(1, 0), day(4, 1)] },
        GhWeek { contributionDays: vec![day(0, 2), day(7, 3)] },
    ];
    let c = ContributionCalendar::from_weeks(weeks.clone()).unwrap();
    assert_eq!(c.totalContributions, 12);
    assert_eq!(c.weeks, weeks);
    assert!(c.is_consistent());
}

#[test]
fn builder_of_no_days() {
    let c = ContributionCalendar::from_weeks(Vec::new()).unwrap();
    assert_eq!(c.totalContributions, 0);
    assert!(c.weeks.is_empty());
}

#[test]
fn builder_rejects_negative_count() {
    let weeks = vec![GhWeek { contributionDays: vec![day(1, 0), day(-1, 1)] }];
    assert!(ContributionCalendar::from_weeks(weeks).is_none());
}
