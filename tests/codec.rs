use ghboard::{
    ContributionCalendar, ContributionsCollection, GhDay, GhWeek, UserData, UtcDateTime,
};

fn collection(total: usize, weeks: Vec<Vec<(i32, usize, &str)>>) -> ContributionsCollection {
    ContributionsCollection {
        contributionCalendar: ContributionCalendar {
            totalContributions: total,
            weeks: weeks
                .into_iter()
                .map(|days| GhWeek {
                    contributionDays: days
                        .into_iter()
                        .map(|(c, w, d)| GhDay {
                            contributionCount: c,
                            weekday: w,
                            date: d.to_string(),
                        })
                        .collect(),
                })
                .collect(),
        },
    }
}

fn populated() -> UserData {
    UserData {
        created_at: UtcDateTime::from_timestamp(1_714_564_800).unwrap(),
        years: vec![
            (collection(5, vec![vec![(2, 1, "2024-01-01"), (3, 2, "2024-01-02")]]), 2024),
            (collection(0, vec![]), 2023),
            (collection(1, vec![vec![], vec![(1, 6, "2022-12-31")]]), 2022),
        ],
        last_year: collection(7, vec![vec![(7, 0, "2023-05-07 ✓")]]),
        current_streak: 2,
        longest_streak: 9,
    }
}

fn assert_same(a: &UserData, b: &UserData) {
    assert_eq!(a.created_at, b.created_at);
    assert_eq!(a.years, b.years);
    assert_eq!(a.last_year, b.last_year);
    assert_eq!(a.current_streak, b.current_streak);
    assert_eq!(a.longest_streak, b.longest_streak);
}

#[test]
fn populated_snapshot_round_trips() {
    let d = populated();
    let bytes = d.encode();
    let back = UserData::decode(&bytes).unwrap();
    assert_same(&d, &back);
}

#[test]
fn empty_snapshot_round_trips() {
    let d = UserData {
        created_at: UtcDateTime::from_timestamp(-5).unwrap(),
        years: Vec::new(),
        last_year: ContributionsCollection::default(),
        current_streak: i32::MIN,
        longest_streak: i32::MAX,
    };
    let bytes = d.encode();
    // timestamp, year count, last year's total and week count, two streaks
    assert_eq!(bytes.len(), 6 * 8);
    let back = UserData::decode(&bytes).unwrap();
    assert_same(&d, &back);
}

#[test]
fn integers_are_offset_little_endian() {
    let d = UserData {
        created_at: UtcDateTime::from_timestamp(0).unwrap(),
        years: Vec::new(),
        last_year: ContributionsCollection::default(),
        current_streak: 0,
        longest_streak: -1,
    };
    let bytes = d.encode();
    assert_eq!(&bytes[0..8], &[0, 0, 0, 0, 0, 0, 0, 0x80]);
    assert_eq!(&bytes[32..40], &[0, 0, 0, 0x80, 0, 0, 0, 0]);
    assert_eq!(&bytes[40..48], &[0xff, 0xff, 0xff, 0x7f, 0, 0, 0, 0]);
}

#[test]
fn truncated_bytes_are_rejected() {
    let bytes = populated().encode();
    for cut in [0, 1, 8, 20, bytes.len() - 1] {
        assert!(UserData::decode(&bytes[..cut]).is_none());
    }
}

#[test]
fn trailing_bytes_are_rejected() {
    let mut bytes = populated().encode();
    bytes.push(0);
    assert!(UserData::decode(&bytes).is_none());
}

#[test]
fn invalid_text_is_rejected() {
    let d = UserData {
        created_at: UtcDateTime::from_timestamp(0).unwrap(),
        years: Vec::new(),
        last_year: collection(1, vec![vec![(1, 0, "ab")]]),
        current_streak: 0,
        longest_streak: 0,
    };
    let mut bytes = d.encode();
    let at = bytes.len() - 16 - 2;
    assert_eq!(&bytes[at..at + 2], b"ab");
    bytes[at] = 0xff;
    assert!(UserData::decode(&bytes).is_none());
}

#[test]
fn creation_instant_out_of_range_is_rejected() {
    let mut bytes = populated().encode();
    bytes[0..8].copy_from_slice(&u64::MAX.to_le_bytes());
    assert!(UserData::decode(&bytes).is_none());
}
