//! Contribution streaks and yearly activity totals, computed from a
//! day-by-day activity feed that is partitioned into calendar years.
pub mod cache;
pub mod calendar;
pub mod codec;
pub mod display;
pub mod streak;
pub mod time;
pub mod user_data;
pub mod windows;

pub use cache::{cache_key, Cache};
pub use calendar::{ContributionCalendar, ContributionsCollection, GhDay, GhWeek};
pub use display::{color_class, day_for_weekday, day_name};
pub use streak::{get_streaks, streaks_fit, streaks_for_day};
pub use time::{date_with_just_year, new_date_year, UtcDateTime};
pub use user_data::{is_fresh, UserData};
pub use windows::{
    compute_windows, year_window, year_windows, RollingWindow, YearWindow, ROLLING_WINDOW_KEY,
};
