//! Data structures for contribution records, weekly grouping, statistics and
//! the extractor's error, together with their mathematical views.
use vstd::prelude::*;

use crate::dates::{spec_parse_date, Date};

verus! {

/// One calendar day's activity: ISO date string, literal or estimated count,
/// and quantized intensity level.
#[derive(Debug, PartialEq, Eq)]
pub struct ContributionDay {
    /// Date in `YYYY-MM-DD` form.
    pub date: String,
    /// Number of contributions on this day.
    pub count: u32,
    /// Visual intensity level (0 = none, 4 = highest).
    pub level: u8,
}

/// Mathematical view of a day record.
pub struct DayView {
    pub date: Seq<char>,
    pub count: u32,
    pub level: u8,
}

impl View for ContributionDay {
    type V = DayView;

    open spec fn view(&self) -> DayView {
        DayView { date: self.date@, count: self.count, level: self.level }
    }
}

impl Clone for ContributionDay {
    fn clone(&self) -> (r: Self)
        ensures
            r == *self,
    {
        ContributionDay { date: self.date.clone(), count: self.count, level: self.level }
    }
}

/// The calendar date a record speaks of, when its date string parses.
pub open spec fn day_date(d: DayView) -> Option<Date> {
    spec_parse_date(d.date)
}

/// The day with the most contributions.
#[derive(Debug, Clone, PartialEq, Eq)]
pub struct BestDay {
    pub date: String,
    pub count: u32,
}

/// Mathematical view of a best day.
pub struct BestDayView {
    pub date: Seq<char>,
    pub count: u32,
}

impl View for BestDay {
    type V = BestDayView;

    open spec fn view(&self) -> BestDayView {
        BestDayView { date: self.date@, count: self.count }
    }
}

/// A run of consecutive days with contributions; `count == 0` with empty date
/// fields signals that no such run exists.
#[derive(Debug, Clone, PartialEq, Eq)]
pub struct Streak {
    /// Number of consecutive days.
    pub count: u32,
    /// First day of the run (`YYYY-MM-DD`), empty when `count == 0`.
    pub start_date: String,
    /// Last day of the run (`YYYY-MM-DD`), empty when `count == 0`.
    pub end_date: String,
}

/// Mathematical view of a streak.
pub struct StreakView {
    pub count: u32,
    pub start_date: Seq<char>,
    pub end_date: Seq<char>,
}

impl View for Streak {
    type V = StreakView;

    open spec fn view(&self) -> StreakView {
        StreakView {
            count: self.count,
            start_date: self.start_date@,
            end_date: self.end_date@,
        }
    }
}

/// The empty streak view.
pub open spec fn empty_streak() -> StreakView {
    StreakView { count: 0, start_date: Seq::empty(), end_date: Seq::empty() }
}

/// Aggregate statistics over a day list. The mean per day is a ratio the
/// presentation layer derives from `total_contributions` and the list length.
#[derive(Debug, Clone, PartialEq, Eq)]
pub struct ContributionStats {
    /// Sum of all counts.
    pub total_contributions: u32,
    /// First day with the maximum count.
    pub best_day: BestDay,
    /// Run of active days ending at or next to the reference day.
    pub current_streak: Streak,
    /// Longest run of active days anywhere in the list.
    pub longest_streak: Streak,
}

/// Mathematical view of the statistics.
pub struct StatsView {
    pub total_contributions: u32,
    pub best_day: BestDayView,
    pub current_streak: StreakView,
    pub longest_streak: StreakView,
}

impl View for ContributionStats {
    type V = StatsView;

    open spec fn view(&self) -> StatsView {
        StatsView {
            total_contributions: self.total_contributions,
            best_day: self.best_day@,
            current_streak: self.current_streak@,
            longest_streak: self.longest_streak@,
        }
    }
}

/// One Sunday-start calendar week of records; the first and last week of a
/// sequence may be partial.
#[derive(Debug, Clone, PartialEq, Eq)]
pub struct ContributionWeek {
    /// Days in this week, in chronological order (1 to 7 entries).
    pub days: Vec<ContributionDay>,
}

impl View for ContributionWeek {
    type V = Seq<DayView>;

    open spec fn view(&self) -> Seq<DayView> {
        self.days@.map_values(|d: ContributionDay| d@)
    }
}

/// Basic information about the account the records belong to.
#[derive(Debug, Clone, PartialEq, Eq)]
pub struct UserInfo {
    pub username: String,
    pub avatar_url: String,
}

/// Application settings the host persists.
#[derive(Debug, Clone, PartialEq, Eq)]
pub struct Settings {
    /// Account name to fetch contributions for.
    pub username: String,
    /// Auto-refresh interval in seconds.
    pub update_interval: u64,
    /// Tray icon style: "monochrome" or "green".
    pub icon_style: String,
    /// Whether to start the host application at login.
    pub launch_at_login: bool,
    /// UI theme: "system", "light" or "dark".
    pub theme: String,
}

impl Default for Settings {
    /// Default settings: empty username, hourly refresh, green icon, no
    /// auto-launch, system theme.
    fn default() -> (s: Settings)
        ensures
            s.username@ == Seq::<char>::empty(),
            s.update_interval == 3600,
            s.icon_style@ == "green"@,
            s.launch_at_login == false,
            s.theme@ == "system"@,
    {
        Settings {
            username: String::new(),
            update_interval: 3600,
            icon_style: String::from_str("green"),
            launch_at_login: false,
            theme: String::from_str("system"),
        }
    }
}

/// The extractor's only error: the input held no readable day record.
#[derive(Debug, Clone, Copy, PartialEq, Eq, Structural)]
pub enum ParseError {
    NoDataFound,
}

impl ParseError {
    /// A human-readable description of the error.
    pub fn message(&self) -> (m: String)
        ensures
            m@ == "no contribution data found"@,
    {
        String::from_str("no contribution data found")
    }
}

} // verus!
