//! Contribution-calendar analytics: extracts per-day activity records from a
//! calendar HTML fragment, groups them into Sunday-start weeks, and derives
//! aggregate statistics (totals, best day, current and longest streaks).
use vstd::prelude::*;

pub mod chars;
pub mod dates;
pub mod extract;
pub mod laws;
pub mod stats;
pub mod types;
pub mod weeks;

pub use dates::Date;
pub use extract::parse_contribution_html;
pub use stats::{calculate_current_streak, calculate_longest_streak, calculate_stats};
pub use types::{
    BestDay, ContributionDay, ContributionStats, ContributionWeek, ParseError, Settings, Streak,
    UserInfo,
};
pub use weeks::group_into_weeks;

verus! {

/// Estimates a contribution count from the visual intensity level, used when
/// no literal count is present in the source text. Out-of-range levels
/// estimate to 0.
pub fn estimate_count_from_level(level: u8) -> (count: u32)
    ensures
        count == spec_estimate(level),
{
    match level {
        0 => 0,
        1 => 1,
        2 => 3,
        3 => 6,
        4 => 10,
        _ => 0,
    }
}

/// The fixed level-to-count estimation table.
pub open spec fn spec_estimate(level: u8) -> u32 {
    match level {
        0u8 => 0u32,
        1u8 => 1u32,
        2u8 => 3u32,
        3u8 => 6u32,
        4u8 => 10u32,
        _ => 0u32,
    }
}

} // verus!
