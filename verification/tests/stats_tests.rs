use gitstreaks::stats::checked_total;
use gitstreaks::{
    calculate_current_streak, calculate_longest_streak, calculate_stats, ContributionDay, Date,
};

fn day(date: &str, count: u32, level: u8) -> ContributionDay {
    ContributionDay { date: date.to_string(), count, level }
}

fn date(year: u16, month: u8, day: u8) -> Date {
    Date { year, month, day }
}

#[test]
fn test_calculate_stats() {
    let days = vec![
        day("2024-01-15", 5, 2),
        day("2024-01-16", 10, 4),
        day("2024-01-17", 0, 0),
    ];

    let stats = calculate_stats(&days, date(2024, 1, 17));
    assert_eq!(stats.total_contributions, 15);
    assert_eq!(stats.best_day.count, 10);
    assert_eq!(stats.best_day.date, "2024-01-16");
}

#[test]
fn test_stats_empty_list() {
    let days: Vec<ContributionDay> = vec![];
    let stats = calculate_stats(&days, date(2024, 1, 1));
    assert_eq!(stats.total_contributions, 0);
    assert_eq!(stats.best_day.date, "");
    assert_eq!(stats.best_day.count, 0);
    assert_eq!(stats.current_streak.count, 0);
    assert_eq!(stats.current_streak.start_date, "");
    assert_eq!(stats.longest_streak.count, 0);
}

#[test]
fn test_best_day_tie_breaks_to_first() {
    let days = vec![
        day("2024-01-01", 2, 1),
        day("2024-01-02", 5, 2),
        day("2024-01-03", 5, 2),
    ];
    let stats = calculate_stats(&days, date(2024, 1, 3));
    assert_eq!(stats.best_day.date, "2024-01-02");
    assert_eq!(stats.best_day.count, 5);
}

#[test]
fn test_best_day_all_zero_picks_first() {
    let days = vec![day("2024-01-01", 0, 0), day("2024-01-02", 0, 0)];
    let stats = calculate_stats(&days, date(2024, 1, 2));
    assert_eq!(stats.best_day.date, "2024-01-01");
    assert_eq!(stats.best_day.count, 0);
}

#[test]
fn test_current_streak_boundary() {
    // counts [3,5,2,1,0] over 2024-01-01..05, reference day 2024-01-05:
    // the zero-count reference day is stepped over and the streak is the
    // four days before it
    let days = vec![
        day("2024-01-01", 3, 1),
        day("2024-01-02", 5, 2),
        day("2024-01-03", 2, 1),
        day("2024-01-04", 1, 1),
        day("2024-01-05", 0, 0),
    ];
    let streak = calculate_current_streak(&days, date(2024, 1, 5));
    assert_eq!(streak.count, 4);
    assert_eq!(streak.start_date, "2024-01-01");
    assert_eq!(streak.end_date, "2024-01-04");
}

#[test]
fn test_longest_vs_current_divergence() {
    // counts [5,0,0,1,1,1,1,1,1,1,1,1,1,1,0,1,1,1] over consecutive days
    // starting 2024-01-01, reference day = the date of the last 1
    let counts = [5, 0, 0, 1, 1, 1, 1, 1, 1, 1, 1, 1, 1, 1, 0, 1, 1, 1];
    let days: Vec<ContributionDay> = counts
        .iter()
        .enumerate()
        .map(|(i, &c)| day(&format!("2024-01-{:02}", i + 1), c, 1))
        .collect();
    let stats = calculate_stats(&days, date(2024, 1, 18));
    assert_eq!(stats.longest_streak.count, 11);
    assert_eq!(stats.longest_streak.start_date, "2024-01-04");
    assert_eq!(stats.longest_streak.end_date, "2024-01-14");
    assert_eq!(stats.current_streak.count, 3);
    assert_eq!(stats.current_streak.start_date, "2024-01-16");
    assert_eq!(stats.current_streak.end_date, "2024-01-18");
}

#[test]
fn test_current_streak_ends_yesterday() {
    let days = vec![day("2024-01-04", 2, 1), day("2024-01-05", 3, 1)];
    let streak = calculate_current_streak(&days, date(2024, 1, 6));
    assert_eq!(streak.count, 2);
    assert_eq!(streak.start_date, "2024-01-04");
    assert_eq!(streak.end_date, "2024-01-05");
}

#[test]
fn test_no_current_streak_when_stale() {
    // the last active day lies before yesterday: no current streak
    let days = vec![
        day("2024-01-01", 1, 1),
        day("2024-01-02", 0, 0),
        day("2024-01-03", 0, 0),
    ];
    let streak = calculate_current_streak(&days, date(2024, 1, 3));
    assert_eq!(streak.count, 0);
    assert_eq!(streak.start_date, "");
    assert_eq!(streak.end_date, "");
}

#[test]
fn test_current_streak_broken_by_gap() {
    // active on the reference day, but the day before it is missing
    let days = vec![day("2024-01-01", 4, 2), day("2024-01-03", 2, 1)];
    let streak = calculate_current_streak(&days, date(2024, 1, 3));
    assert_eq!(streak.count, 1);
    assert_eq!(streak.start_date, "2024-01-03");
    assert_eq!(streak.end_date, "2024-01-03");
}

#[test]
fn test_longest_streak_across_month_boundary() {
    let days = vec![
        day("2024-01-30", 1, 1),
        day("2024-01-31", 2, 1),
        day("2024-02-01", 3, 1),
    ];
    let streak = calculate_longest_streak(&days);
    assert_eq!(streak.count, 3);
    assert_eq!(streak.start_date, "2024-01-30");
    assert_eq!(streak.end_date, "2024-02-01");
}

#[test]
fn test_longest_streak_ignores_unparseable_dates() {
    let days = vec![
        day("2024-01-01", 1, 1),
        day("not-a-date", 9, 4),
        day("2024-01-02", 1, 1),
    ];
    let streak = calculate_longest_streak(&days);
    assert_eq!(streak.count, 2);
    assert_eq!(streak.start_date, "2024-01-01");
    assert_eq!(streak.end_date, "2024-01-02");
}

#[test]
fn test_checked_total() {
    let days = vec![day("2024-01-01", 3, 1), day("2024-01-02", 4, 1)];
    assert_eq!(checked_total(&days), Some(7));
    let big = vec![
        day("2024-01-01", u32::MAX, 4),
        day("2024-01-02", 1, 1),
    ];
    assert_eq!(checked_total(&big), None);
    assert_eq!(checked_total(&vec![]), Some(0));
}

#[test]
fn test_analyze_deterministic() {
    let days = vec![
        day("2024-01-01", 3, 1),
        day("2024-01-02", 0, 0),
        day("2024-01-03", 7, 3),
    ];
    let today = date(2024, 1, 3);
    let first = calculate_stats(&days, today);
    let second = calculate_stats(&days, today);
    assert_eq!(first, second);
}
