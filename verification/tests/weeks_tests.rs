use gitstreaks::dates::{parse_date_str, weekday_of_date, Date};
use gitstreaks::{calculate_stats, group_into_weeks, ContributionDay};

fn day(date: &str, count: u32, level: u8) -> ContributionDay {
    ContributionDay { date: date.to_string(), count, level }
}

#[test]
fn test_group_empty_input() {
    let weeks = group_into_weeks(vec![]);
    assert_eq!(weeks.len(), 0);
}

#[test]
fn test_group_splits_on_sunday() {
    // 2024-01-07 is a Sunday: Fri/Sat close the first (partial) week
    let days = vec![
        day("2024-01-05", 1, 1),
        day("2024-01-06", 2, 1),
        day("2024-01-07", 3, 1),
        day("2024-01-08", 4, 2),
    ];
    let weeks = group_into_weeks(days);
    assert_eq!(weeks.len(), 2);
    assert_eq!(weeks[0].days.len(), 2);
    assert_eq!(weeks[0].days[0].date, "2024-01-05");
    assert_eq!(weeks[0].days[1].date, "2024-01-06");
    assert_eq!(weeks[1].days.len(), 2);
    assert_eq!(weeks[1].days[0].date, "2024-01-07");
    assert_eq!(weeks[1].days[1].date, "2024-01-08");
}

#[test]
fn test_group_concatenation_reproduces_input() {
    let days: Vec<ContributionDay> = (1..=14)
        .map(|i| day(&format!("2024-01-{:02}", i), i as u32, 1))
        .collect();
    let weeks = group_into_weeks(days.clone());
    let flattened: Vec<ContributionDay> =
        weeks.iter().flat_map(|w| w.days.iter().cloned()).collect();
    assert_eq!(flattened, days);
    // every week after the first starts on the Sunday that opened it
    for w in weeks.iter().skip(1) {
        let date = parse_date_str(&w.days[0].date).unwrap();
        assert_eq!(weekday_of_date(&date), 0);
    }
    // over gapless days, every week before the last ends on a Saturday
    for w in weeks.iter().take(weeks.len() - 1) {
        let last = w.days.last().unwrap();
        let date = parse_date_str(&last.date).unwrap();
        assert_eq!(weekday_of_date(&date), 6);
    }
    // and no week outgrows the calendar week
    for w in weeks.iter() {
        assert!(!w.days.is_empty() && w.days.len() <= 7);
    }
}

#[test]
fn test_group_drops_unparseable_dates() {
    let days = vec![
        day("2024-01-05", 1, 1),
        day("2024-02-30", 9, 4),
        day("garbage", 9, 4),
        day("2024-01-06", 2, 1),
    ];
    let weeks = group_into_weeks(days);
    assert_eq!(weeks.len(), 1);
    assert_eq!(weeks[0].days.len(), 2);
    assert_eq!(weeks[0].days[0].date, "2024-01-05");
    assert_eq!(weeks[0].days[1].date, "2024-01-06");
}

#[test]
fn test_week_totals_match_statistics() {
    let days: Vec<ContributionDay> = (1..=10)
        .map(|i| day(&format!("2024-01-{:02}", i), i as u32, 1))
        .collect();
    let stats = calculate_stats(&days, Date { year: 2024, month: 1, day: 10 });
    let weeks = group_into_weeks(days);
    let week_total: u32 = weeks
        .iter()
        .map(|w| w.days.iter().map(|d| d.count).sum::<u32>())
        .sum();
    assert_eq!(week_total, stats.total_contributions);
}

#[test]
fn test_weekday_anchors() {
    assert_eq!(weekday_of_date(&Date { year: 2024, month: 1, day: 7 }), 0);
    assert_eq!(weekday_of_date(&Date { year: 2024, month: 1, day: 6 }), 6);
    assert_eq!(weekday_of_date(&Date { year: 2000, month: 1, day: 1 }), 6);
    assert_eq!(weekday_of_date(&Date { year: 2026, month: 10, day: 12 }), 1);
}

#[test]
fn test_parse_date_str_validity() {
    assert_eq!(
        parse_date_str("2024-02-29"),
        Some(Date { year: 2024, month: 2, day: 29 })
    );
    assert_eq!(parse_date_str("2023-02-29"), None);
    assert_eq!(parse_date_str("2024-13-01"), None);
    assert_eq!(parse_date_str("2024-00-10"), None);
    assert_eq!(parse_date_str("2024-01-00"), None);
    assert_eq!(parse_date_str("2024-1-05"), None);
    assert_eq!(parse_date_str(""), None);
    assert_eq!(
        parse_date_str("1900-02-28"),
        Some(Date { year: 1900, month: 2, day: 28 })
    );
    assert_eq!(parse_date_str("1900-02-29"), None);
    assert_eq!(
        parse_date_str("2000-02-29"),
        Some(Date { year: 2000, month: 2, day: 29 })
    );
}
