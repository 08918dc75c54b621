use gitstreaks::types::ParseError;
use gitstreaks::{estimate_count_from_level, parse_contribution_html};

#[test]
fn test_parse_contribution_html() {
    let html = r#"
            <td data-date="2024-01-15" data-level="3"></td>
            <td data-date="2024-01-16" data-level="2"></td>
            <td data-date="2024-01-17" data-level="0"></td>
        "#;

    let days = parse_contribution_html(html).unwrap();
    assert_eq!(days.len(), 3);
    assert_eq!(days[0].date, "2024-01-15");
    assert_eq!(days[0].level, 3);
}

#[test]
fn test_empty_input_fails() {
    assert_eq!(parse_contribution_html(""), Err(ParseError::NoDataFound));
    assert_eq!(
        parse_contribution_html("<html></html>"),
        Err(ParseError::NoDataFound)
    );
}

#[test]
fn test_error_message() {
    let err = parse_contribution_html("").unwrap_err();
    assert_eq!(err.message(), "no contribution data found");
}

#[test]
fn test_estimate_table() {
    assert_eq!(estimate_count_from_level(0), 0);
    assert_eq!(estimate_count_from_level(1), 1);
    assert_eq!(estimate_count_from_level(2), 3);
    assert_eq!(estimate_count_from_level(3), 6);
    assert_eq!(estimate_count_from_level(4), 10);
    assert_eq!(estimate_count_from_level(5), 0);
    assert_eq!(estimate_count_from_level(255), 0);
}

#[test]
fn test_counts_estimated_from_levels() {
    let html = r#"
            <td data-date="2024-03-01" data-level="0"></td>
            <td data-date="2024-03-02" data-level="1"></td>
            <td data-date="2024-03-03" data-level="2"></td>
            <td data-date="2024-03-04" data-level="3"></td>
            <td data-date="2024-03-05" data-level="4"></td>
            <td data-date="2024-03-06" data-level="7"></td>
        "#;
    let days = parse_contribution_html(html).unwrap();
    assert_eq!(days.len(), 6);
    let counts: Vec<u32> = days.iter().map(|d| d.count).collect();
    assert_eq!(counts, vec![0, 1, 3, 6, 10, 0]);
}

#[test]
fn test_literal_count_overrides_estimate() {
    let html = r#"
            <td data-date="2024-01-15" data-level="2">7 contributions on January 15</td>
        "#;
    let days = parse_contribution_html(html).unwrap();
    assert_eq!(days.len(), 1);
    assert_eq!(days[0].count, 7);
    assert_eq!(days[0].level, 2);
}

#[test]
fn test_no_contributions_text_means_zero() {
    let html = r#"<td data-date="2024-01-15" data-level="1">No contributions on January 15</td>"#;
    let days = parse_contribution_html(html).unwrap();
    assert_eq!(days.len(), 1);
    // the literal "No contributions" wins over the level-1 estimate
    assert_eq!(days[0].count, 0);
}

#[test]
fn test_count_text_not_crossing_element_boundary() {
    // the literal count sits in a later element, so the estimate applies
    let html = r#"<td data-date="2024-01-15" data-level="2"></td><span>7 contributions</span>"#;
    let days = parse_contribution_html(html).unwrap();
    assert_eq!(days.len(), 1);
    assert_eq!(days[0].count, 3);
}

#[test]
fn test_level_not_crossing_element_boundary() {
    // the level attribute sits in a later element, so no record is paired
    let html = r#"<td data-date="2024-01-15"></td><td data-level="3"></td>"#;
    assert_eq!(parse_contribution_html(html), Err(ParseError::NoDataFound));
}

#[test]
fn test_records_sorted_by_date() {
    let html = r#"
            <td data-date="2024-02-20" data-level="1"></td>
            <td data-date="2023-12-31" data-level="2"></td>
            <td data-date="2024-01-05" data-level="3"></td>
        "#;
    let days = parse_contribution_html(html).unwrap();
    let dates: Vec<&str> = days.iter().map(|d| d.date.as_str()).collect();
    assert_eq!(dates, vec!["2023-12-31", "2024-01-05", "2024-02-20"]);
}

#[test]
fn test_duplicate_date_last_level_wins() {
    let html = r#"
            <td data-date="2024-01-15" data-level="1"></td>
            <td data-date="2024-01-15" data-level="4"></td>
        "#;
    let days = parse_contribution_html(html).unwrap();
    assert_eq!(days.len(), 1);
    assert_eq!(days[0].level, 4);
    assert_eq!(days[0].count, 10);
}

#[test]
fn test_oversized_literal_count_reads_as_zero() {
    let html =
        r#"<td data-date="2024-01-15" data-level="2">99999999999 contributions on January 15</td>"#;
    let days = parse_contribution_html(html).unwrap();
    assert_eq!(days[0].count, 0);
}

#[test]
fn test_malformed_fragment_skipped() {
    // a malformed date does not abort the scan; the good record survives
    let html = r#"
            <td data-date="2024-1-15" data-level="3"></td>
            <td data-date="2024-01-16" data-level="1"></td>
        "#;
    let days = parse_contribution_html(html).unwrap();
    assert_eq!(days.len(), 1);
    assert_eq!(days[0].date, "2024-01-16");
}

#[test]
fn test_matches_do_not_overlap() {
    // the first date is paired with the level; the date between them falls
    // inside the consumed span and yields no record of its own
    let html = r#"<td data-date="2024-01-01" data-date="2024-01-02" data-level="3"></td>"#;
    let days = parse_contribution_html(html).unwrap();
    assert_eq!(days.len(), 1);
    assert_eq!(days[0].date, "2024-01-01");
    assert_eq!(days[0].level, 3);
}

#[test]
fn test_mixed_calendar_fragment() {
    let html = r#"
            <td data-date="2024-01-02" data-level="1">2 contributions on January 2</td>
            <td data-date="2024-01-01" data-level="4">No contributions on January 1</td>
            <td data-date="2024-01-03" data-level="2"></td>
        "#;
    let days = parse_contribution_html(html).unwrap();
    assert_eq!(days.len(), 3);
    assert_eq!(days[0].date, "2024-01-01");
    assert_eq!(days[0].count, 0);
    assert_eq!(days[0].level, 4);
    assert_eq!(days[1].date, "2024-01-02");
    assert_eq!(days[1].count, 2);
    assert_eq!(days[1].level, 1);
    assert_eq!(days[2].date, "2024-01-03");
    assert_eq!(days[2].count, 3);
    assert_eq!(days[2].level, 2);
}

#[test]
fn test_duplicate_date_keeps_literal_count() {
    let html = r#"
            <td data-date="2024-01-15" data-level="1">9 contributions on January 15</td>
            <td data-date="2024-01-15" data-level="3"></td>
        "#;
    let days = parse_contribution_html(html).unwrap();
    assert_eq!(days.len(), 1);
    assert_eq!(days[0].level, 3);
    assert_eq!(days[0].count, 9);
}

#[test]
fn test_attribute_order_within_element() {
    // other attributes may stand between the date and the level
    let html = r#"<rect class="day" data-date="2024-05-01" width="10" data-level="2"></rect>"#;
    let days = parse_contribution_html(html).unwrap();
    assert_eq!(days.len(), 1);
    assert_eq!(days[0].date, "2024-05-01");
    assert_eq!(days[0].level, 2);
    assert_eq!(days[0].count, 3);
}
