use flowtime_statistics::day::{Date, Day};
use flowtime_statistics::loader::{Anomaly, LoadError};
use flowtime_statistics::statistics::Statistics;

fn d(year: i32, month: u32, day: u32) -> Date {
    Date { year, month, day }
}

#[test]
fn new_session_is_empty() {
    let stats = Statistics::new();
    assert!(stats.days_model().is_empty());
    assert!(stats.today().is_none());
    assert_eq!(stats.productive_day(), String::new());
}

#[test]
fn end_to_end_scenario() {
    let now = d(2024, 5, 1);
    let bytes = b"<statistics><day date=\"2020-01-01\"><worktime>100</worktime><breaktime>50</breaktime></day></statistics>".to_vec();
    let mut stats = Statistics::new();
    let anomalies = stats.load_days(&bytes, now).unwrap();
    assert!(anomalies.is_empty());
    let days = stats.days_model();
    assert_eq!(days.len(), 2);
    assert_eq!(days[0], Day::new(d(2020, 1, 1), 100, 50));
    assert_eq!(days[1], Day::new(now, 0, 0));
    assert_eq!(stats.today(), Some(Day::new(now, 0, 0)));
}

#[test]
fn document_order_kept_and_today_found() {
    let now = d(2024, 5, 2);
    let bytes = b"<statistics>
        <day date=\"2024-05-01\"><worktime>1</worktime></day>
        <day date=\"2024-05-02\"><worktime>2</worktime><breaktime>3</breaktime></day>
        <day date=\"2024-05-03\"><breaktime>4</breaktime></day>
    </statistics>"
        .to_vec();
    let mut stats = Statistics::new();
    stats.load_days(&bytes, now).unwrap();
    let days = stats.days_model();
    assert_eq!(days.len(), 3);
    assert_eq!(days[0], Day::new(d(2024, 5, 1), 1, 0));
    assert_eq!(days[1], Day::new(d(2024, 5, 2), 2, 3));
    assert_eq!(days[2], Day::new(d(2024, 5, 3), 0, 4));
    assert_eq!(stats.today(), Some(Day::new(d(2024, 5, 2), 2, 3)));
}

#[test]
fn malformed_worktime_leaves_default() {
    let now = d(2024, 5, 1);
    let bytes = b"<statistics><day date=\"2020-01-01\"><worktime>abc</worktime></day></statistics>"
        .to_vec();
    let mut stats = Statistics::new();
    let anomalies = stats.load_days(&bytes, now).unwrap();
    assert_eq!(anomalies, vec![Anomaly::MalformedCount]);
    assert_eq!(stats.days_model()[0], Day::new(d(2020, 1, 1), 0, 0));
}

#[test]
fn unknown_sibling_element_tolerated() {
    let now = d(2024, 5, 1);
    let with = b"<statistics><banner>ad</banner><day date=\"2020-01-01\"><worktime>100</worktime></day></statistics>".to_vec();
    let without =
        b"<statistics><day date=\"2020-01-01\"><worktime>100</worktime></day></statistics>"
            .to_vec();
    let mut s1 = Statistics::new();
    let a1 = s1.load_days(&with, now).unwrap();
    let mut s2 = Statistics::new();
    let a2 = s2.load_days(&without, now).unwrap();
    assert_eq!(s1.days_model(), s2.days_model());
    assert_eq!(s1.today(), s2.today());
    assert_eq!(a1, vec![Anomaly::UnrecognizedElement]);
    assert!(a2.is_empty());
}

#[test]
fn empty_document_yields_one_synthesized_day() {
    let now = d(2024, 5, 1);
    let bytes = b"<statistics></statistics>".to_vec();
    let mut stats = Statistics::new();
    stats.load_days(&bytes, now).unwrap();
    let days = stats.days_model();
    assert_eq!(days.len(), 1);
    assert_eq!(days[0], Day::new(now, 0, 0));
    assert_eq!(stats.today(), Some(Day::new(now, 0, 0)));
}

#[test]
fn day_without_date_attribute_is_skipped() {
    let now = d(2024, 5, 1);
    let bytes = b"<statistics><day><worktime>100</worktime></day></statistics>".to_vec();
    let mut stats = Statistics::new();
    let anomalies = stats.load_days(&bytes, now).unwrap();
    assert_eq!(anomalies, vec![Anomaly::MalformedAttribute]);
    let days = stats.days_model();
    assert_eq!(days.len(), 1);
    assert_eq!(days[0], Day::new(now, 0, 0));
}

#[test]
fn truncated_stream_keeps_parsed_days() {
    let now = d(2024, 5, 1);
    let bytes = b"<statistics><day date=\"2020-01-01\"><worktime>100</worktime></day><day"
        .to_vec();
    let mut stats = Statistics::new();
    let result = stats.load_days(&bytes, now);
    assert!(result.is_ok());
    assert_eq!(stats.days_model()[0], Day::new(d(2020, 1, 1), 100, 0));
}

#[test]
fn productive_day_label_stored() {
    let mut stats = Statistics::new();
    stats.set_productive_day("Wednesday".to_string());
    assert_eq!(stats.productive_day(), "Wednesday".to_string());
    stats.save();
    assert_eq!(stats.productive_day(), "Wednesday".to_string());
}

#[test]
fn load_error_values_compare() {
    assert_ne!(LoadError::StreamOpenError, LoadError::MalformedDocument);
}
