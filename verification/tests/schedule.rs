use acad::config::{
    next_refresh_time, parse_schedule, refresh_sleep_seconds, schedule_next_occurrence,
};
use acad::sources::{Source, SourceType, Sources};

#[test]
fn parses_cron_expressions() {
    assert!(parse_schedule("0 0 0 * * *").is_some());
    assert!(parse_schedule("not a schedule").is_none());
}

#[test]
fn next_occurrence_is_strictly_later() {
    // daily at midnight, asked right at the epoch: the next occurrence
    // is the following midnight
    let schedule = parse_schedule("0 0 0 * * *").expect("a valid schedule");
    let next = schedule_next_occurrence(&schedule, 0).expect("an occurrence");
    assert_eq!(next, 86400);

    // one second before midnight rolls over to that midnight
    let next = schedule_next_occurrence(&schedule, 86399).expect("an occurrence");
    assert_eq!(next, 86400);
}

#[test]
fn refresh_time_defaults_to_a_day() {
    assert_eq!(next_refresh_time(1000, Some(5000)), 5000);
    assert_eq!(next_refresh_time(1000, None), 1000 + 86400);
}

#[test]
fn sleep_never_negative() {
    assert_eq!(refresh_sleep_seconds(100, 250), 150);
    assert_eq!(refresh_sleep_seconds(250, 100), 0);
    assert_eq!(refresh_sleep_seconds(250, 250), 0);
}

#[test]
fn sources_list_is_ordered() {
    let sources = Sources(vec![
        Source {
            url: "https://example.com/one".to_string(),
            source_type: SourceType::SoundCloud,
        },
        Source {
            url: "https://example.com/two".to_string(),
            source_type: SourceType::YouTube,
        },
    ]);
    let list = sources.list();
    assert_eq!(list.len(), 2);
    assert_eq!(list[0].url, "https://example.com/one");
    assert!(matches!(list[1].source_type, SourceType::YouTube));
}
