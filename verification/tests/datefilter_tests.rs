use calmerge::datefilter::{DateWindow, event_kept, in_window, parse_start};
use calmerge::event::Event;

const NOON_2023_12_15: i64 = 1702641600;
const MIDNIGHT_2023_12_15: i64 = 1702598400;
const DAY: i64 = 86400;

#[test]
fn parses_datetime_with_z() {
    assert_eq!(parse_start("20231215T120000Z"), Some(NOON_2023_12_15));
}

#[test]
fn parses_datetime_without_z() {
    assert_eq!(parse_start("20231215T120000"), Some(NOON_2023_12_15));
}

#[test]
fn parses_bare_date_as_midnight_utc() {
    assert_eq!(parse_start("20231215"), Some(MIDNIGHT_2023_12_15));
}

#[test]
fn strips_timezone_qualifier_before_colon() {
    assert_eq!(
        parse_start("TZID=America/New_York:20231215T120000"),
        Some(NOON_2023_12_15)
    );
}

#[test]
fn parses_epoch_day_zero() {
    assert_eq!(parse_start("19700101"), Some(0));
    assert_eq!(parse_start("19700101T000001"), Some(1));
}

#[test]
fn parses_leap_day() {
    assert_eq!(parse_start("20240229"), Some(1709164800));
}

#[test]
fn rejects_impossible_dates() {
    assert_eq!(parse_start("20230229"), None);
    assert_eq!(parse_start("20231301"), None);
    assert_eq!(parse_start("20231200"), None);
    assert_eq!(parse_start("20231215T240000"), None);
    assert_eq!(parse_start("20231215T126000"), None);
}

#[test]
fn century_years_follow_the_leap_rule() {
    assert_eq!(parse_start("19000229"), None);
    assert!(parse_start("20000229").is_some());
}

#[test]
fn dates_before_the_epoch_are_negative() {
    assert_eq!(parse_start("19691231"), Some(-DAY));
}

#[test]
fn rejects_unrecognizable_values() {
    assert_eq!(parse_start("not a date"), None);
    assert_eq!(parse_start(""), None);
    assert_eq!(parse_start("2023-12-15"), None);
    assert_eq!(parse_start("2023121"), None);
}

#[test]
fn window_is_inclusive_on_both_bounds() {
    let w = DateWindow { past_days: 1, future_days: 2 };
    let now: i64 = 1_000_000_000;
    assert!(in_window(now - DAY, now, &w));
    assert!(in_window(now + 2 * DAY, now, &w));
    assert!(!in_window(now - DAY - 1, now, &w));
    assert!(!in_window(now + 2 * DAY + 1, now, &w));
}

fn ev_with_start(v: &str) -> Event {
    let mut e = Event::new();
    e.set_field("DTSTART", v.to_string());
    e
}

#[test]
fn event_at_exact_bounds_is_kept() {
    let w = Some(DateWindow { past_days: 1, future_days: 1 });
    let now = NOON_2023_12_15;
    assert!(event_kept(&ev_with_start("20231214T120000Z"), &w, now));
    assert!(event_kept(&ev_with_start("20231216T120000Z"), &w, now));
}

#[test]
fn event_one_second_beyond_either_bound_is_dropped() {
    let w = Some(DateWindow { past_days: 1, future_days: 1 });
    let now = NOON_2023_12_15;
    assert!(!event_kept(&ev_with_start("20231214T115959Z"), &w, now));
    assert!(!event_kept(&ev_with_start("20231216T120001Z"), &w, now));
}

#[test]
fn unparseable_start_is_kept() {
    let w = Some(DateWindow { past_days: 1, future_days: 1 });
    assert!(event_kept(&ev_with_start("whenever"), &w, NOON_2023_12_15));
}

#[test]
fn missing_start_is_kept() {
    let w = Some(DateWindow { past_days: 0, future_days: 0 });
    assert!(event_kept(&Event::new(), &w, NOON_2023_12_15));
}

#[test]
fn no_window_keeps_everything() {
    assert!(event_kept(&ev_with_start("19700101"), &None, NOON_2023_12_15));
}
