use calmerge::cache::SnapshotCache;
use calmerge::merge::merge_results;
use calmerge::sched::{Phase, next_phase};

#[test]
fn fresh_cache_is_not_ready() {
    let cache = SnapshotCache::new();
    assert!(!cache.is_ready());
    assert!(cache.read().is_none());
}

#[test]
fn first_publish_of_empty_cycle_reads_as_valid_empty_calendar() {
    let mut cache = SnapshotCache::new();
    let empty_cycle = merge_results(&vec![], &vec![], &None, 0);
    cache.publish(empty_cycle);
    assert!(cache.is_ready());
    let snap = cache.read().unwrap();
    assert_eq!(snap.event_count(), 0);
    assert_eq!(snap.name, "Merged Calendar");
}

#[test]
fn read_returns_the_latest_published_calendar_whole() {
    let mut cache = SnapshotCache::new();
    let first = merge_results(&vec![], &vec![], &None, 0);
    cache.publish(first);
    let with_event = {
        let text = "BEGIN:VEVENT\r\nSUMMARY:New\r\nEND:VEVENT\r\n".to_string();
        let results = vec![calmerge::merge::FetchOutcome {
            feed_id: "f".to_string(),
            body: Ok(text),
        }];
        merge_results(&results, &vec![], &None, 0)
    };
    cache.publish(with_event);
    let snap = cache.read().unwrap();
    assert_eq!(snap.event_count(), 1);
    assert_eq!(snap.events[0].get_field("SUMMARY").unwrap(), "New");
    assert_eq!(snap.events[0].get_field("X-CALENDAR-SOURCE").unwrap(), "f");
}

#[test]
fn phases_cycle_without_a_terminal_state() {
    assert_eq!(next_phase(Phase::Idle), Phase::Fetching);
    assert_eq!(next_phase(Phase::Fetching), Phase::Merging);
    assert_eq!(next_phase(Phase::Merging), Phase::Publishing);
    assert_eq!(next_phase(Phase::Publishing), Phase::Idle);
    let mut p = Phase::Idle;
    for _ in 0..4 {
        p = next_phase(p);
    }
    assert_eq!(p, Phase::Idle);
}

#[test]
fn config_defaults_match_the_documented_values() {
    assert_eq!(calmerge::default_port(), 3000);
    assert_eq!(calmerge::default_refresh_interval(), 300);
    assert_eq!(calmerge::default_days_past(), 30);
    assert_eq!(calmerge::default_days_future(), 365);
}
