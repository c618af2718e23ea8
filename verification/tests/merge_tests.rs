use calmerge::datefilter::DateWindow;
use calmerge::merge::{FetchOutcome, MergedCalendar, merge_results};
use calmerge::rules::{Action, ActionOp, Condition, ConditionOp, Rule};

const NOON_2023_12_15: i64 = 1702641600;

fn feed_text(summaries: &[&str]) -> String {
    let mut t = String::from("BEGIN:VCALENDAR\r\nVERSION:2.0\r\n");
    for s in summaries {
        t.push_str("BEGIN:VEVENT\r\nSUMMARY:");
        t.push_str(s);
        t.push_str("\r\nDTSTART:20231215T120000Z\r\nEND:VEVENT\r\n");
    }
    t.push_str("END:VCALENDAR\r\n");
    t
}

fn ok_outcome(id: &str, text: String) -> FetchOutcome {
    FetchOutcome { feed_id: id.to_string(), body: Ok(text) }
}

fn err_outcome(id: &str, msg: &str) -> FetchOutcome {
    FetchOutcome { feed_id: id.to_string(), body: Err(msg.to_string()) }
}

fn window() -> Option<DateWindow> {
    Some(DateWindow { past_days: 30, future_days: 365 })
}

#[test]
fn failed_feed_is_excluded_and_others_merge() {
    let results = vec![
        ok_outcome("alpha", feed_text(&["A1"])),
        err_outcome("broken", "connection refused"),
        ok_outcome("beta", feed_text(&["B1"])),
    ];
    let cal = merge_results(&results, &vec![], &window(), NOON_2023_12_15);
    assert_eq!(cal.event_count(), 2);
    assert_eq!(cal.events[0].get_field("SUMMARY").unwrap(), "A1");
    assert_eq!(cal.events[0].get_field("X-CALENDAR-SOURCE").unwrap(), "alpha");
    assert_eq!(cal.events[1].get_field("SUMMARY").unwrap(), "B1");
    assert_eq!(cal.events[1].get_field("X-CALENDAR-SOURCE").unwrap(), "beta");
}

#[test]
fn malformed_feed_is_excluded_and_others_merge() {
    let results = vec![
        ok_outcome("bad", "BEGIN:VEVENT\r\nNOCOLONHERE\r\nEND:VEVENT\r\n".to_string()),
        ok_outcome("good", feed_text(&["Fine"])),
    ];
    let cal = merge_results(&results, &vec![], &window(), NOON_2023_12_15);
    assert_eq!(cal.event_count(), 1);
    assert_eq!(cal.events[0].get_field("X-CALENDAR-SOURCE").unwrap(), "good");
}

#[test]
fn merged_calendar_always_carries_fixed_metadata() {
    let cal = merge_results(&vec![], &vec![], &window(), NOON_2023_12_15);
    assert_eq!(cal.event_count(), 0);
    assert_eq!(cal.name, "Merged Calendar");
    assert_eq!(cal.description, "Aggregated from multiple iCal feeds");

    let all_failed = vec![err_outcome("a", "down"), err_outcome("b", "timeout")];
    let cal2 = merge_results(&all_failed, &vec![], &window(), NOON_2023_12_15);
    assert_eq!(cal2.event_count(), 0);
    assert_eq!(cal2.name, "Merged Calendar");
}

#[test]
fn out_of_window_event_never_reaches_rules_or_output() {
    let mut text = String::from("BEGIN:VEVENT\r\nSUMMARY:Ancient\r\nDTSTART:19990101\r\nEND:VEVENT\r\n");
    text.push_str("BEGIN:VEVENT\r\nSUMMARY:Current\r\nDTSTART:20231215T120000Z\r\nEND:VEVENT\r\n");
    let rule = Rule {
        name: "mark".to_string(),
        conditions: vec![Condition {
            field: "SUMMARY".to_string(),
            op: ConditionOp::Contains,
            value: "".to_string(),
        }],
        actions: vec![Action {
            field: "MARKED".to_string(),
            op: ActionOp::Overwrite,
            value: "yes".to_string(),
        }],
    };
    let results = vec![ok_outcome("f", text)];
    let cal = merge_results(&results, &vec![rule], &window(), NOON_2023_12_15);
    assert_eq!(cal.event_count(), 1);
    assert_eq!(cal.events[0].get_field("SUMMARY").unwrap(), "Current");
    assert_eq!(cal.events[0].get_field("MARKED").unwrap(), "yes");
}

#[test]
fn rules_can_match_on_provenance() {
    let rule = Rule {
        name: "tag feed".to_string(),
        conditions: vec![Condition {
            field: "X-CALENDAR-SOURCE".to_string(),
            op: ConditionOp::Contains,
            value: "alpha".to_string(),
        }],
        actions: vec![Action {
            field: "SUMMARY".to_string(),
            op: ActionOp::Prepend,
            value: "[alpha] ".to_string(),
        }],
    };
    let results = vec![
        ok_outcome("alpha", feed_text(&["Standup"])),
        ok_outcome("beta", feed_text(&["Standup"])),
    ];
    let cal = merge_results(&results, &vec![rule], &window(), NOON_2023_12_15);
    assert_eq!(cal.events[0].get_field("SUMMARY").unwrap(), "[alpha] Standup");
    assert_eq!(cal.events[1].get_field("SUMMARY").unwrap(), "Standup");
}

#[test]
fn events_keep_feed_order_and_in_feed_order() {
    let results = vec![
        ok_outcome("one", feed_text(&["A", "B"])),
        ok_outcome("two", feed_text(&["C"])),
    ];
    let cal = merge_results(&results, &vec![], &window(), NOON_2023_12_15);
    let got: Vec<String> = (0..cal.event_count())
        .map(|i| cal.events[i].get_field("SUMMARY").unwrap().clone())
        .collect();
    assert_eq!(got, vec!["A".to_string(), "B".to_string(), "C".to_string()]);
}

#[test]
fn no_window_merges_everything() {
    let text = String::from("BEGIN:VEVENT\r\nSUMMARY:Ancient\r\nDTSTART:19990101\r\nEND:VEVENT\r\n");
    let cal = merge_results(&vec![ok_outcome("f", text)], &vec![], &None, NOON_2023_12_15);
    assert_eq!(cal.event_count(), 1);
}

#[test]
fn renders_empty_calendar_exactly() {
    let cal = merge_results(&vec![], &vec![], &None, NOON_2023_12_15);
    assert_eq!(
        cal.to_ics(),
        "BEGIN:VCALENDAR\r\nVERSION:2.0\r\nNAME:Merged Calendar\r\nDESCRIPTION:Aggregated from multiple iCal feeds\r\nEND:VCALENDAR\r\n"
    );
}

#[test]
fn renders_events_with_all_fields() {
    let text = String::from("BEGIN:VEVENT\r\nSUMMARY:Demo\r\nEND:VEVENT\r\n");
    let cal = merge_results(&vec![ok_outcome("src1", text)], &vec![], &None, NOON_2023_12_15);
    let ics = cal.to_ics();
    assert_eq!(
        ics,
        "BEGIN:VCALENDAR\r\nVERSION:2.0\r\nNAME:Merged Calendar\r\nDESCRIPTION:Aggregated from multiple iCal feeds\r\nBEGIN:VEVENT\r\nSUMMARY:Demo\r\nX-CALENDAR-SOURCE:src1\r\nEND:VEVENT\r\nEND:VCALENDAR\r\n"
    );
}

#[test]
fn rendered_calendar_parses_back() {
    let results = vec![ok_outcome("rt", feed_text(&["Round", "Trip"]))];
    let cal = merge_results(&results, &vec![], &None, NOON_2023_12_15);
    let reparsed = calmerge::ical::parse_events(&cal.to_ics()).unwrap();
    assert_eq!(reparsed.len(), 2);
    assert_eq!(reparsed[0].get_field("SUMMARY").unwrap(), "Round");
    assert_eq!(reparsed[0].get_field("X-CALENDAR-SOURCE").unwrap(), "rt");
}

#[test]
fn duplicate_copies_the_whole_calendar() {
    let results = vec![ok_outcome("d", feed_text(&["Copy"]))];
    let cal = merge_results(&results, &vec![], &None, NOON_2023_12_15);
    let copy: MergedCalendar = cal.duplicate();
    assert_eq!(copy.event_count(), 1);
    assert_eq!(copy.name, cal.name);
    assert_eq!(copy.events[0].get_field("SUMMARY").unwrap(), "Copy");
}
