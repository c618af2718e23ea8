use calmerge::event::Event;
use calmerge::json::json_members;

fn pairs(v: &Vec<(String, String)>) -> Vec<(&str, &str)> {
    v.iter().map(|kv| (kv.0.as_str(), kv.1.as_str())).collect()
}

#[test]
fn json_members_carry_title_start_end_then_all_fields() {
    let mut e = Event::new();
    e.set_field("SUMMARY", "Team sync".to_string());
    e.set_field("DTSTART", "20231215T120000Z".to_string());
    e.set_field("DTEND", "20231215T130000Z".to_string());
    e.set_field("LOCATION", "Hall".to_string());
    let got = json_members(&e);
    assert_eq!(
        pairs(&got),
        vec![
            ("title", "Team sync"),
            ("start", "20231215T120000Z"),
            ("end", "20231215T130000Z"),
            ("SUMMARY", "Team sync"),
            ("DTSTART", "20231215T120000Z"),
            ("DTEND", "20231215T130000Z"),
            ("LOCATION", "Hall"),
        ]
    );
}

#[test]
fn json_members_skip_absent_well_known_fields() {
    let mut e = Event::new();
    e.set_field("LOCATION", "Hall".to_string());
    let got = json_members(&e);
    assert_eq!(pairs(&got), vec![("LOCATION", "Hall")]);
}

#[test]
fn json_members_of_empty_event_are_empty() {
    let e = Event::new();
    assert_eq!(json_members(&e).len(), 0);
}
