use calmerge::event::Event;
use calmerge::rules::{Action, ActionOp, Condition, ConditionOp, Rule, apply_action, apply_rule,
    apply_rules, condition_matches, rule_matches};

fn ev(fields: &[(&str, &str)]) -> Event {
    let mut e = Event::new();
    for (k, v) in fields {
        e.set_field(k, v.to_string());
    }
    e
}

fn contains_cond(field: &str, value: &str) -> Condition {
    Condition { field: field.to_string(), op: ConditionOp::Contains, value: value.to_string() }
}

fn set_action(field: &str, value: &str) -> Action {
    Action { field: field.to_string(), op: ActionOp::Overwrite, value: value.to_string() }
}

fn prepend_action(field: &str, value: &str) -> Action {
    Action { field: field.to_string(), op: ActionOp::Prepend, value: value.to_string() }
}

#[test]
fn contains_exact_value_matches() {
    let e = ev(&[("SUMMARY", "x")]);
    assert!(condition_matches(&e, &contains_cond("SUMMARY", "x")));
}

#[test]
fn contains_substring_matches() {
    let e = ev(&[("SUMMARY", "abcxdef")]);
    assert!(condition_matches(&e, &contains_cond("SUMMARY", "x")));
}

#[test]
fn contains_empty_field_never_matches_nonempty_value() {
    let e = ev(&[("SUMMARY", "")]);
    assert!(!condition_matches(&e, &contains_cond("SUMMARY", "x")));
    let missing = ev(&[]);
    assert!(!condition_matches(&missing, &contains_cond("SUMMARY", "x")));
}

#[test]
fn contains_empty_value_matches_empty_field() {
    let e = ev(&[("SUMMARY", "")]);
    assert!(condition_matches(&e, &contains_cond("SUMMARY", "")));
    let missing = ev(&[]);
    assert!(condition_matches(&missing, &contains_cond("SUMMARY", "")));
}

#[test]
fn contains_is_case_sensitive() {
    let e = ev(&[("SUMMARY", "Meeting")]);
    assert!(!condition_matches(&e, &contains_cond("SUMMARY", "meeting")));
    assert!(condition_matches(&e, &contains_cond("SUMMARY", "Meet")));
}

#[test]
fn prepend_twice_is_not_idempotent() {
    let mut e = ev(&[("SUMMARY", "B")]);
    let a = prepend_action("SUMMARY", "A-");
    apply_action(&mut e, &a);
    assert_eq!(e.get_field("SUMMARY").unwrap(), "A-B");
    apply_action(&mut e, &a);
    assert_eq!(e.get_field("SUMMARY").unwrap(), "A-A-B");
}

#[test]
fn prepend_on_missing_field_treats_it_as_empty() {
    let mut e = ev(&[]);
    apply_action(&mut e, &prepend_action("LOCATION", "Room "));
    assert_eq!(e.get_field("LOCATION").unwrap(), "Room ");
}

#[test]
fn set_twice_is_idempotent() {
    let mut e = ev(&[("SUMMARY", "old")]);
    let a = set_action("SUMMARY", "new");
    apply_action(&mut e, &a);
    let len1 = e.len();
    assert_eq!(e.get_field("SUMMARY").unwrap(), "new");
    apply_action(&mut e, &a);
    assert_eq!(e.get_field("SUMMARY").unwrap(), "new");
    assert_eq!(e.len(), len1);
}

#[test]
fn rule_fires_only_when_all_conditions_hold() {
    let e = ev(&[("SUMMARY", "team sync"), ("LOCATION", "hall")]);
    let both = Rule {
        name: "both".to_string(),
        conditions: vec![contains_cond("SUMMARY", "sync"), contains_cond("LOCATION", "hall")],
        actions: vec![],
    };
    let one_fails = Rule {
        name: "one".to_string(),
        conditions: vec![contains_cond("SUMMARY", "sync"), contains_cond("LOCATION", "yard")],
        actions: vec![],
    };
    assert!(rule_matches(&e, &both));
    assert!(!rule_matches(&e, &one_fails));
}

#[test]
fn unmatched_rules_leave_event_unchanged() {
    let mut e = ev(&[("SUMMARY", "quiet"), ("LOCATION", "here")]);
    let rules = vec![
        Rule {
            name: "nope".to_string(),
            conditions: vec![contains_cond("SUMMARY", "loud")],
            actions: vec![set_action("SUMMARY", "changed")],
        },
        Rule {
            name: "nada".to_string(),
            conditions: vec![contains_cond("MISSING", "x")],
            actions: vec![prepend_action("LOCATION", "not ")],
        },
    ];
    apply_rules(&mut e, &rules);
    assert_eq!(e.get_field("SUMMARY").unwrap(), "quiet");
    assert_eq!(e.get_field("LOCATION").unwrap(), "here");
    assert_eq!(e.len(), 2);
}

#[test]
fn later_actions_see_earlier_results() {
    let mut e = ev(&[("SUMMARY", "base")]);
    let r = Rule {
        name: "chain".to_string(),
        conditions: vec![],
        actions: vec![set_action("SUMMARY", "mid"), prepend_action("SUMMARY", "pre-")],
    };
    apply_rule(&mut e, &r);
    assert_eq!(e.get_field("SUMMARY").unwrap(), "pre-mid");
}

#[test]
fn later_rule_fires_even_if_earlier_did_not() {
    let mut e = ev(&[("SUMMARY", "hit")]);
    let rules = vec![
        Rule {
            name: "miss".to_string(),
            conditions: vec![contains_cond("SUMMARY", "zzz")],
            actions: vec![set_action("SUMMARY", "wrong")],
        },
        Rule {
            name: "match".to_string(),
            conditions: vec![contains_cond("SUMMARY", "hit")],
            actions: vec![set_action("LOCATION", "set by rule")],
        },
    ];
    apply_rules(&mut e, &rules);
    assert_eq!(e.get_field("SUMMARY").unwrap(), "hit");
    assert_eq!(e.get_field("LOCATION").unwrap(), "set by rule");
}

#[test]
fn rule_with_no_conditions_always_fires() {
    let mut e = ev(&[]);
    let r = Rule {
        name: "always".to_string(),
        conditions: vec![],
        actions: vec![set_action("STATUS", "CONFIRMED")],
    };
    apply_rule(&mut e, &r);
    assert_eq!(e.get_field("STATUS").unwrap(), "CONFIRMED");
}

#[test]
fn set_field_keeps_position_and_order() {
    let mut e = ev(&[("A", "1"), ("B", "2"), ("C", "3")]);
    e.set_field("B", "two".to_string());
    let kv0 = e.field_at(0);
    assert_eq!(kv0.0, "A");
    let kv1 = e.field_at(1);
    assert_eq!(kv1.0, "B");
    assert_eq!(kv1.1, "two");
    let kv2 = e.field_at(2);
    assert_eq!(kv2.0, "C");
    assert_eq!(e.len(), 3);
}
