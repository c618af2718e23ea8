//! The calendar merger: one refresh cycle's fetch outcomes in, one
//! merged calendar out.
//!
//! Each successfully fetched feed is parsed; a malformed feed, like a
//! failed fetch, is skipped whole and never aborts the cycle. Every
//! parsed event first passes the date filter; an event the filter
//! drops never reaches the rule engine or the output. A kept event is
//! stamped with its feed's id under the provenance key, transformed by
//! every configured rule, and appended. Events keep the order of their
//! feeds and, within a feed, the order the feed listed them.

use vstd::prelude::*;
use crate::datefilter::{DateWindow, event_kept, kept_spec};
use crate::event::{Event, FieldSeq, field_value, lemma_store_field, store_field, wf_fields};
use crate::ical::{parse_events, parse_events_spec, render_calendar, render_calendar_exec};
use crate::rules::{Rule, apply_rules, apply_rules_spec, conditions_hold, lemma_no_rule_fires};

verus! {

/// The key under which every merged event records which feed it came
/// from.
pub open spec fn provenance_key() -> Seq<char> {
    "X-CALENDAR-SOURCE"@
}

/// One event's way through the pipeline once it is kept: provenance
/// stamped first (so rules can match on it), then every rule.
pub open spec fn process_event_spec(m: FieldSeq, fid: Seq<char>, rs: Seq<Rule>) -> FieldSeq {
    apply_rules_spec(store_field(m, provenance_key(), fid), rs)
}

/// Law: an event that no rule matches leaves the pipeline with all its
/// fields as they were, except for the added provenance tag. The tag is
/// stamped before rules run, so "no rule matches" is judged of the
/// stamped event.
pub proof fn lemma_unmatched_event_keeps_fields(m: FieldSeq, fid: Seq<char>, rs: Seq<Rule>)
    requires
        wf_fields(m),
        forall|i: int|
            0 <= i < rs.len() ==> !conditions_hold(
                store_field(m, provenance_key(), fid),
                #[trigger] rs[i].conditions@,
            ),
    ensures
        process_event_spec(m, fid, rs) == store_field(m, provenance_key(), fid),
        field_value(process_event_spec(m, fid, rs), provenance_key()) == fid,
        forall|k: Seq<char>|
            k != provenance_key() ==> field_value(process_event_spec(m, fid, rs), k)
                == field_value(m, k),
{
    lemma_store_field(m, provenance_key(), fid);
    lemma_no_rule_fires(store_field(m, provenance_key(), fid), rs);
}

/// The events one parsed feed contributes: those the date filter
/// keeps, processed, in the order the feed listed them.
pub open spec fn feed_events_spec(
    evs: Seq<FieldSeq>,
    fid: Seq<char>,
    rs: Seq<Rule>,
    w: Option<DateWindow>,
    now: int,
) -> Seq<FieldSeq>
    decreases evs.len(),
{
    if evs.len() == 0 {
        Seq::empty()
    } else {
        let rest = feed_events_spec(evs.drop_last(), fid, rs, w, now);
        if kept_spec(evs.last(), w, now) {
            rest.push(process_event_spec(evs.last(), fid, rs))
        } else {
            rest
        }
    }
}

/// One feed's fetch outcome, as the fetcher hands it to the merger:
/// the feed's id and either the raw calendar text or an error message.
pub struct FetchOutcome {
    pub feed_id: String,
    pub body: Result<String, String>,
}

/// The events one fetch outcome contributes: none for a failed fetch
/// or malformed text.
pub open spec fn outcome_events_spec(
    o: FetchOutcome,
    rs: Seq<Rule>,
    w: Option<DateWindow>,
    now: int,
) -> Seq<FieldSeq> {
    match o.body {
        Ok(text) => match parse_events_spec(text@) {
            Some(evs) => feed_events_spec(evs, o.feed_id@, rs, w, now),
            None => Seq::empty(),
        },
        Err(_) => Seq::empty(),
    }
}

/// All events of one cycle, feeds in listed order.
pub open spec fn merged_events_spec(
    results: Seq<FetchOutcome>,
    rs: Seq<Rule>,
    w: Option<DateWindow>,
    now: int,
) -> Seq<FieldSeq>
    decreases results.len(),
{
    if results.len() == 0 {
        Seq::empty()
    } else {
        merged_events_spec(results.drop_last(), rs, w, now) + outcome_events_spec(
            results.last(),
            rs,
            w,
            now,
        )
    }
}

/// The merged calendar of one cycle: fixed metadata and the events in
/// merge order. A value, never mutated after it is built.
#[derive(Clone)]
pub struct MergedCalendar {
    pub name: String,
    pub description: String,
    pub events: Vec<Event>,
}

impl MergedCalendar {
    /// The model of the calendar's events.
    pub open spec fn events_view(&self) -> Seq<FieldSeq> {
        self.events@.map_values(|e: Event| e@)
    }

    /// Every event keeps the unique-keys invariant.
    pub open spec fn wf(&self) -> bool {
        forall|i: int| 0 <= i < self.events@.len() ==> (#[trigger] self.events@[i]).wf()
    }

    /// How many events the calendar holds.
    pub fn event_count(&self) -> (n: usize)
        ensures
            n == self.events_view().len(),
    {
        self.events.len()
    }

    /// The calendar in wire form.
    pub fn to_ics(&self) -> (r: String)
        ensures
            r@ == render_calendar(self.name@, self.description@, self.events_view()),
    {
        render_calendar_exec(self.name.as_str(), self.description.as_str(), &self.events)
    }

    /// A copy with the same model.
    pub fn duplicate(&self) -> (r: MergedCalendar)
        requires
            self.wf(),
        ensures
            r.wf(),
            r.name@ == self.name@,
            r.description@ == self.description@,
            r.events_view() == self.events_view(),
    {
        let n = self.events.len();
        let mut events: Vec<Event> = Vec::new();
        let mut i: usize = 0;
        while i < n
            invariant
                i <= n,
                n == self.events@.len(),
                events@.len() == i,
                self.wf(),
                forall|j: int| 0 <= j < i ==> (#[trigger] events@[j])@ == self.events@[j]@,
                forall|j: int| 0 <= j < i ==> (#[trigger] events@[j]).wf(),
            decreases n - i,
        {
            events.push(self.events[i].duplicate());
            i = i + 1;
        }
        let r = MergedCalendar {
            name: self.name.clone(),
            description: self.description.clone(),
            events,
        };
        proof {
            assert(r.events_view() =~= self.events_view());
        }
        r
    }
}

/// Stamps the feed id under the provenance key, then applies every
/// rule.
pub fn process_event(e: &mut Event, feed_id: &str, rs: &Vec<Rule>)
    requires
        old(e).wf(),
    ensures
        final(e).wf(),
        final(e)@ == process_event_spec(old(e)@, feed_id@, rs@),
{
    e.set_field("X-CALENDAR-SOURCE", String::from_str(feed_id));
    apply_rules(e, rs);
}

/// Parses one feed's text and appends its surviving events to the
/// merge. Malformed text leaves the merge untouched and reports
/// failure, so the caller can note the feed was skipped.
pub fn merge_feed(
    text: &str,
    feed_id: &str,
    rs: &Vec<Rule>,
    w: &Option<DateWindow>,
    now: i64,
    out: &mut Vec<Event>,
) -> (ok: bool)
    requires
        forall|i: int| 0 <= i < old(out)@.len() ==> (#[trigger] old(out)@[i]).wf(),
    ensures
        forall|i: int| 0 <= i < final(out)@.len() ==> (#[trigger] final(out)@[i]).wf(),
        match parse_events_spec(text@) {
            Some(evs) => ok && final(out)@.map_values(|e: Event| e@) == old(out)@.map_values(
                |e: Event| e@,
            ) + feed_events_spec(evs, feed_id@, rs@, *w, now as int),
            None => !ok && final(out)@ == old(out)@,
        },
{
    match parse_events(text) {
        None => false,
        Some(evs) => {
            let ghost evs_views = evs@.map_values(|e: Event| e@);
            let ghost base = old(out)@.map_values(|e: Event| e@);
            let n = evs.len();
            let mut i: usize = 0;
            while i < n
                invariant
                    i <= n,
                    n == evs@.len(),
                    evs_views == evs@.map_values(|e: Event| e@),
                    parse_events_spec(text@) == Some(evs_views),
                    forall|k: int| 0 <= k < evs@.len() ==> (#[trigger] evs@[k]).wf(),
                    forall|k: int| 0 <= k < out@.len() ==> (#[trigger] out@[k]).wf(),
                    out@.map_values(|e: Event| e@) == base + feed_events_spec(
                        evs_views.take(i as int),
                        feed_id@,
                        rs@,
                        *w,
                        now as int,
                    ),
                decreases n - i,
            {
                proof {
                    assert(evs_views.take(i + 1).drop_last() =~= evs_views.take(i as int));
                    assert(evs_views.take(i + 1).last() == evs_views[i as int]);
                    assert(evs_views[i as int] == evs@[i as int]@);
                }
                if event_kept(&evs[i], w, now) {
                    let mut ev = evs[i].duplicate();
                    process_event(&mut ev, feed_id, rs);
                    let ghost pre_vec = out@;
                    let ghost pre_map = out@.map_values(|e: Event| e@);
                    out.push(ev);
                    proof {
                        let f = feed_events_spec(
                            evs_views.take(i as int),
                            feed_id@,
                            rs@,
                            *w,
                            now as int,
                        );
                        let g = feed_events_spec(
                            evs_views.take(i + 1),
                            feed_id@,
                            rs@,
                            *w,
                            now as int,
                        );
                        let pe = process_event_spec(evs_views[i as int], feed_id@, rs@);
                        assert(kept_spec(evs_views[i as int], *w, now as int));
                        assert(g == f.push(pe));
                        assert(ev@ == pe);
                        assert(out@ == pre_vec.push(ev));
                        assert(out@.map_values(|e: Event| e@) =~= pre_map.push(ev@));
                        assert(pre_map == base + f);
                        assert((base + f).push(pe) =~= base + f.push(pe));
                        assert(out@.map_values(|e: Event| e@) =~= base + g);
                    }
                } else {
                    proof {
                        assert(out@.map_values(|e: Event| e@) =~= base + feed_events_spec(
                            evs_views.take(i + 1),
                            feed_id@,
                            rs@,
                            *w,
                            now as int,
                        ));
                    }
                }
                i = i + 1;
            }
            proof {
                assert(evs_views.take(n as int) =~= evs_views);
            }
            true
        },
    }
}

/// Builds the cycle's merged calendar from every feed's fetch outcome.
/// Failed fetches and malformed feeds contribute nothing; the calendar
/// always carries the fixed name and description, even when every feed
/// failed.
pub fn merge_results(
    results: &Vec<FetchOutcome>,
    rs: &Vec<Rule>,
    w: &Option<DateWindow>,
    now: i64,
) -> (c: MergedCalendar)
    ensures
        c.wf(),
        c.name@ == "Merged Calendar"@,
        c.description@ == "Aggregated from multiple iCal feeds"@,
        c.events_view() == merged_events_spec(results@, rs@, *w, now as int),
{
    let mut events: Vec<Event> = Vec::new();
    let n = results.len();
    let mut i: usize = 0;
    proof {
        assert(events@.map_values(|e: Event| e@) =~= merged_events_spec(
            results@.take(0),
            rs@,
            *w,
            now as int,
        ));
    }
    while i < n
        invariant
            i <= n,
            n == results@.len(),
            forall|k: int| 0 <= k < events@.len() ==> (#[trigger] events@[k]).wf(),
            events@.map_values(|e: Event| e@) == merged_events_spec(
                results@.take(i as int),
                rs@,
                *w,
                now as int,
            ),
        decreases n - i,
    {
        proof {
            assert(results@.take(i + 1).drop_last() =~= results@.take(i as int));
            assert(results@.take(i + 1).last() == results@[i as int]);
        }
        match &results[i].body {
            Ok(text) => {
                let _merged_ok = merge_feed(
                    text.as_str(),
                    results[i].feed_id.as_str(),
                    rs,
                    w,
                    now,
                    &mut events,
                );
                proof {
                    assert(events@.map_values(|e: Event| e@) =~= merged_events_spec(
                        results@.take(i + 1),
                        rs@,
                        *w,
                        now as int,
                    ));
                }
            },
            Err(_) => {
                proof {
                    assert(events@.map_values(|e: Event| e@) =~= merged_events_spec(
                        results@.take(i + 1),
                        rs@,
                        *w,
                        now as int,
                    ));
                }
            },
        }
        i = i + 1;
    }
    proof {
        assert(results@.take(n as int) =~= results@);
    }
    MergedCalendar {
        name: String::from_str("Merged Calendar"),
        description: String::from_str("Aggregated from multiple iCal feeds"),
        events,
    }
}

} // verus!
