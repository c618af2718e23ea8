//! The JSON view of an event: which members each event object carries,
//! and in what order.
//!
//! An event becomes an object holding `title`, `start` and `end` drawn
//! from its summary and start/end fields (each present only when the
//! field is), followed by every field of the event under its own key,
//! in insertion order. Encoding the pairs as JSON text is left to the
//! serving layer.

use vstd::prelude::*;
use crate::event::{Event, FieldSeq, field_value, has_field};

verus! {

/// The members of one event's JSON object, in order.
pub open spec fn json_members_spec(m: FieldSeq) -> Seq<(Seq<char>, Seq<char>)> {
    let with_title = if has_field(m, "SUMMARY"@) {
        seq![("title"@, field_value(m, "SUMMARY"@))]
    } else {
        Seq::empty()
    };
    let with_start = if has_field(m, "DTSTART"@) {
        with_title.push(("start"@, field_value(m, "DTSTART"@)))
    } else {
        with_title
    };
    let with_end = if has_field(m, "DTEND"@) {
        with_start.push(("end"@, field_value(m, "DTEND"@)))
    } else {
        with_start
    };
    with_end + m
}

/// The key-value pairs of one event's JSON object.
pub fn json_members(e: &Event) -> (r: Vec<(String, String)>)
    requires
        e.wf(),
    ensures
        r@.map_values(|kv: (String, String)| (kv.0@, kv.1@)) == json_members_spec(e@),
{
    let mut out: Vec<(String, String)> = Vec::new();
    match e.get_field("SUMMARY") {
        Some(v) => out.push((String::from_str("title"), v.clone())),
        None => (),
    }
    match e.get_field("DTSTART") {
        Some(v) => out.push((String::from_str("start"), v.clone())),
        None => (),
    }
    match e.get_field("DTEND") {
        Some(v) => out.push((String::from_str("end"), v.clone())),
        None => (),
    }
    let ghost head = out@.map_values(|kv: (String, String)| (kv.0@, kv.1@));
    proof {
        assert(head =~= json_members_spec(e@).take(head.len() as int));
    }
    let n = e.len();
    let mut i: usize = 0;
    while i < n
        invariant
            i <= n,
            n == e@.len(),
            out@.map_values(|kv: (String, String)| (kv.0@, kv.1@)) == head + e@.take(i as int),
        decreases n - i,
    {
        let kv = e.field_at(i);
        let ghost k0 = kv.0@;
        let ghost v0 = kv.1@;
        let ghost pre_vec = out@;
        let ghost pre_map = out@.map_values(|p: (String, String)| (p.0@, p.1@));
        out.push((kv.0.clone(), kv.1.clone()));
        proof {
            assert(out@ == pre_vec.push((out@.last().0, out@.last().1)));
            assert(out@.last().0@ == k0 && out@.last().1@ == v0);
            assert(out@.map_values(|p: (String, String)| (p.0@, p.1@)) =~= pre_map.push(
                (k0, v0),
            ));
            assert((k0, v0) == e@[i as int]) by {
                assert(e@[i as int].0 == k0 && e@[i as int].1 == v0);
            }
            assert(e@.take(i + 1) =~= e@.take(i as int).push(e@[i as int]));
            assert(pre_map.push(e@[i as int]) =~= head + e@.take(i + 1));
        }
        i = i + 1;
    }
    proof {
        assert(e@.take(n as int) =~= e@);
        assert(head + e@ =~= json_members_spec(e@));
    }
    out
}

} // verus!
