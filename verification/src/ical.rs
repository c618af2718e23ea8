//! The calendar wire format: parsing raw feed text into events and
//! rendering a merged calendar back into text.
//!
//! Parsing works line by line. Physical lines are separated by `\n`
//! with an optional `\r` before it; a line that begins with a space or
//! tab continues the previous one (folding). Events lie between
//! `BEGIN:VEVENT` and `END:VEVENT`; each property line is `KEY:VALUE`,
//! with anything between `;` and `:` (parameters) folded into the key's
//! end, and nested components inside an event are skipped whole. A
//! property line without a `:`, or an event still open at the end of
//! the text, makes the whole feed malformed.

use vstd::prelude::*;
use crate::event::{Event, FieldSeq, store_field};
use crate::text::{after_colon, contains_colon, find_colon, lemma_after_colon, str_eq};

verus! {

/// The position of the first `\n` in `s`, or -1.
pub open spec fn find_newline(s: Seq<char>) -> int
    decreases s.len(),
{
    if s.len() == 0 {
        -1
    } else if s[0] == '\n' {
        0
    } else {
        let r = find_newline(s.drop_first());
        if r == -1 {
            -1
        } else {
            r + 1
        }
    }
}

/// A physical line with a trailing `\r` removed.
pub open spec fn strip_cr(l: Seq<char>) -> Seq<char> {
    if l.len() > 0 && l.last() == '\r' {
        l.drop_last()
    } else {
        l
    }
}

/// `find_newline` finds the first `\n`.
proof fn lemma_find_newline_at(s: Seq<char>, i: int)
    requires
        0 <= i <= s.len(),
        forall|j: int| 0 <= j < i ==> s[j] != '\n',
        i < s.len() ==> s[i] == '\n',
    ensures
        find_newline(s) == if i < s.len() {
            i
        } else {
            -1
        },
    decreases i,
{
    if s.len() == 0 {
    } else if i == 0 {
    } else {
        assert(forall|j: int| 0 <= j < i - 1 ==> s.drop_first()[j] != '\n');
        lemma_find_newline_at(s.drop_first(), i - 1);
    }
}

/// The physical lines of the text, `\r` stripped. Text with no final
/// newline still yields its last line; a final newline yields a last
/// empty line, which later stages ignore.
pub open spec fn split_lines(s: Seq<char>) -> Seq<Seq<char>>
    decreases s.len(),
{
    let i = find_newline(s);
    if i == -1 {
        seq![strip_cr(s)]
    } else if 0 <= i < s.len() {
        seq![strip_cr(s.take(i))] + split_lines(s.skip(i + 1))
    } else {
        seq![]
    }
}

/// The logical lines: a line beginning with a space or tab is glued
/// (without that first character) onto the end of the previous line.
pub open spec fn unfold_lines(ls: Seq<Seq<char>>) -> Seq<Seq<char>>
    decreases ls.len(),
{
    if ls.len() == 0 {
        seq![]
    } else {
        let rest = unfold_lines(ls.drop_last());
        let l = ls.last();
        if l.len() > 0 && (l[0] == ' ' || l[0] == '\t') {
            if rest.len() > 0 {
                rest.update(rest.len() - 1, rest.last() + l.drop_first())
            } else {
                rest.push(l.drop_first())
            }
        } else {
            rest.push(l)
        }
    }
}

/// Splits the raw text into physical lines.
fn split_lines_exec(s: &str) -> (r: Vec<String>)
    ensures
        r@.map_values(|l: String| l@) == split_lines(s@),
{
    let n = s.unicode_len();
    let mut out: Vec<String> = Vec::new();
    let mut start: usize = 0;
    let mut fin: bool = false;
    proof {
        assert(s@.skip(0) =~= s@);
        assert(out@.map_values(|l: String| l@) + split_lines(s@) =~= split_lines(s@));
    }
    while !fin
        invariant
            start <= n,
            n == s@.len(),
            fin ==> split_lines(s@) =~= out@.map_values(|l: String| l@),
            !fin ==> split_lines(s@) =~= out@.map_values(|l: String| l@) + split_lines(
                s@.skip(start as int),
            ),
        decreases n - start + (if fin {
            0int
        } else {
            1int
        }),
    {
        let ghost rest = s@.skip(start as int);
        let mut i: usize = start;
        while i < n && s.get_char(i) != '\n'
            invariant
                start <= i <= n,
                n == s@.len(),
                forall|j: int| start <= j < i ==> s@[j] != '\n',
            decreases n - i,
        {
            i = i + 1;
        }
        proof {
            assert(forall|j: int| 0 <= j < i - start ==> rest[j] != '\n');
            if i < n {
                assert(rest[i - start] == s@[i as int]);
            }
            lemma_find_newline_at(rest, i - start);
        }
        let end2: usize = if i > start && s.get_char(i - 1) == '\r' {
            i - 1
        } else {
            i
        };
        let line = s.substring_char(start, end2);
        proof {
            if i < n {
                assert(rest.take(i - start) =~= s@.subrange(start as int, i as int));
                assert(rest.skip(i - start + 1) =~= s@.skip(i + 1));
            } else {
                assert(rest =~= s@.subrange(start as int, i as int));
            }
            let phys = s@.subrange(start as int, i as int);
            if i > start && s@[i - 1] == '\r' {
                assert(phys.last() == s@[i - 1]);
                assert(phys.drop_last() =~= s@.subrange(start as int, end2 as int));
            }
            assert(line@ == strip_cr(phys));
        }
        out.push(String::from_str(line));
        if i < n {
            start = i + 1;
            proof {
                assert(split_lines(s@) =~= out@.map_values(|l: String| l@) + split_lines(
                    s@.skip(start as int),
                ));
            }
        } else {
            fin = true;
            proof {
                assert(split_lines(s@) =~= out@.map_values(|l: String| l@));
            }
        }
    }
    out
}

/// Glues folded continuation lines onto their previous line.
fn unfold_exec(lines: Vec<String>) -> (r: Vec<String>)
    ensures
        r@.map_values(|l: String| l@) == unfold_lines(lines@.map_values(|l: String| l@)),
{
    let n = lines.len();
    let mut out: Vec<String> = Vec::new();
    let mut i: usize = 0;
    while i < n
        invariant
            i <= n,
            n == lines@.len(),
            out@.map_values(|l: String| l@) == unfold_lines(
                lines@.map_values(|l: String| l@).take(i as int),
            ),
        decreases n - i,
    {
        let ghost views = lines@.map_values(|l: String| l@);
        proof {
            assert(views.take(i + 1).drop_last() =~= views.take(i as int));
            assert(views.take(i + 1).last() == views[i as int]);
        }
        let l = &lines[i];
        let ll = l.as_str().unicode_len();
        if ll > 0 && (l.as_str().get_char(0) == ' ' || l.as_str().get_char(0) == '\t') {
            let stripped = l.as_str().substring_char(1, ll);
            if out.len() > 0 {
                let mut lastline = match out.pop() {
                    Some(x) => x,
                    None => String::new(),
                };
                lastline.append(stripped);
                out.push(lastline);
                proof {
                    let prev = unfold_lines(views.take(i as int));
                    assert(out@.map_values(|x: String| x@) =~= prev.update(
                        prev.len() - 1,
                        prev.last() + views[i as int].drop_first(),
                    ));
                }
            } else {
                out.push(String::from_str(stripped));
                proof {
                    assert(out@.map_values(|x: String| x@) =~= unfold_lines(views.take(i + 1)));
                }
            }
        } else {
            out.push(l.clone());
            proof {
                assert(out@.map_values(|x: String| x@) =~= unfold_lines(views.take(i + 1)));
            }
        }
        i = i + 1;
    }
    proof {
        assert(lines@.map_values(|l: String| l@).take(n as int) =~= lines@.map_values(
            |l: String| l@,
        ));
    }
    out
}

/// The property key: the line up to the first `;` or `:`.
pub open spec fn line_key(l: Seq<char>) -> Seq<char>
    decreases l.len(),
{
    if l.len() == 0 {
        l
    } else if l[0] == ';' || l[0] == ':' {
        Seq::empty()
    } else {
        seq![l[0]] + line_key(l.drop_first())
    }
}

/// The property value: the line past the first `:`.
pub open spec fn line_value(l: Seq<char>) -> Seq<char> {
    after_colon(l)
}

/// `line_key` is the prefix before the first separator.
proof fn lemma_line_key_at(l: Seq<char>, i: int)
    requires
        0 <= i <= l.len(),
        forall|j: int| 0 <= j < i ==> l[j] != ';' && l[j] != ':',
        i < l.len() ==> (l[i] == ';' || l[i] == ':'),
    ensures
        line_key(l) == l.take(i),
    decreases i,
{
    if l.len() == 0 {
        assert(l.take(i) =~= l);
    } else if i == 0 {
        assert(l.take(0) =~= Seq::<char>::empty());
    } else {
        assert(forall|j: int| 0 <= j < i - 1 ==> l.drop_first()[j] != ';' && l.drop_first()[j]
            != ':');
        lemma_line_key_at(l.drop_first(), i - 1);
        assert(seq![l[0]] + l.drop_first().take(i - 1) =~= l.take(i));
    }
}

/// The position of the first `;` or `:` of `s`, if any.
fn find_sep(s: &str) -> (r: Option<usize>)
    ensures
        match r {
            Some(i) => i < s@.len() && (s@[i as int] == ';' || s@[i as int] == ':') && (forall|
                j: int,
            |
                0 <= j < i ==> s@[j] != ';' && s@[j] != ':'),
            None => forall|j: int| 0 <= j < s@.len() ==> s@[j] != ';' && s@[j] != ':',
        },
{
    let n = s.unicode_len();
    let mut i: usize = 0;
    while i < n
        invariant
            i <= n,
            n == s@.len(),
            forall|j: int| 0 <= j < i ==> s@[j] != ';' && s@[j] != ':',
        decreases n - i,
    {
        let c = s.get_char(i);
        if c == ';' || c == ':' {
            return Some(i);
        }
        i = i + 1;
    }
    None
}

/// The key of a property line, as a fresh string.
fn line_key_exec(l: &str) -> (r: String)
    ensures
        r@ == line_key(l@),
{
    let n = l.unicode_len();
    match find_sep(l) {
        Some(i) => {
            proof {
                lemma_line_key_at(l@, i as int);
                assert(l@.take(i as int) =~= l@.subrange(0, i as int));
            }
            String::from_str(l.substring_char(0, i))
        },
        None => {
            proof {
                lemma_line_key_at(l@, n as int);
                assert(l@.take(n as int) =~= l@);
            }
            String::from_str(l)
        },
    }
}

/// The value of a property line (past its first `:`), as a fresh string.
fn line_value_exec(l: &str) -> (r: Option<String>)
    ensures
        match r {
            Some(v) => contains_colon(l@) && v@ == line_value(l@),
            None => !contains_colon(l@),
        },
{
    let n = l.unicode_len();
    match find_colon(l) {
        Some(i) => {
            proof {
                lemma_after_colon(l@, i as int);
                assert(l@.skip(i + 1) =~= l@.subrange(i + 1, n as int));
            }
            Some(String::from_str(l.substring_char(i + 1, n)))
        },
        None => None,
    }
}

/// The parser's state between lines: whether the feed has turned out
/// malformed, the fields of the event being collected (with the depth
/// of any nested component being skipped), and the events finished so
/// far.
pub struct ParseState {
    pub failed: bool,
    pub cur: Option<FieldSeq>,
    pub depth: int,
    pub done: Seq<FieldSeq>,
}

/// The state before any line.
pub open spec fn parse_init() -> ParseState {
    ParseState { failed: false, cur: None, depth: 0, done: Seq::empty() }
}

/// One line's effect on the parser state.
pub open spec fn parse_step(st: ParseState, l: Seq<char>) -> ParseState {
    if st.failed {
        st
    } else if l.len() == 0 {
        st
    } else {
        match st.cur {
            None => if l == "BEGIN:VEVENT"@ {
                ParseState { failed: false, cur: Some(Seq::empty()), depth: 0, done: st.done }
            } else {
                st
            },
            Some(m) => if st.depth > 0 {
                if line_key(l) == "BEGIN"@ {
                    ParseState { failed: false, cur: Some(m), depth: st.depth + 1, done: st.done }
                } else if line_key(l) == "END"@ {
                    ParseState { failed: false, cur: Some(m), depth: st.depth - 1, done: st.done }
                } else {
                    st
                }
            } else if l == "END:VEVENT"@ {
                ParseState { failed: false, cur: None, depth: 0, done: st.done.push(m) }
            } else if line_key(l) == "BEGIN"@ {
                ParseState { failed: false, cur: Some(m), depth: 1, done: st.done }
            } else if line_key(l) == "END"@ {
                ParseState { failed: true, cur: Some(m), depth: 0, done: st.done }
            } else if !contains_colon(l) {
                ParseState { failed: true, cur: Some(m), depth: 0, done: st.done }
            } else {
                ParseState {
                    failed: false,
                    cur: Some(store_field(m, line_key(l), line_value(l))),
                    depth: 0,
                    done: st.done,
                }
            },
        }
    }
}

/// The state after a whole sequence of lines.
pub open spec fn parse_fold(st: ParseState, ls: Seq<Seq<char>>) -> ParseState
    decreases ls.len(),
{
    if ls.len() == 0 {
        st
    } else {
        parse_fold(parse_step(st, ls[0]), ls.drop_first())
    }
}

/// Folding one more line at the end steps the folded state once.
proof fn lemma_parse_fold_snoc(st: ParseState, ls: Seq<Seq<char>>, l: Seq<char>)
    ensures
        parse_fold(st, ls.push(l)) == parse_step(parse_fold(st, ls), l),
    decreases ls.len(),
{
    let p = ls.push(l);
    if ls.len() == 0 {
        assert(p[0] == l);
        assert(p.drop_first() =~= Seq::<Seq<char>>::empty());
        assert(parse_fold(st, p) == parse_fold(parse_step(st, p[0]), p.drop_first()));
        assert(parse_fold(parse_step(st, l), p.drop_first()) == parse_step(st, l));
    } else {
        assert(p[0] == ls[0]);
        assert(p.drop_first() =~= ls.drop_first().push(l));
        lemma_parse_fold_snoc(parse_step(st, ls[0]), ls.drop_first(), l);
        assert(parse_fold(st, p) == parse_fold(parse_step(st, p[0]), p.drop_first()));
        assert(parse_fold(st, ls) == parse_fold(parse_step(st, ls[0]), ls.drop_first()));
    }
}

/// A failed state absorbs every further line.
proof fn lemma_parse_fold_failed(st: ParseState, ls: Seq<Seq<char>>)
    requires
        st.failed,
    ensures
        parse_fold(st, ls) == st,
    decreases ls.len(),
{
    if ls.len() > 0 {
        lemma_parse_fold_failed(st, ls.drop_first());
    }
}

/// The events a raw feed text denotes, or nothing when the text is
/// malformed: a property line without `:` inside an event, a stray
/// `END` line, or an event left open at the end of the text.
pub open spec fn parse_events_spec(text: Seq<char>) -> Option<Seq<FieldSeq>> {
    let st = parse_fold(parse_init(), unfold_lines(split_lines(text)));
    if st.failed || st.cur is Some {
        None
    } else {
        Some(st.done)
    }
}

/// Runs the parser state machine over the logical lines.
fn assemble(lines: &Vec<String>) -> (r: Option<Vec<Event>>)
    ensures
        ({
            let st = parse_fold(parse_init(), lines@.map_values(|l: String| l@));
            match r {
                Some(evs) => !st.failed && st.cur is None && evs@.map_values(|e: Event| e@)
                    == st.done && (forall|i: int|
                    0 <= i < evs@.len() ==> (#[trigger] evs@[i]).wf()),
                None => st.failed || st.cur is Some,
            }
        }),
{
    let ghost views = lines@.map_values(|l: String| l@);
    let n = lines.len();
    let mut out: Vec<Event> = Vec::new();
    let mut cur: Option<Event> = None;
    let mut depth: u64 = 0;
    let mut i: usize = 0;
    while i < n
        invariant
            i <= n,
            n == lines@.len(),
            views == lines@.map_values(|l: String| l@),
            ({
                let st = parse_fold(parse_init(), views.take(i as int));
                &&& !st.failed
                &&& match (st.cur, &cur) {
                    (Some(m), Some(e)) => e@ == m && e.wf() && st.depth == depth,
                    (None, None) => depth == 0,
                    _ => false,
                }
                &&& st.depth <= i
                &&& st.done == out@.map_values(|e: Event| e@)
                &&& forall|k: int| 0 <= k < out@.len() ==> (#[trigger] out@[k]).wf()
            }),
        decreases n - i,
    {
        let ghost st = parse_fold(parse_init(), views.take(i as int));
        proof {
            assert(views.take(i + 1) =~= views.take(i as int).push(views[i as int]));
            lemma_parse_fold_snoc(parse_init(), views.take(i as int), views[i as int]);
        }
        let l = &lines[i];
        let ll = l.as_str().unicode_len();
        let ghost stepped = parse_step(st, views[i as int]);
        if ll == 0 {
            // a blank line changes nothing
        } else {
            cur = match cur {
                None => {
                    if str_eq(l.as_str(), "BEGIN:VEVENT") {
                        let e = Event::new();
                        Some(e)
                    } else {
                        None
                    }
                },
                Some(mut e) => {
                    if depth > 0 {
                        let key = line_key_exec(l.as_str());
                        if str_eq(key.as_str(), "BEGIN") {
                            depth = depth + 1;
                        } else if str_eq(key.as_str(), "END") {
                            depth = depth - 1;
                        }
                        Some(e)
                    } else if str_eq(l.as_str(), "END:VEVENT") {
                        out.push(e);
                        None
                    } else {
                        let key = line_key_exec(l.as_str());
                        if str_eq(key.as_str(), "BEGIN") {
                            depth = 1;
                            Some(e)
                        } else if str_eq(key.as_str(), "END") {
                            proof {
                                assert(stepped.failed);
                                assert(views =~= views.take(i + 1) + views.skip(i + 1));
                                lemma_parse_fold_app(parse_init(), views.take(i + 1), views.skip(i + 1));
                                lemma_parse_fold_failed(stepped, views.skip(i + 1));
                            }
                            return None;
                        } else {
                            match line_value_exec(l.as_str()) {
                                Some(v) => {
                                    e.set_field(key.as_str(), v);
                                    Some(e)
                                },
                                None => {
                                    proof {
                                        assert(stepped.failed);
                                        assert(views =~= views.take(i + 1) + views.skip(i + 1));
                                        lemma_parse_fold_app(parse_init(), views.take(i + 1), views.skip(i + 1));
                                        lemma_parse_fold_failed(stepped, views.skip(i + 1));
                                    }
                                    return None;
                                },
                            }
                        }
                    }
                },
            };
        }
        proof {
            assert(out@.map_values(|e: Event| e@) =~= stepped.done);
        }
        i = i + 1;
    }
    proof {
        assert(views.take(n as int) =~= views);
    }
    match cur {
        Some(_) => None,
        None => Some(out),
    }
}

/// Folding distributes over concatenation of line sequences.
proof fn lemma_parse_fold_app(st: ParseState, a: Seq<Seq<char>>, b: Seq<Seq<char>>)
    ensures
        parse_fold(st, a + b) == parse_fold(parse_fold(st, a), b),
    decreases a.len(),
{
    if a.len() == 0 {
        assert(a + b =~= b);
    } else {
        assert((a + b)[0] == a[0]);
        assert((a + b).drop_first() =~= a.drop_first() + b);
        lemma_parse_fold_app(parse_step(st, a[0]), a.drop_first(), b);
    }
}

/// Parses raw feed text into its events. Nothing comes back when the
/// text is malformed; the whole feed is then skipped by the merger.
pub fn parse_events(text: &str) -> (r: Option<Vec<Event>>)
    ensures
        match r {
            Some(evs) => parse_events_spec(text@) == Some(evs@.map_values(|e: Event| e@))
                && (forall|i: int| 0 <= i < evs@.len() ==> (#[trigger] evs@[i]).wf()),
            None => parse_events_spec(text@) is None,
        },
{
    let raw = split_lines_exec(text);
    let logical = unfold_exec(raw);
    assemble(&logical)
}

/// The wire form of one field: `KEY:VALUE` and a line ending.
pub open spec fn render_field(kv: (Seq<char>, Seq<char>)) -> Seq<char> {
    kv.0 + ":"@ + kv.1 + "\r\n"@
}

/// The wire form of an event's fields, in order.
pub open spec fn render_fields(m: FieldSeq) -> Seq<char>
    decreases m.len(),
{
    if m.len() == 0 {
        Seq::empty()
    } else {
        render_fields(m.drop_last()) + render_field(m.last())
    }
}

/// The wire form of one event.
pub open spec fn render_event(m: FieldSeq) -> Seq<char> {
    "BEGIN:VEVENT\r\n"@ + render_fields(m) + "END:VEVENT\r\n"@
}

/// The wire form of a sequence of events, in order.
pub open spec fn render_events(s: Seq<FieldSeq>) -> Seq<char>
    decreases s.len(),
{
    if s.len() == 0 {
        Seq::empty()
    } else {
        render_events(s.drop_last()) + render_event(s.last())
    }
}

/// The wire form of a whole calendar: the wrapper, the version, the
/// two metadata fields, then every event.
pub open spec fn render_calendar(name: Seq<char>, desc: Seq<char>, evs: Seq<FieldSeq>) -> Seq<
    char,
> {
    "BEGIN:VCALENDAR\r\n"@ + "VERSION:2.0\r\n"@ + "NAME:"@ + name + "\r\n"@ + "DESCRIPTION:"@
        + desc + "\r\n"@ + render_events(evs) + "END:VCALENDAR\r\n"@
}

/// Appends one event's fields in wire form.
fn render_fields_exec(e: &Event, out: &mut String)
    ensures
        final(out)@ == old(out)@ + render_fields(e@),
{
    let n = e.len();
    let mut i: usize = 0;
    while i < n
        invariant
            i <= n,
            n == e@.len(),
            out@ == old(out)@ + render_fields(e@.take(i as int)),
        decreases n - i,
    {
        let kv = e.field_at(i);
        out.append(kv.0.as_str());
        out.append(":");
        out.append(kv.1.as_str());
        out.append("\r\n");
        proof {
            assert(e@.take(i + 1).drop_last() =~= e@.take(i as int));
            assert(e@.take(i + 1).last() == e@[i as int]);
            assert(out@ =~= old(out)@ + render_fields(e@.take(i + 1)));
        }
        i = i + 1;
    }
    proof {
        assert(e@.take(n as int) =~= e@);
    }
}

/// Appends one event in wire form.
fn render_event_exec(e: &Event, out: &mut String)
    ensures
        final(out)@ == old(out)@ + render_event(e@),
{
    out.append("BEGIN:VEVENT\r\n");
    render_fields_exec(e, out);
    out.append("END:VEVENT\r\n");
    proof {
        assert(final(out)@ =~= old(out)@ + render_event(e@));
    }
}

/// Renders a whole calendar into wire text.
pub fn render_calendar_exec(name: &str, desc: &str, evs: &Vec<Event>) -> (r: String)
    ensures
        r@ == render_calendar(name@, desc@, evs@.map_values(|e: Event| e@)),
{
    let ghost views = evs@.map_values(|e: Event| e@);
    let mut out = String::new();
    out.append("BEGIN:VCALENDAR\r\n");
    out.append("VERSION:2.0\r\n");
    out.append("NAME:");
    out.append(name);
    out.append("\r\n");
    out.append("DESCRIPTION:");
    out.append(desc);
    out.append("\r\n");
    let ghost head = out@;
    let n = evs.len();
    let mut i: usize = 0;
    while i < n
        invariant
            i <= n,
            n == evs@.len(),
            views == evs@.map_values(|e: Event| e@),
            out@ == head + render_events(views.take(i as int)),
        decreases n - i,
    {
        render_event_exec(&evs[i], &mut out);
        proof {
            assert(views.take(i + 1).drop_last() =~= views.take(i as int));
            assert(views.take(i + 1).last() == views[i as int]);
            assert(out@ =~= head + render_events(views.take(i + 1)));
        }
        i = i + 1;
    }
    out.append("END:VCALENDAR\r\n");
    proof {
        assert(views.take(n as int) =~= views);
        assert(out@ =~= render_calendar(name@, desc@, views));
    }
    out
}

} // verus!
