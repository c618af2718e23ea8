//! The date filter: parses an event's raw start value and decides
//! whether the instant falls inside the configured window.
//!
//! Two wire forms are recognized: `YYYYMMDDTHHMMSS` with any trailing
//! `Z` ignored (treated as UTC), and the bare date `YYYYMMDD` (midnight
//! UTC). Anything before the first `:` in the raw value (a timezone
//! qualifier) is stripped first. A value in neither form parses to
//! nothing, and the filter then keeps the event: absence of a
//! recognizable date means "keep".

use vstd::prelude::*;
use crate::event::{Event, FieldSeq, field_value, has_field};
use crate::text::{after_colon, contains_colon, find_colon, lemma_after_colon};

verus! {

/// True when `c` is a decimal digit.
pub open spec fn is_digit_char(c: char) -> bool {
    48 <= c as u32 && c as u32 <= 57
}

/// The numeric value of a digit character.
pub open spec fn digit_of(c: char) -> int {
    c as u32 - 48
}

/// True when every character of `s` is a decimal digit.
pub open spec fn all_digits(s: Seq<char>) -> bool {
    forall|i: int| 0 <= i < s.len() ==> is_digit_char(s[i])
}

/// The number a digit string denotes, most significant digit first.
pub open spec fn digits_val(s: Seq<char>) -> int
    decreases s.len(),
{
    if s.len() == 0 {
        0
    } else {
        digits_val(s.drop_last()) * 10 + digit_of(s.last())
    }
}

/// Gregorian leap-year rule.
pub open spec fn is_leap_year(y: int) -> bool {
    y % 4 == 0 && (y % 100 != 0 || y % 400 == 0)
}

/// Days in month `m` of year `y`.
pub open spec fn days_in_month(y: int, m: int) -> int {
    if m == 2 {
        if is_leap_year(y) {
            29
        } else {
            28
        }
    } else if m == 4 || m == 6 || m == 9 || m == 11 {
        30
    } else {
        31
    }
}

/// A calendar date the wire format can denote: four-digit year, real
/// month and day.
pub open spec fn valid_ymd(y: int, m: int, d: int) -> bool {
    0 <= y <= 9999 && 1 <= m <= 12 && 1 <= d <= days_in_month(y, m)
}

/// Days from the Unix epoch to the given date (negative before 1970).
/// The year is shifted so that every intermediate division is on
/// non-negative values.
pub open spec fn days_from_civil(y: int, m: int, d: int) -> int {
    let yy = if m <= 2 {
        y + 399
    } else {
        y + 400
    };
    let mm = if m <= 2 {
        m + 9
    } else {
        m - 3
    };
    let era = yy / 400;
    let yoe = yy % 400;
    let doy = (153 * mm + 2) / 5 + d - 1;
    let doe = yoe * 365 + yoe / 4 - yoe / 100 + doy;
    era * 146097 + doe - 146097 - 719468
}

/// Seconds from the Unix epoch to the given UTC date and time.
pub open spec fn epoch_of(y: int, m: int, d: int, h: int, mi: int, s: int) -> int {
    days_from_civil(y, m, d) * 86400 + h * 3600 + mi * 60 + s
}

/// The raw value with any timezone qualifier stripped: everything after
/// the first `:` when there is one, the whole value otherwise.
pub open spec fn cleaned(s: Seq<char>) -> Seq<char> {
    if contains_colon(s) {
        after_colon(s)
    } else {
        s
    }
}

/// The value with all trailing `Z` characters removed.
pub open spec fn strip_z(s: Seq<char>) -> Seq<char>
    decreases s.len(),
{
    if s.len() > 0 && s.last() == 'Z' {
        strip_z(s.drop_last())
    } else {
        s
    }
}

/// The date-time form: `YYYYMMDDTHHMMSS`, with real calendar ranges.
pub open spec fn datetime_fields_ok(t: Seq<char>) -> bool {
    t.len() == 15 && t[8] == 'T' && all_digits(t.subrange(0, 8)) && all_digits(
        t.subrange(9, 15),
    ) && valid_ymd(
        digits_val(t.subrange(0, 4)),
        digits_val(t.subrange(4, 6)),
        digits_val(t.subrange(6, 8)),
    ) && digits_val(t.subrange(9, 11)) <= 23 && digits_val(t.subrange(11, 13)) <= 59
        && digits_val(t.subrange(13, 15)) <= 59
}

/// The instant a date-time form denotes.
pub open spec fn datetime_epoch(t: Seq<char>) -> int {
    epoch_of(
        digits_val(t.subrange(0, 4)),
        digits_val(t.subrange(4, 6)),
        digits_val(t.subrange(6, 8)),
        digits_val(t.subrange(9, 11)),
        digits_val(t.subrange(11, 13)),
        digits_val(t.subrange(13, 15)),
    )
}

/// The bare-date form: `YYYYMMDD`, with real calendar ranges.
pub open spec fn date_fields_ok(t: Seq<char>) -> bool {
    t.len() == 8 && all_digits(t) && valid_ymd(
        digits_val(t.subrange(0, 4)),
        digits_val(t.subrange(4, 6)),
        digits_val(t.subrange(6, 8)),
    )
}

/// The instant a bare date denotes: midnight UTC.
pub open spec fn date_epoch(t: Seq<char>) -> int {
    epoch_of(digits_val(t.subrange(0, 4)), digits_val(t.subrange(4, 6)), digits_val(t.subrange(6, 8)), 0, 0, 0)
}

/// The instant a raw start value denotes, if it is recognized. The
/// date-time attempt ignores trailing `Z`s; the bare-date attempt does
/// not.
pub open spec fn parse_start_spec(s: Seq<char>) -> Option<int> {
    let c = cleaned(s);
    let t = strip_z(c);
    if datetime_fields_ok(t) {
        Some(datetime_epoch(t))
    } else if date_fields_ok(c) {
        Some(date_epoch(c))
    } else {
        None
    }
}

/// The configured window: how many days into the past and the future
/// an event's start may lie.
#[derive(Clone, Copy)]
pub struct DateWindow {
    pub past_days: i64,
    pub future_days: i64,
}

/// The window test, inclusive on both bounds.
pub open spec fn in_window_spec(t: int, now: int, w: DateWindow) -> bool {
    now - w.past_days * 86400 <= t && t <= now + w.future_days * 86400
}

/// An event survives the filter when filtering is off, when it has no
/// start field, when its start value is unrecognizable, or when the
/// parsed instant lies inside the window.
pub open spec fn kept_spec(m: FieldSeq, w: Option<DateWindow>, now: int) -> bool {
    match w {
        None => true,
        Some(win) => !has_field(m, "DTSTART"@) || (match parse_start_spec(
            field_value(m, "DTSTART"@),
        ) {
            None => true,
            Some(t) => in_window_spec(t, now, win),
        }),
    }
}

/// Stripping trailing `Z`s never lengthens the value.
proof fn lemma_strip_z_len(s: Seq<char>)
    ensures
        strip_z(s).len() <= s.len(),
    decreases s.len(),
{
    if s.len() > 0 && s.last() == 'Z' {
        lemma_strip_z_len(s.drop_last());
    }
}

/// Reads the digits of `s` between positions `from` and `to` as a
/// number; nothing when a non-digit stands there.
fn parse_digits(s: &str, from: usize, to: usize) -> (r: Option<u64>)
    requires
        from <= to,
        to <= s@.len(),
        s@.len() <= usize::MAX,
        to - from <= 4,
    ensures
        match r {
            Some(v) => all_digits(s@.subrange(from as int, to as int)) && v == digits_val(
                s@.subrange(from as int, to as int),
            ) && v <= 9999,
            None => !all_digits(s@.subrange(from as int, to as int)),
        },
{
    let mut acc: u64 = 0;
    let mut j: usize = from;
    while j < to
        invariant
            from <= j <= to,
            to <= s@.len(),
            s@.len() <= usize::MAX,
            to - from <= 4,
            all_digits(s@.subrange(from as int, j as int)),
            acc == digits_val(s@.subrange(from as int, j as int)),
            acc <= if j - from == 0 {
                0int
            } else if j - from == 1 {
                9int
            } else if j - from == 2 {
                99int
            } else if j - from == 3 {
                999int
            } else {
                9999int
            },
        decreases to - j,
    {
        let ch = s.get_char(j);
        let cu = ch as u32;
        if cu < 48 || cu > 57 {
            proof {
                assert(s@.subrange(from as int, to as int)[j - from] == s@[j as int]);
            }
            return None;
        }
        acc = acc * 10 + ((cu - 48) as u64);
        proof {
            assert(s@.subrange(from as int, j + 1 as int).drop_last() =~= s@.subrange(
                from as int,
                j as int,
            ));
            assert(s@.subrange(from as int, j + 1 as int).last() == s@[j as int]);
        }
        j = j + 1;
    }
    Some(acc)
}

/// Whether `y` is a leap year.
fn leap_year_num(y: u64) -> (r: bool)
    ensures
        r == is_leap_year(y as int),
{
    y % 4 == 0 && (y % 100 != 0 || y % 400 == 0)
}

/// Days in month `m` of year `y`.
fn days_in_month_num(y: u64, m: u64) -> (r: u64)
    requires
        1 <= m <= 12,
    ensures
        r == days_in_month(y as int, m as int),
{
    if m == 2 {
        if leap_year_num(y) {
            29
        } else {
            28
        }
    } else if m == 4 || m == 6 || m == 9 || m == 11 {
        30
    } else {
        31
    }
}

/// Days from the Unix epoch to the given date.
fn days_from_civil_num(y: u64, m: u64, d: u64) -> (r: i64)
    requires
        y <= 9999,
        1 <= m <= 12,
        1 <= d <= 31,
    ensures
        r as int == days_from_civil(y as int, m as int, d as int),
        -800000 <= r <= 3000000,
{
    let yy: u64 = if m <= 2 {
        y + 399
    } else {
        y + 400
    };
    let mm: u64 = if m <= 2 {
        m + 9
    } else {
        m - 3
    };
    let era: u64 = yy / 400;
    let yoe: u64 = yy % 400;
    let doy: u64 = (153 * mm + 2) / 5 + d - 1;
    let doe: u64 = yoe * 365 + yoe / 4 - yoe / 100 + doy;
    let total: u64 = era * 146097 + doe;
    (total as i64) - 865565
}

/// Seconds from the Unix epoch to the given UTC date and time.
fn epoch_num(y: u64, m: u64, d: u64, h: u64, mi: u64, s: u64) -> (r: i64)
    requires
        y <= 9999,
        1 <= m <= 12,
        1 <= d <= 31,
        h <= 23,
        mi <= 59,
        s <= 59,
    ensures
        r as int == epoch_of(y as int, m as int, d as int, h as int, mi as int, s as int),
{
    let days = days_from_civil_num(y, m, d);
    days * 86400 + ((h * 3600 + mi * 60 + s) as i64)
}

/// The date-time attempt on the cleaned, `Z`-stripped value.
fn try_datetime(t: &str) -> (r: Option<i64>)
    ensures
        match r {
            Some(v) => datetime_fields_ok(t@) && v as int == datetime_epoch(t@),
            None => !datetime_fields_ok(t@),
        },
{
    let n = t.unicode_len();
    if n != 15 {
        return None;
    }
    if t.get_char(8) != 'T' {
        return None;
    }
    let y = match parse_digits(t, 0, 4) {
        Some(v) => v,
        None => {
            proof {
                assert(!all_digits(t@.subrange(0, 8))) by {
                    let j = choose|j: int| 0 <= j < 4 && !is_digit_char(t@.subrange(0, 4)[j]);
                    assert(t@.subrange(0, 8)[j] == t@.subrange(0, 4)[j]);
                }
            }
            return None;
        },
    };
    let mo = match parse_digits(t, 4, 6) {
        Some(v) => v,
        None => {
            proof {
                assert(!all_digits(t@.subrange(0, 8))) by {
                    let j = choose|j: int| 0 <= j < 2 && !is_digit_char(t@.subrange(4, 6)[j]);
                    assert(t@.subrange(0, 8)[j + 4] == t@.subrange(4, 6)[j]);
                }
            }
            return None;
        },
    };
    let d = match parse_digits(t, 6, 8) {
        Some(v) => v,
        None => {
            proof {
                assert(!all_digits(t@.subrange(0, 8))) by {
                    let j = choose|j: int| 0 <= j < 2 && !is_digit_char(t@.subrange(6, 8)[j]);
                    assert(t@.subrange(0, 8)[j + 6] == t@.subrange(6, 8)[j]);
                }
            }
            return None;
        },
    };
    let h = match parse_digits(t, 9, 11) {
        Some(v) => v,
        None => {
            proof {
                assert(!all_digits(t@.subrange(9, 15))) by {
                    let j = choose|j: int| 0 <= j < 2 && !is_digit_char(t@.subrange(9, 11)[j]);
                    assert(t@.subrange(9, 15)[j] == t@.subrange(9, 11)[j]);
                }
            }
            return None;
        },
    };
    let mi = match parse_digits(t, 11, 13) {
        Some(v) => v,
        None => {
            proof {
                assert(!all_digits(t@.subrange(9, 15))) by {
                    let j = choose|j: int| 0 <= j < 2 && !is_digit_char(t@.subrange(11, 13)[j]);
                    assert(t@.subrange(9, 15)[j + 2] == t@.subrange(11, 13)[j]);
                }
            }
            return None;
        },
    };
    let se = match parse_digits(t, 13, 15) {
        Some(v) => v,
        None => {
            proof {
                assert(!all_digits(t@.subrange(9, 15))) by {
                    let j = choose|j: int| 0 <= j < 2 && !is_digit_char(t@.subrange(13, 15)[j]);
                    assert(t@.subrange(9, 15)[j + 4] == t@.subrange(13, 15)[j]);
                }
            }
            return None;
        },
    };
    if mo < 1 || mo > 12 {
        return None;
    }
    if d < 1 || d > days_in_month_num(y, mo) {
        return None;
    }
    if h > 23 || mi > 59 || se > 59 {
        return None;
    }
    proof {
        assert(all_digits(t@.subrange(0, 8))) by {
            assert forall|j: int| 0 <= j < 8 implies is_digit_char(t@.subrange(0, 8)[j]) by {
                if j < 4 {
                    assert(t@.subrange(0, 8)[j] == t@.subrange(0, 4)[j]);
                } else if j < 6 {
                    assert(t@.subrange(0, 8)[j] == t@.subrange(4, 6)[j - 4]);
                } else {
                    assert(t@.subrange(0, 8)[j] == t@.subrange(6, 8)[j - 6]);
                }
            }
        }
        assert(all_digits(t@.subrange(9, 15))) by {
            assert forall|j: int| 0 <= j < 6 implies is_digit_char(t@.subrange(9, 15)[j]) by {
                if j < 2 {
                    assert(t@.subrange(9, 15)[j] == t@.subrange(9, 11)[j]);
                } else if j < 4 {
                    assert(t@.subrange(9, 15)[j] == t@.subrange(11, 13)[j - 2]);
                } else {
                    assert(t@.subrange(9, 15)[j] == t@.subrange(13, 15)[j - 4]);
                }
            }
        }
    }
    Some(epoch_num(y, mo, d, h, mi, se))
}

/// The bare-date attempt on the cleaned value.
fn try_date(c: &str) -> (r: Option<i64>)
    ensures
        match r {
            Some(v) => date_fields_ok(c@) && v as int == date_epoch(c@),
            None => !date_fields_ok(c@),
        },
{
    let n = c.unicode_len();
    if n != 8 {
        return None;
    }
    let y = match parse_digits(c, 0, 4) {
        Some(v) => v,
        None => {
            proof {
                assert(!all_digits(c@)) by {
                    let j = choose|j: int| 0 <= j < 4 && !is_digit_char(c@.subrange(0, 4)[j]);
                    assert(c@[j] == c@.subrange(0, 4)[j]);
                }
            }
            return None;
        },
    };
    let mo = match parse_digits(c, 4, 6) {
        Some(v) => v,
        None => {
            proof {
                assert(!all_digits(c@)) by {
                    let j = choose|j: int| 0 <= j < 2 && !is_digit_char(c@.subrange(4, 6)[j]);
                    assert(c@[j + 4] == c@.subrange(4, 6)[j]);
                }
            }
            return None;
        },
    };
    let d = match parse_digits(c, 6, 8) {
        Some(v) => v,
        None => {
            proof {
                assert(!all_digits(c@)) by {
                    let j = choose|j: int| 0 <= j < 2 && !is_digit_char(c@.subrange(6, 8)[j]);
                    assert(c@[j + 6] == c@.subrange(6, 8)[j]);
                }
            }
            return None;
        },
    };
    if mo < 1 || mo > 12 {
        return None;
    }
    if d < 1 || d > days_in_month_num(y, mo) {
        return None;
    }
    proof {
        assert(all_digits(c@)) by {
            assert forall|j: int| 0 <= j < 8 implies is_digit_char(c@[j]) by {
                if j < 4 {
                    assert(c@.subrange(0, 4)[j] == c@[j]);
                } else if j < 6 {
                    assert(c@.subrange(4, 6)[j - 4] == c@[j]);
                } else {
                    assert(c@.subrange(6, 8)[j - 6] == c@[j]);
                }
            }
        }
    }
    Some(epoch_num(y, mo, d, 0, 0, 0))
}

/// Parses a raw start value into seconds from the Unix epoch.
pub fn parse_start(s: &str) -> (r: Option<i64>)
    ensures
        match r {
            Some(v) => parse_start_spec(s@) == Some(v as int),
            None => parse_start_spec(s@) is None,
        },
{
    let len = s.unicode_len();
    let c: &str = match find_colon(s) {
        Some(i) => {
            proof {
                lemma_after_colon(s@, i as int);
                assert(s@.skip(i + 1) =~= s@.subrange(i + 1, len as int));
            }
            s.substring_char(i + 1, len)
        },
        None => s,
    };
    let clen = c.unicode_len();
    proof {
        assert(c@.take(clen as int) =~= c@);
    }
    let mut end: usize = clen;
    while end > 0 && c.get_char(end - 1) == 'Z'
        invariant
            end <= clen,
            clen == c@.len(),
            strip_z(c@) == strip_z(c@.take(end as int)),
        decreases end,
    {
        proof {
            assert(c@.take(end as int).drop_last() =~= c@.take(end - 1));
        }
        end = end - 1;
    }
    proof {
        if end > 0 {
            assert(c@.take(end as int).last() == c@[end - 1]);
        }
        assert(strip_z(c@) == c@.take(end as int));
        assert(c@.take(end as int) =~= c@.subrange(0, end as int));
    }
    let t = c.substring_char(0, end);
    match try_datetime(t) {
        Some(v) => Some(v),
        None => {
            proof {
                lemma_strip_z_len(c@);
            }
            match try_date(c) {
                Some(v) => Some(v),
                None => None,
            }
        },
    }
}

/// Whether instant `t` lies inside the window anchored at `now`,
/// inclusive on both bounds. The bounds are computed in wide
/// arithmetic, so no configured width can overflow.
pub fn in_window(t: i64, now: i64, w: &DateWindow) -> (r: bool)
    ensures
        r == in_window_spec(t as int, now as int, *w),
{
    let lo: i128 = (now as i128) - (w.past_days as i128) * 86400;
    let hi: i128 = (now as i128) + (w.future_days as i128) * 86400;
    lo <= (t as i128) && (t as i128) <= hi
}

/// The keep/drop decision for one event, anchored at `now`.
pub fn event_kept(e: &Event, w: &Option<DateWindow>, now: i64) -> (r: bool)
    requires
        e.wf(),
    ensures
        r == kept_spec(e@, *w, now as int),
{
    match w {
        None => true,
        Some(win) => match e.get_field("DTSTART") {
            None => true,
            Some(v) => match parse_start(v.as_str()) {
                None => true,
                Some(t) => in_window(t, now, win),
            },
        },
    }
}

} // verus!
