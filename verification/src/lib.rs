//! Aggregates several remote calendar feeds into one unified calendar.
//!
//! The crate holds the verified core of the aggregator: the event model,
//! the rule engine, the date-window filter, the calendar parser and
//! serializers, the merger, and the snapshot cache. Network fetching,
//! the HTTP facade and the refresh timer live outside the library and
//! hand it plain values.

pub mod cache;
pub mod datefilter;
pub mod event;
pub mod ical;
pub mod json;
pub mod merge;
pub mod rules;
pub mod sched;
pub mod text;

use vstd::prelude::*;

verus! {

/// Default HTTP listen port when the configuration names none.
pub fn default_port() -> (p: u16)
    ensures
        p == 3000,
{
    3000
}

/// Default delay between refresh cycles, in seconds.
pub fn default_refresh_interval() -> (s: u64)
    ensures
        s == 300,
{
    300
}

/// Default number of days in the past admitted by the date window.
pub fn default_days_past() -> (d: i64)
    ensures
        d == 30,
{
    30
}

/// Default number of days in the future admitted by the date window.
pub fn default_days_future() -> (d: i64)
    ensures
        d == 365,
{
    365
}

} // verus!
