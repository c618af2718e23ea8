//! The snapshot cache: the single slot holding the latest merged
//! calendar.
//!
//! The merged calendar is a value: it is built whole, published whole,
//! and never edited in place. The cache therefore either holds no
//! snapshot yet (the distinct not-ready condition readers must
//! surface) or one complete calendar — never a partial one. In the
//! running service the slot is shared through an atomically replaced
//! reference, so a reader sees the calendar published before its read
//! or the one published during it, and nothing in between.

use vstd::prelude::*;
use crate::merge::MergedCalendar;

verus! {

/// The single-slot holder for the latest published calendar.
pub struct SnapshotCache {
    pub snapshot: Option<MergedCalendar>,
}

impl SnapshotCache {
    /// The cache holds a complete, well-formed calendar or nothing.
    pub open spec fn wf(&self) -> bool {
        match self.snapshot {
            Some(c) => c.wf(),
            None => true,
        }
    }

    /// A cache that has never been published to.
    pub fn new() -> (c: SnapshotCache)
        ensures
            c.snapshot is None,
            c.wf(),
    {
        SnapshotCache { snapshot: None }
    }

    /// Whether a snapshot has ever been published.
    pub fn is_ready(&self) -> (r: bool)
        ensures
            r == (self.snapshot is Some),
    {
        match &self.snapshot {
            Some(_) => true,
            None => false,
        }
    }

    /// Replaces the visible snapshot wholesale with `cal`.
    pub fn publish(&mut self, cal: MergedCalendar)
        requires
            old(self).wf(),
            cal.wf(),
        ensures
            final(self).wf(),
            final(self).snapshot == Some(cal),
    {
        self.snapshot = Some(cal);
    }

    /// The current snapshot: nothing before the first publish, and
    /// afterwards exactly the calendar most recently published, whole.
    pub fn read(&self) -> (r: Option<&MergedCalendar>)
        ensures
            match r {
                Some(c) => self.snapshot == Some(*c),
                None => self.snapshot is None,
            },
    {
        match &self.snapshot {
            Some(c) => Some(c),
            None => None,
        }
    }
}

/// Law: a reader always sees a complete published calendar or the
/// not-ready condition, never a mixture. Before any publish the cache
/// reads as not ready; after a publish it reads back exactly the
/// calendar that was published, with all its events.
pub proof fn lemma_read_is_complete(c: SnapshotCache, published: MergedCalendar)
    requires
        c.snapshot == Some(published),
    ensures
        c.snapshot is Some,
        c.snapshot.unwrap().events_view() == published.events_view(),
        c.snapshot.unwrap().name@ == published.name@,
        c.snapshot.unwrap().description@ == published.description@,
{
}

} // verus!
