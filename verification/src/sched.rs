//! The refresh scheduler's state machine.
//!
//! One cycle runs fetch, merge, publish in strict order and then rests
//! until the next cycle; the machine has no terminal phase. The timer,
//! the network and the task plumbing live outside the library: the
//! runner asks the machine for the next phase each time the current
//! phase's work has settled, and the inter-cycle delay starts when a
//! cycle completes, not when it starts.

use vstd::prelude::*;

verus! {

/// Where a refresh cycle stands.
#[derive(Clone, Copy, PartialEq, Eq, Structural, Debug)]
pub enum Phase {
    /// Resting between cycles.
    Idle,
    /// All feeds' fetches are in flight.
    Fetching,
    /// Building the merged calendar from the settled fetches.
    Merging,
    /// Handing the finished calendar to the cache.
    Publishing,
}

/// The fixed order of phases within and between cycles.
pub open spec fn next_phase_spec(p: Phase) -> Phase {
    match p {
        Phase::Idle => Phase::Fetching,
        Phase::Fetching => Phase::Merging,
        Phase::Merging => Phase::Publishing,
        Phase::Publishing => Phase::Idle,
    }
}

/// The phase to enter once the current phase's work has settled.
pub fn next_phase(p: Phase) -> (q: Phase)
    ensures
        q == next_phase_spec(p),
{
    match p {
        Phase::Idle => Phase::Fetching,
        Phase::Fetching => Phase::Merging,
        Phase::Merging => Phase::Publishing,
        Phase::Publishing => Phase::Idle,
    }
}

/// Law: the machine has no terminal phase. From any phase, four steps
/// come back around to the same phase, so the loop runs for the life
/// of the process.
pub proof fn lemma_cycle_loops(p: Phase)
    ensures
        next_phase_spec(next_phase_spec(next_phase_spec(next_phase_spec(p)))) == p,
{
}

} // verus!
