//! The cycle controller: the order of a cycle's phases and the pause
//! between two cycles.

use vstd::prelude::*;

verus! {

/// A phase of a cycle.
#[derive(Debug, Clone, Copy, PartialEq, Eq, Structural)]
pub enum Phase {
    /// Search, resolve and fetch.
    Discover,
    /// Merge the discoveries with the persisted snapshot.
    Merge,
    /// Fetch the stalest records again.
    Refresh,
    /// Write the snapshot.
    Persist,
    /// Mirror the active records to the index.
    Sync,
    /// Wait for the rest of the cycle's period.
    Sleep,
    /// Leave.
    Exit,
}

/// The place of a phase in a cycle.
pub open spec fn rank(phase: Phase) -> int {
    match phase {
        Phase::Discover => 0,
        Phase::Merge => 1,
        Phase::Refresh => 2,
        Phase::Persist => 3,
        Phase::Sync => 4,
        Phase::Sleep => 5,
        Phase::Exit => 6,
    }
}

/// The phase that follows `phase`. A full cycle discovers, merges,
/// refreshes where `budget` allows any refresh, persists, syncs and
/// sleeps, then starts over. A `fast` run only discovers and leaves, as
/// does nothing after `Exit`.
pub open spec fn following(phase: Phase, fast: bool, budget: usize) -> Phase {
    match phase {
        Phase::Discover => if fast {
            Phase::Exit
        } else {
            Phase::Merge
        },
        Phase::Merge => if budget > 0 {
            Phase::Refresh
        } else {
            Phase::Persist
        },
        Phase::Refresh => Phase::Persist,
        Phase::Persist => Phase::Sync,
        Phase::Sync => Phase::Sleep,
        Phase::Sleep => Phase::Discover,
        Phase::Exit => Phase::Exit,
    }
}

/// The phase that follows `phase`.
pub fn next_phase(phase: Phase, fast: bool, budget: usize) -> (r: Phase)
    ensures
        r == following(phase, fast, budget),
{
    match phase {
        Phase::Discover => if fast {
            Phase::Exit
        } else {
            Phase::Merge
        },
        Phase::Merge => if budget > 0 {
            Phase::Refresh
        } else {
            Phase::Persist
        },
        Phase::Refresh => Phase::Persist,
        Phase::Persist => Phase::Sync,
        Phase::Sync => Phase::Sleep,
        Phase::Sleep => Phase::Discover,
        Phase::Exit => Phase::Exit,
    }
}

/// Within a cycle the phases only move forward, so the snapshot is written
/// after the refresh and before the index sync: the sync is entered from
/// persisting alone, persisting from merging or refreshing alone, and the
/// refresh from merging alone.
pub proof fn lemma_phase_order(phase: Phase, fast: bool, budget: usize)
    ensures
        phase != Phase::Sleep && phase != Phase::Exit ==> rank(following(phase, fast, budget))
            > rank(phase),
        following(phase, fast, budget) == Phase::Sync ==> phase == Phase::Persist,
        following(phase, fast, budget) == Phase::Persist ==> phase == Phase::Refresh || phase
            == Phase::Merge,
        following(phase, fast, budget) == Phase::Refresh ==> phase == Phase::Merge,
{
}

/// How long to sleep after a cycle that took `elapsed`, so that cycles start
/// `period` apart: the rest of the period, or nothing where the cycle took
/// longer than the period.
pub fn remaining_sleep(period: u64, elapsed: u64) -> (r: u64)
    ensures
        r == if elapsed >= period {
            0
        } else {
            period - elapsed
        },
{
    if elapsed >= period {
        0
    } else {
        period - elapsed
    }
}

} // verus!
