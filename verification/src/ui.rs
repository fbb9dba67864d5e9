//! Figures for the heads-up display.

use vstd::prelude::*;
use crate::jobs::TICKS_PER_DAY;
use crate::sim::SimState;

verus! {

/// The figures shown in the heads-up display.
#[derive(Clone, Copy, Debug, PartialEq, Eq, Structural)]
pub struct HudInfo {
    pub tick: u64,
    pub day: u64,
    pub dwarf_count: usize,
    pub job_count: usize,
}

/// The heads-up figures of a running colony: the tick, the day, how many
/// dwarves there are and how many jobs are queued.
pub fn hud_info(state: &SimState) -> (h: HudInfo)
    ensures
        h.tick == state.time.tick,
        h.day == state.time.tick / TICKS_PER_DAY,
        h.dwarf_count == state.dwarves@.len(),
        h.job_count == state.job_queue.jobs@.len(),
{
    HudInfo {
        tick: state.time.tick,
        day: state.time.day(),
        dwarf_count: state.dwarves.len(),
        job_count: state.job_queue.jobs.len(),
    }
}

} // verus!
