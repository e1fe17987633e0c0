//! The pause/resume stopwatch. Time is a monotonic clock reading in
//! milliseconds, handed in by the caller; every function here is pure in it.

use vstd::prelude::*;
use crate::arith::{sat_add64, sat_sub64, saturating_add_u64, saturating_sub_u64};

verus! {

/// Stopwatch state: `cumulative_time` is the time accumulated over all prior
/// running segments, `last_start_time` marks the start of the current running
/// segment (meaningful only while not paused).
#[derive(Clone, Copy, PartialEq, Eq, Structural, Debug)]
pub struct StopwatchState {
    pub last_start_time: u64,
    pub cumulative_time: u64,
    pub paused: bool,
}

/// `cumulative_time + (now - last_start_time)` while running,
/// `cumulative_time` while paused (saturating at the `u64` bounds).
pub open spec fn spec_elapsed(
    last_start_time: u64,
    cumulative_time: u64,
    paused: bool,
    now: u64,
) -> u64 {
    if paused {
        cumulative_time
    } else {
        sat_add64(cumulative_time, sat_sub64(now, last_start_time))
    }
}

/// The displayed elapsed time, computable at any instant without mutating
/// any state.
pub fn elapsed_time(last_start_time: u64, cumulative_time: u64, paused: bool, now: u64) -> (r: u64)
    ensures
        r == spec_elapsed(last_start_time, cumulative_time, paused, now),
{
    if paused {
        cumulative_time
    } else {
        saturating_add_u64(cumulative_time, saturating_sub_u64(now, last_start_time))
    }
}

impl StopwatchState {
    /// Initial state: Running, started at `now`, nothing accumulated.
    pub open spec fn spec_new(now: u64) -> StopwatchState {
        StopwatchState { last_start_time: now, cumulative_time: 0, paused: false }
    }

    pub fn new(now: u64) -> (r: StopwatchState)
        ensures
            r == StopwatchState::spec_new(now),
    {
        StopwatchState { last_start_time: now, cumulative_time: 0, paused: false }
    }

    pub open spec fn spec_elapsed_at(self, now: u64) -> u64 {
        spec_elapsed(self.last_start_time, self.cumulative_time, self.paused, now)
    }

    pub fn elapsed(&self, now: u64) -> (r: u64)
        ensures
            r == self.spec_elapsed_at(now),
    {
        elapsed_time(self.last_start_time, self.cumulative_time, self.paused, now)
    }

    /// Running -> Paused folds the just-finished segment into
    /// `cumulative_time`; Paused -> Running restarts the segment clock.
    pub open spec fn spec_toggle(self, now: u64) -> StopwatchState {
        if self.paused {
            StopwatchState {
                last_start_time: now,
                cumulative_time: self.cumulative_time,
                paused: false,
            }
        } else {
            StopwatchState {
                last_start_time: self.last_start_time,
                cumulative_time: sat_add64(self.cumulative_time, sat_sub64(now, self.last_start_time)),
                paused: true,
            }
        }
    }

    pub fn toggle(&mut self, now: u64)
        ensures
            *final(self) == old(self).spec_toggle(now),
    {
        if self.paused {
            self.last_start_time = now;
            self.paused = false;
        } else {
            self.cumulative_time = saturating_add_u64(
                self.cumulative_time,
                saturating_sub_u64(now, self.last_start_time),
            );
            self.paused = true;
        }
    }
}

/// While running, the elapsed time is non-decreasing in the clock.
pub proof fn lemma_elapsed_nondecreasing(st: StopwatchState, now1: u64, now2: u64)
    requires
        now1 <= now2,
    ensures
        st.spec_elapsed_at(now1) <= st.spec_elapsed_at(now2),
{
}

/// While paused, the elapsed time does not depend on the clock at all:
/// repeated reads return the identical value.
pub proof fn lemma_elapsed_constant_while_paused(st: StopwatchState, now1: u64, now2: u64)
    requires
        st.paused,
    ensures
        st.spec_elapsed_at(now1) == st.spec_elapsed_at(now2),
{
}

/// Pausing at instant `t` freezes the elapsed value: afterwards every read
/// returns exactly what a read at `t` returned just before the toggle.
pub proof fn lemma_pause_freezes_elapsed(st: StopwatchState, t: u64, now: u64)
    requires
        !st.paused,
    ensures
        st.spec_toggle(t).spec_elapsed_at(now) == st.spec_elapsed_at(t),
{
}

/// A Paused -> Running -> Paused round trip moves the elapsed value forward
/// by exactly the real time the stopwatch spent running, so an immediate
/// re-pause (`t_pause == t_resume`) leaves it unchanged.
pub proof fn lemma_pause_resume_round_trip(
    st: StopwatchState,
    t_resume: u64,
    t_pause: u64,
    now: u64,
)
    requires
        st.paused,
        t_resume <= t_pause,
        st.cumulative_time + (t_pause - t_resume) <= u64::MAX,
    ensures
        st.spec_toggle(t_resume).spec_toggle(t_pause).spec_elapsed_at(now)
            == st.spec_elapsed_at(now) + (t_pause - t_resume),
{
}

} // verus!
