//! The keyboard-event state machine run by the input loop: quit, pause
//! toggle, view cycling. The blocking read of events, and the thread that
//! performs the resulting wake-ups, live in the embedding program; every
//! state decision is made here.

use vstd::prelude::*;
use crate::arith::sat_add64;
use crate::stopwatch::StopwatchState;
use crate::ui::{next_ui_offset, spec_next_offset};

verus! {

/// One keyboard event, already decoded by the terminal collaborator.
#[derive(Clone, Copy, PartialEq, Eq, Structural, Debug)]
pub enum InputEvent {
    Ctrl(char),
    Char(char),
    Other,
}

/// What the input loop must do after a state change: nothing, wake the
/// display loop out of its timed sleep, or wake it and then exit the loop.
#[derive(Clone, Copy, PartialEq, Eq, Structural, Debug)]
pub enum InputAction {
    Ignore,
    WakeDisplay,
    Quit,
}

/// The interrupt key or the designated quit key ends the session.
pub open spec fn is_quit(e: InputEvent) -> bool {
    e == InputEvent::Ctrl('c') || e == InputEvent::Char('q')
}

pub open spec fn is_pause_toggle(e: InputEvent) -> bool {
    e == InputEvent::Char(' ')
}

pub open spec fn is_view_cycle(e: InputEvent) -> bool {
    e == InputEvent::Char('\t')
}

/// The shared state the input loop mutates and the display/resize loops
/// read: the running flag, the stopwatch pair, the view offset, and how
/// often the cleanup callback has been invoked.
#[derive(Clone, Copy, PartialEq, Eq, Structural, Debug)]
pub struct SharedState {
    pub running: bool,
    pub stopwatch: StopwatchState,
    pub ui_offset: usize,
    pub cleanup_calls: u64,
}

impl SharedState {
    /// Startup state: running, stopwatch started at `now`, first view
    /// visible, cleanup not yet performed.
    pub open spec fn spec_new(now: u64) -> SharedState {
        SharedState {
            running: true,
            stopwatch: StopwatchState::spec_new(now),
            ui_offset: 0,
            cleanup_calls: 0,
        }
    }

    pub fn new(now: u64) -> (r: SharedState)
        ensures
            r == SharedState::spec_new(now),
    {
        SharedState {
            running: true,
            stopwatch: StopwatchState::new(now),
            ui_offset: 0,
            cleanup_calls: 0,
        }
    }

    /// The state after one keyboard event. Quit clears the running flag and
    /// performs the cleanup; the pause key toggles the stopwatch; the cycle
    /// key advances the view offset modulo the table count; anything else
    /// changes nothing.
    pub open spec fn spec_step(self, e: InputEvent, now: u64, table_count: usize) -> SharedState {
        if is_quit(e) {
            SharedState {
                running: false,
                stopwatch: self.stopwatch,
                ui_offset: self.ui_offset,
                cleanup_calls: sat_add64(self.cleanup_calls, 1),
            }
        } else if is_pause_toggle(e) {
            SharedState {
                running: self.running,
                stopwatch: self.stopwatch.spec_toggle(now),
                ui_offset: self.ui_offset,
                cleanup_calls: self.cleanup_calls,
            }
        } else if is_view_cycle(e) {
            SharedState {
                running: self.running,
                stopwatch: self.stopwatch,
                ui_offset: spec_next_offset(self.ui_offset, table_count) as usize,
                cleanup_calls: self.cleanup_calls,
            }
        } else {
            self
        }
    }

    /// The action owed to the display loop for one event.
    pub open spec fn spec_action(e: InputEvent) -> InputAction {
        if is_quit(e) {
            InputAction::Quit
        } else if is_pause_toggle(e) || is_view_cycle(e) {
            InputAction::WakeDisplay
        } else {
            InputAction::Ignore
        }
    }

    /// Applies one keyboard event at clock reading `now` and reports which
    /// wake-up the caller owes the display loop.
    pub fn handle_event(&mut self, e: InputEvent, now: u64, table_count: usize) -> (action:
        InputAction)
        requires
            1 <= table_count,
            old(self).ui_offset < table_count,
            old(self).cleanup_calls < u64::MAX,
        ensures
            *final(self) == old(self).spec_step(e, now, table_count),
            action == SharedState::spec_action(e),
            final(self).ui_offset < table_count,
    {
        match e {
            InputEvent::Ctrl('c') | InputEvent::Char('q') => {
                self.running = false;
                self.cleanup_calls = self.cleanup_calls + 1;
                InputAction::Quit
            },
            InputEvent::Char(' ') => {
                self.stopwatch.toggle(now);
                InputAction::WakeDisplay
            },
            InputEvent::Char('\t') => {
                self.ui_offset = next_ui_offset(self.ui_offset, table_count);
                InputAction::WakeDisplay
            },
            _ => InputAction::Ignore,
        }
    }

    /// The state after a whole event sequence (with its clock readings),
    /// processed from index `i` on, stopping right after the first quit.
    pub open spec fn spec_run_from(
        self,
        events: Seq<InputEvent>,
        times: Seq<u64>,
        table_count: usize,
        i: int,
    ) -> SharedState
        decreases events.len() - i,
    {
        if i < 0 || i >= events.len() {
            self
        } else {
            let stepped = self.spec_step(events[i], times[i], table_count);
            if is_quit(events[i]) {
                stepped
            } else {
                stepped.spec_run_from(events, times, table_count, i + 1)
            }
        }
    }

    /// Consumes a sequence of keyboard events as the input loop does:
    /// in order, stopping right after the first quit event.
    pub fn process_events(
        &mut self,
        events: &Vec<InputEvent>,
        times: &Vec<u64>,
        table_count: usize,
    )
        requires
            events@.len() == times@.len(),
            1 <= table_count,
            old(self).ui_offset < table_count,
            old(self).cleanup_calls == 0,
        ensures
            *final(self) == old(self).spec_run_from(events@, times@, table_count, 0),
    {
        let ghost st0 = *self;
        let mut i: usize = 0;
        while i < events.len()
            invariant
                st0 == *old(self),
                events@.len() == times@.len(),
                1 <= table_count,
                i <= events@.len(),
                self.ui_offset < table_count,
                self.cleanup_calls == 0,
                st0.spec_run_from(events@, times@, table_count, 0) == self.spec_run_from(
                    events@,
                    times@,
                    table_count,
                    i as int,
                ),
            decreases events@.len() - i,
        {
            let e = events[i];
            let now = times[i];
            let ghost before = *self;
            let action = self.handle_event(e, now, table_count);
            proof {
                assert(before.spec_run_from(events@, times@, table_count, i as int)
                    == if is_quit(events@[i as int]) {
                    *self
                } else {
                    self.spec_run_from(events@, times@, table_count, i as int + 1)
                });
            }
            if matches!(action, InputAction::Quit) {
                return;
            }
            i += 1;
        }
    }
}

/// Issuing a quit event shuts the session down: starting from a live state
/// (running, cleanup not yet performed), a sequence containing a quit event
/// leaves the running flag false — which every loop observes at its next
/// iteration boundary — and has invoked the cleanup callback exactly once.
pub proof fn lemma_quit_shuts_down(
    st: SharedState,
    events: Seq<InputEvent>,
    times: Seq<u64>,
    table_count: usize,
    i: int,
)
    requires
        st.running,
        st.cleanup_calls == 0,
        events.len() == times.len(),
        0 <= i < events.len(),
        exists|j: int| i <= j < events.len() && is_quit(#[trigger] events[j]),
    ensures
        !st.spec_run_from(events, times, table_count, i).running,
        st.spec_run_from(events, times, table_count, i).cleanup_calls == 1,
    decreases events.len() - i,
{
    let stepped = st.spec_step(events[i], times[i], table_count);
    if is_quit(events[i]) {
        assert(sat_add64(0, 1) == 1);
    } else {
        assert(stepped.running && stepped.cleanup_calls == 0);
        let j = choose|j: int| i <= j < events.len() && is_quit(#[trigger] events[j]);
        assert(i + 1 <= j < events.len());
        lemma_quit_shuts_down(stepped, events, times, table_count, i + 1);
    }
}

/// Events after the first quit are never processed: the run stops at the
/// step that handled the quit.
pub proof fn lemma_run_stops_at_quit(
    st: SharedState,
    events: Seq<InputEvent>,
    times: Seq<u64>,
    table_count: usize,
)
    requires
        events.len() == times.len(),
        events.len() > 0,
        is_quit(events[0]),
    ensures
        st.spec_run_from(events, times, table_count, 0) == st.spec_step(
            events[0],
            times[0],
            table_count,
        ),
{
}

} // verus!
