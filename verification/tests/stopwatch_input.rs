use bandwhich::input::{InputAction, InputEvent, SharedState};
use bandwhich::stopwatch::{elapsed_time, StopwatchState};
use bandwhich::ui::next_ui_offset;

#[test]
fn elapsed_is_nondecreasing_while_running() {
    let sw = StopwatchState::new(1000);
    let first = sw.elapsed(1500);
    let second = sw.elapsed(1500);
    assert!(first <= second);
    let later = sw.elapsed(2500);
    assert!(second <= later);
    assert_eq!(later, 1500);
}

#[test]
fn elapsed_is_constant_while_paused() {
    let mut sw = StopwatchState::new(1000);
    sw.toggle(1800);
    assert!(sw.paused);
    let first = sw.elapsed(2000);
    let second = sw.elapsed(9000);
    assert_eq!(first, second);
    assert_eq!(first, 800);
}

#[test]
fn immediate_pause_resume_round_trip_is_neutral() {
    let mut sw = StopwatchState::new(1000);
    sw.toggle(1600);
    let before = sw.elapsed(1600);
    // Paused -> Running -> immediately Paused again, at the same instant.
    sw.toggle(2000);
    sw.toggle(2000);
    let after = sw.elapsed(2000);
    assert_eq!(before, after);
    assert_eq!(after, 600);
}

#[test]
fn resume_continues_from_accumulated_time() {
    let mut sw = StopwatchState::new(0);
    sw.toggle(500);
    sw.toggle(2000);
    assert_eq!(sw.elapsed(2300), 800);
}

#[test]
fn free_elapsed_matches_state_fields() {
    assert_eq!(elapsed_time(100, 40, false, 150), 90);
    assert_eq!(elapsed_time(100, 40, true, 150), 40);
}

#[test]
fn view_cycling_visits_every_table_before_repeating() {
    let table_count = 3;
    let mut offset = 0;
    let mut seen = vec![offset];
    for _ in 0..table_count - 1 {
        offset = next_ui_offset(offset, table_count);
        assert!(offset < table_count);
        assert!(!seen.contains(&offset));
        seen.push(offset);
    }
    assert_eq!(seen, vec![0, 1, 2]);
    assert_eq!(next_ui_offset(offset, table_count), 0);
}

#[test]
fn quit_event_shuts_down_exactly_once() {
    let mut state = SharedState::new(0);
    let events = vec![
        InputEvent::Char('x'),
        InputEvent::Char('q'),
        InputEvent::Char('\t'),
    ];
    let times = vec![10, 20, 30];
    state.process_events(&events, &times, 3);
    assert!(!state.running);
    assert_eq!(state.cleanup_calls, 1);
    // The cycle event after the quit was never processed.
    assert_eq!(state.ui_offset, 0);
}

#[test]
fn interrupt_key_also_quits() {
    let mut state = SharedState::new(0);
    let action = state.handle_event(InputEvent::Ctrl('c'), 5, 3);
    assert_eq!(action, InputAction::Quit);
    assert!(!state.running);
    assert_eq!(state.cleanup_calls, 1);
}

#[test]
fn pause_key_toggles_stopwatch_and_wakes_display() {
    let mut state = SharedState::new(0);
    let action = state.handle_event(InputEvent::Char(' '), 700, 3);
    assert_eq!(action, InputAction::WakeDisplay);
    assert!(state.running);
    assert!(state.stopwatch.paused);
    assert_eq!(state.stopwatch.elapsed(9999), 700);
    let action = state.handle_event(InputEvent::Char(' '), 1000, 3);
    assert_eq!(action, InputAction::WakeDisplay);
    assert!(!state.stopwatch.paused);
    assert_eq!(state.stopwatch.elapsed(1250), 950);
}

#[test]
fn cycle_key_advances_offset_and_other_keys_do_nothing() {
    let mut state = SharedState::new(0);
    let action = state.handle_event(InputEvent::Char('\t'), 0, 2);
    assert_eq!(action, InputAction::WakeDisplay);
    assert_eq!(state.ui_offset, 1);
    let action = state.handle_event(InputEvent::Char('\t'), 0, 2);
    assert_eq!(action, InputAction::WakeDisplay);
    assert_eq!(state.ui_offset, 0);
    let action = state.handle_event(InputEvent::Other, 0, 2);
    assert_eq!(action, InputAction::Ignore);
    assert!(state.running);
    assert_eq!(state.ui_offset, 0);
}
