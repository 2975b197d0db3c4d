use heightmap::input::{Action, Event, State};

#[test]
fn nothing_is_held_at_first() {
    let state = State::new();
    assert!(!state.drag);
    assert!(!state.translate);
}

#[test]
fn pointer_motion_without_a_button_does_nothing() {
    let mut state = State::new();
    assert_eq!(state.handle_event(&Event::Motion { xrel: 5, yrel: -3 }), Action::Nothing);
    assert_eq!(state, State::new());
    state.handle_event(&Event::ShiftDown);
    assert_eq!(state.handle_event(&Event::Motion { xrel: 5, yrel: -3 }), Action::Nothing);
}

#[test]
fn dragging_orbits() {
    let mut state = State::new();
    assert_eq!(state.handle_event(&Event::ButtonDown), Action::Nothing);
    assert_eq!(state, State { drag: true, translate: false });
    assert_eq!(
        state.handle_event(&Event::Motion { xrel: 5, yrel: -3 }),
        Action::Orbit { dx: 5, dy: -3 }
    );
    assert_eq!(state, State { drag: true, translate: false });
    assert_eq!(state.handle_event(&Event::ButtonUp), Action::Nothing);
    assert_eq!(state, State::new());
    assert_eq!(state.handle_event(&Event::Motion { xrel: 5, yrel: -3 }), Action::Nothing);
}

#[test]
fn dragging_with_shift_pans() {
    let mut state = State::new();
    assert_eq!(state.handle_event(&Event::ShiftDown), Action::Nothing);
    assert_eq!(state, State { drag: false, translate: true });
    state.handle_event(&Event::ButtonDown);
    assert_eq!(state, State { drag: true, translate: true });
    assert_eq!(
        state.handle_event(&Event::Motion { xrel: i32::MIN, yrel: i32::MAX }),
        Action::Pan { dx: i32::MIN, dy: i32::MAX }
    );
    assert_eq!(state.handle_event(&Event::ShiftUp), Action::Nothing);
    assert_eq!(state, State { drag: true, translate: false });
    assert_eq!(
        state.handle_event(&Event::Motion { xrel: 1, yrel: 2 }),
        Action::Orbit { dx: 1, dy: 2 }
    );
}

#[test]
fn panning_there_and_back_asks_for_opposite_moves() {
    let mut state = State { drag: true, translate: true };
    let there = state.handle_event(&Event::Motion { xrel: 17, yrel: -4 });
    let back = state.handle_event(&Event::Motion { xrel: -17, yrel: 4 });
    assert_eq!(there, Action::Pan { dx: 17, dy: -4 });
    assert_eq!(back, Action::Pan { dx: -17, dy: 4 });
    assert_eq!(state, State { drag: true, translate: true });
}

#[test]
fn wheel_zooms_in_every_state() {
    for drag in [false, true] {
        for translate in [false, true] {
            let mut state = State { drag, translate };
            assert_eq!(state.handle_event(&Event::Wheel { y: 3 }), Action::Zoom { notches: 3 });
            assert_eq!(state.handle_event(&Event::Wheel { y: -1 }), Action::Zoom { notches: -1 });
            assert_eq!(state.handle_event(&Event::Wheel { y: 0 }), Action::Zoom { notches: 0 });
            assert_eq!(state, State { drag, translate });
        }
    }
}

#[test]
fn repeated_wheel_events_each_ask_for_the_same_zoom() {
    let mut state = State::new();
    let mut notches = 0i64;
    for _ in 0..25 {
        match state.handle_event(&Event::Wheel { y: 4 }) {
            Action::Zoom { notches: n } => notches += n as i64,
            other => panic!("unexpected action {other:?}"),
        }
    }
    assert_eq!(notches, 100);
}

#[test]
fn other_events_change_nothing() {
    for drag in [false, true] {
        for translate in [false, true] {
            let mut state = State { drag, translate };
            assert_eq!(state.handle_event(&Event::Other), Action::Nothing);
            assert_eq!(state, State { drag, translate });
        }
    }
}

#[test]
fn held_keys_and_buttons_may_repeat() {
    let mut state = State::new();
    state.handle_event(&Event::ShiftDown);
    state.handle_event(&Event::ShiftDown);
    assert_eq!(state, State { drag: false, translate: true });
    state.handle_event(&Event::ButtonUp);
    assert_eq!(state, State { drag: false, translate: true });
    state.handle_event(&Event::ShiftUp);
    state.handle_event(&Event::ShiftUp);
    assert_eq!(state, State::new());
}
