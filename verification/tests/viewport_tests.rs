use bayer_dither::viewport::{
    drain_events, EventOutcome, InputEvent, LoopState, ViewState, DEFAULT_LEVEL, ZOOM_STEP,
};

#[test]
fn initial_state_defaults() {
    let s = ViewState::new();
    assert_eq!(s.zoom, 0);
    assert_eq!(s.level, DEFAULT_LEVEL);
    assert_eq!(s.darkness, 0);
    assert!(!s.inverted);
}

#[test]
fn zoom_in_adds_the_step() {
    let mut s = ViewState::new();
    assert_eq!(s.apply_event(InputEvent::ZoomIn), EventOutcome::Handled);
    assert_eq!(s.zoom, ZOOM_STEP);
    s.apply_event(InputEvent::ZoomIn);
    assert_eq!(s.zoom, 2 * ZOOM_STEP);
}

#[test]
fn zoom_out_below_zero_is_a_no_op() {
    let mut s = ViewState::new();
    s.apply_event(InputEvent::ZoomOut);
    assert_eq!(s.zoom, 0);
    // A zoom smaller than the step is left untouched, not clamped to zero.
    s.zoom = ZOOM_STEP - 1;
    s.apply_event(InputEvent::ZoomOut);
    assert_eq!(s.zoom, ZOOM_STEP - 1);
    s.zoom = ZOOM_STEP;
    s.apply_event(InputEvent::ZoomOut);
    assert_eq!(s.zoom, 0);
}

#[test]
fn wheel_scroll_is_proportional_with_the_same_floor() {
    let mut s = ViewState::new();
    s.apply_event(InputEvent::Wheel(3));
    assert_eq!(s.zoom, 3 * ZOOM_STEP);
    s.apply_event(InputEvent::Wheel(-2));
    assert_eq!(s.zoom, ZOOM_STEP);
    // A notch that would take the zoom negative changes nothing.
    s.apply_event(InputEvent::Wheel(-100));
    assert_eq!(s.zoom, ZOOM_STEP);
}

#[test]
fn darkness_steps_by_hundredths() {
    let mut s = ViewState::new();
    s.apply_event(InputEvent::DarknessUp);
    s.apply_event(InputEvent::DarknessUp);
    assert_eq!(s.darkness, 2);
    s.apply_event(InputEvent::DarknessDown);
    assert_eq!(s.darkness, 1);
    // Darkness is unbounded below zero.
    s.apply_event(InputEvent::DarknessDown);
    s.apply_event(InputEvent::DarknessDown);
    assert_eq!(s.darkness, -1);
}

#[test]
fn toggle_invert_flips() {
    let mut s = ViewState::new();
    s.apply_event(InputEvent::ToggleInvert);
    assert!(s.inverted);
    s.apply_event(InputEvent::ToggleInvert);
    assert!(!s.inverted);
}

#[test]
fn select_level_sets_directly() {
    let mut s = ViewState::new();
    s.apply_event(InputEvent::SelectLevel(3));
    assert_eq!(s.level, 3);
    s.apply_event(InputEvent::SelectLevel(1));
    assert_eq!(s.level, 1);
}

#[test]
fn reset_restores_defaults_but_keeps_inversion() {
    let mut s = ViewState::new();
    s.apply_event(InputEvent::ToggleInvert);
    s.apply_event(InputEvent::SelectLevel(3));
    s.apply_event(InputEvent::ZoomIn);
    s.apply_event(InputEvent::DarknessUp);
    s.apply_event(InputEvent::Reset);
    assert_eq!(s.zoom, 0);
    assert_eq!(s.level, DEFAULT_LEVEL);
    assert_eq!(s.darkness, 0);
    assert!(s.inverted);
}

#[test]
fn save_and_quit_leave_the_state_alone() {
    let mut s = ViewState::new();
    assert_eq!(s.apply_event(InputEvent::Save), EventOutcome::SaveRequested);
    assert_eq!(s.apply_event(InputEvent::Quit), EventOutcome::QuitRequested);
    assert_eq!(s, ViewState::new());
}

#[test]
fn drain_applies_in_order_and_reports_save() {
    let mut s = ViewState::new();
    let events = vec![
        InputEvent::DarknessUp,
        InputEvent::Save,
        InputEvent::ZoomIn,
    ];
    let (loop_state, save) = drain_events(&mut s, &events);
    assert_eq!(loop_state, LoopState::Running);
    assert!(save);
    assert_eq!(s.darkness, 1);
    assert_eq!(s.zoom, ZOOM_STEP);
}

#[test]
fn quit_discards_the_rest_of_the_queue() {
    let mut s = ViewState::new();
    let events = vec![
        InputEvent::DarknessUp,
        InputEvent::Save,
        InputEvent::Quit,
        InputEvent::DarknessUp,
        InputEvent::ZoomIn,
    ];
    let (loop_state, save) = drain_events(&mut s, &events);
    assert_eq!(loop_state, LoopState::Quitting);
    // The pending save dies with the frame that is never rendered.
    assert!(!save);
    assert_eq!(s.darkness, 1);
    assert_eq!(s.zoom, 0);
}

#[test]
fn empty_queue_keeps_running() {
    let mut s = ViewState::new();
    let (loop_state, save) = drain_events(&mut s, &Vec::new());
    assert_eq!(loop_state, LoopState::Running);
    assert!(!save);
    assert_eq!(s, ViewState::new());
}
