//! Interactive viewer state and the input-to-state transition rules: zoom
//! steps with a lower bound of zero, darkness steps in hundredths, detail
//! level selection, inversion, reset, and the save and quit signals.

use vstd::prelude::*;

verus! {

/// Zoom change of one key press, and per notch of wheel scroll.
pub const ZOOM_STEP: u32 = 4;

/// Default detail level: selects the 4x4 matrix.
pub const DEFAULT_LEVEL: i32 = 2;

/// The live viewer state. `zoom` is the crop accumulator, never negative;
/// `darkness` counts hundredths of the threshold bias and is unbounded;
/// `level` is the requested detail level (out-of-range values fall back to
/// the default matrix at lookup time).
#[derive(Clone, Copy, PartialEq, Eq, Structural, Debug)]
pub struct ViewState {
    pub zoom: u32,
    pub level: i32,
    pub darkness: i32,
    pub inverted: bool,
}

/// One discrete input, already freed of any key or button names.
#[derive(Clone, Copy, PartialEq, Eq, Structural, Debug)]
pub enum InputEvent {
    ZoomIn,
    ZoomOut,
    Wheel(i32),
    DarknessUp,
    DarknessDown,
    ToggleInvert,
    Reset,
    SelectLevel(i32),
    Save,
    Quit,
}

/// What one event asks of the frame loop beyond the state change.
#[derive(Clone, Copy, PartialEq, Eq, Structural, Debug)]
pub enum EventOutcome {
    Handled,
    SaveRequested,
    QuitRequested,
}

/// The two states of the frame loop.
#[derive(Clone, Copy, PartialEq, Eq, Structural, Debug)]
pub enum LoopState {
    Running,
    Quitting,
}

/// The state after one event. Zoom never drops below zero: a step or
/// wheel delta that would take it negative is a no-op, as is one that
/// would leave `u32` (or `i32` for darkness) at the top.
pub open spec fn step_spec(s: ViewState, e: InputEvent) -> ViewState {
    match e {
        InputEvent::ZoomIn => if s.zoom + ZOOM_STEP <= u32::MAX {
            ViewState { zoom: (s.zoom + ZOOM_STEP) as u32, ..s }
        } else {
            s
        },
        InputEvent::ZoomOut => if s.zoom >= ZOOM_STEP {
            ViewState { zoom: (s.zoom - ZOOM_STEP) as u32, ..s }
        } else {
            s
        },
        InputEvent::Wheel(dy) => {
            let nz = s.zoom + (ZOOM_STEP as int) * (dy as int);
            if 0 <= nz <= u32::MAX {
                ViewState { zoom: nz as u32, ..s }
            } else {
                s
            }
        },
        InputEvent::DarknessUp => if s.darkness < i32::MAX {
            ViewState { darkness: (s.darkness + 1) as i32, ..s }
        } else {
            s
        },
        InputEvent::DarknessDown => if s.darkness > i32::MIN {
            ViewState { darkness: (s.darkness - 1) as i32, ..s }
        } else {
            s
        },
        InputEvent::ToggleInvert => ViewState { inverted: !s.inverted, ..s },
        InputEvent::Reset => ViewState {
            zoom: 0,
            level: DEFAULT_LEVEL,
            darkness: 0,
            inverted: s.inverted,
        },
        InputEvent::SelectLevel(n) => ViewState { level: n, ..s },
        InputEvent::Save => s,
        InputEvent::Quit => s,
    }
}

/// The request an event carries: save the frame, quit, or nothing more.
pub open spec fn outcome_spec(e: InputEvent) -> EventOutcome {
    match e {
        InputEvent::Save => EventOutcome::SaveRequested,
        InputEvent::Quit => EventOutcome::QuitRequested,
        _ => EventOutcome::Handled,
    }
}

/// Folds a queue of events into the state, as one frame of the loop does:
/// events apply in order until a quit, which discards the rest of the
/// queue along with any pending save request.
pub open spec fn drain_spec(
    s: ViewState,
    evs: Seq<InputEvent>,
    save: bool,
) -> (ViewState, LoopState, bool)
    decreases evs.len(),
{
    if evs.len() == 0 {
        (s, LoopState::Running, save)
    } else {
        match evs[0] {
            InputEvent::Quit => (s, LoopState::Quitting, false),
            e => drain_spec(
                step_spec(s, e),
                evs.drop_first(),
                save || e == InputEvent::Save,
            ),
        }
    }
}

impl ViewState {
    /// The state a session starts in: no zoom, default level, no darkness
    /// bias, not inverted.
    pub fn new() -> (s: ViewState)
        ensures
            s == (ViewState { zoom: 0, level: DEFAULT_LEVEL, darkness: 0, inverted: false }),
    {
        ViewState { zoom: 0, level: DEFAULT_LEVEL, darkness: 0, inverted: false }
    }

    /// Applies one event and reports what it asks of the frame loop.
    pub fn apply_event(&mut self, e: InputEvent) -> (r: EventOutcome)
        ensures
            *final(self) == step_spec(*old(self), e),
            r == outcome_spec(e),
    {
        match e {
            InputEvent::ZoomIn => {
                if self.zoom <= u32::MAX - ZOOM_STEP {
                    self.zoom = self.zoom + ZOOM_STEP;
                }
                EventOutcome::Handled
            },
            InputEvent::ZoomOut => {
                if self.zoom >= ZOOM_STEP {
                    self.zoom = self.zoom - ZOOM_STEP;
                }
                EventOutcome::Handled
            },
            InputEvent::Wheel(dy) => {
                let step: i64 = ZOOM_STEP as i64;
                proof {
                    assert(step == 4);
                }
                let nz: i64 = (self.zoom as i64) + step * (dy as i64);
                if 0 <= nz && nz <= u32::MAX as i64 {
                    self.zoom = nz as u32;
                }
                EventOutcome::Handled
            },
            InputEvent::DarknessUp => {
                if self.darkness < i32::MAX {
                    self.darkness = self.darkness + 1;
                }
                EventOutcome::Handled
            },
            InputEvent::DarknessDown => {
                if self.darkness > i32::MIN {
                    self.darkness = self.darkness - 1;
                }
                EventOutcome::Handled
            },
            InputEvent::ToggleInvert => {
                self.inverted = !self.inverted;
                EventOutcome::Handled
            },
            InputEvent::Reset => {
                self.zoom = 0;
                self.level = DEFAULT_LEVEL;
                self.darkness = 0;
                EventOutcome::Handled
            },
            InputEvent::SelectLevel(n) => {
                self.level = n;
                EventOutcome::Handled
            },
            InputEvent::Save => EventOutcome::SaveRequested,
            InputEvent::Quit => EventOutcome::QuitRequested,
        }
    }
}

/// Applies a frame's queued events in order. Returns whether the loop
/// keeps running and whether this frame is to be saved; a quit event
/// discards the rest of the queue and any pending save request.
#[verifier::loop_isolation(false)]
pub fn drain_events(state: &mut ViewState, events: &Vec<InputEvent>) -> (r: (LoopState, bool))
    ensures
        ({
            let folded = drain_spec(*old(state), events@, false);
            &&& *final(state) == folded.0
            &&& r.0 == folded.1
            &&& r.1 == folded.2
        }),
{
    let ghost target = drain_spec(*old(state), events@, false);
    let mut save = false;
    let mut i: usize = 0;
    let n = events.len();
    proof {
        assert(events@.skip(0) =~= events@);
    }
    while i < n
        invariant
            n == events@.len(),
            i <= n,
            drain_spec(*state, events@.skip(i as int), save) == target,
        decreases n - i,
    {
        proof {
            assert(events@.skip(i as int)[0] == events@[i as int]);
            assert(events@.skip(i as int).drop_first() =~= events@.skip(i + 1 as int));
        }
        let ev = events[i];
        let ghost pre = *state;
        let outcome = state.apply_event(ev);
        match outcome {
            EventOutcome::QuitRequested => {
                proof {
                    assert(ev == InputEvent::Quit);
                    assert(target == (pre, LoopState::Quitting, false));
                    assert(*state == pre);
                }
                return (LoopState::Quitting, false);
            },
            EventOutcome::SaveRequested => {
                save = true;
            },
            EventOutcome::Handled => {},
        }
        i = i + 1;
    }
    proof {
        assert(events@.skip(n as int).len() == 0);
    }
    (LoopState::Running, save)
}

} // verus!
