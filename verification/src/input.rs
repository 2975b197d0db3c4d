//! What pointer and keyboard input asks of the camera.
//!
//! The camera orbits while the pointer is dragged, pans while it is dragged
//! with a shift key held, and zooms with the wheel. Which of these an event
//! means depends on two flags only; the arithmetic on angles and scale is the
//! caller's.

use vstd::prelude::*;

verus! {

/// An input event, reduced to what the camera reads of it.
#[derive(Clone, Copy, Debug, PartialEq, Eq)]
pub enum Event {
    /// A shift key went down.
    ShiftDown,
    /// A shift key came up.
    ShiftUp,
    /// A pointer button went down.
    ButtonDown,
    /// A pointer button came up.
    ButtonUp,
    /// The wheel turned by `y` notches.
    Wheel { y: i32 },
    /// The pointer moved by `xrel` and `yrel` pixels.
    Motion { xrel: i32, yrel: i32 },
    /// Anything else.
    Other,
}

/// What the camera is to do about an event.
#[derive(Clone, Copy, Debug, PartialEq, Eq)]
pub enum Action {
    /// Nothing.
    Nothing,
    /// Scale the view by one zoom factor for each of `notches`.
    Zoom { notches: i32 },
    /// Move the centre so that the terrain follows the pointer by `dx` and
    /// `dy` pixels.
    Pan { dx: i32, dy: i32 },
    /// Turn by `dx` pixels' worth of yaw and `dy` pixels' worth of pitch.
    Orbit { dx: i32, dy: i32 },
}

/// The flags that outlast an event.
#[derive(Clone, Copy, Debug, PartialEq, Eq)]
pub struct State {
    /// A pointer button is held.
    pub drag: bool,
    /// A shift key is held: dragging pans.
    pub translate: bool,
}

impl State {
    /// The flags after `event`.
    pub open spec fn after(self, event: Event) -> State {
        match event {
            Event::ShiftDown => State { drag: self.drag, translate: true },
            Event::ShiftUp => State { drag: self.drag, translate: false },
            Event::ButtonDown => State { drag: true, translate: self.translate },
            Event::ButtonUp => State { drag: false, translate: self.translate },
            _ => self,
        }
    }

    /// What `event` asks of the camera in this state.
    pub open spec fn action(self, event: Event) -> Action {
        match event {
            Event::Wheel { y } => Action::Zoom { notches: y },
            Event::Motion { xrel, yrel } => if !self.drag {
                Action::Nothing
            } else if self.translate {
                Action::Pan { dx: xrel, dy: yrel }
            } else {
                Action::Orbit { dx: xrel, dy: yrel }
            },
            _ => Action::Nothing,
        }
    }

    /// No button and no shift key held.
    pub fn new() -> (state: State)
        ensures
            !state.drag,
            !state.translate,
    {
        State { drag: false, translate: false }
    }

    /// Takes in one event: updates the flags and says what the camera is to
    /// do.
    pub fn handle_event(&mut self, event: &Event) -> (action: Action)
        ensures
            *final(self) == old(self).after(*event),
            action == old(self).action(*event),
    {
        match *event {
            Event::ShiftDown => {
                self.translate = true;
                Action::Nothing
            },
            Event::ShiftUp => {
                self.translate = false;
                Action::Nothing
            },
            Event::ButtonDown => {
                self.drag = true;
                Action::Nothing
            },
            Event::ButtonUp => {
                self.drag = false;
                Action::Nothing
            },
            Event::Wheel { y } => Action::Zoom { notches: y },
            Event::Motion { xrel, yrel } => {
                if !self.drag {
                    Action::Nothing
                } else if self.translate {
                    Action::Pan { dx: xrel, dy: yrel }
                } else {
                    Action::Orbit { dx: xrel, dy: yrel }
                }
            },
            Event::Other => Action::Nothing,
        }
    }
}

} // verus!
