//! What the pointer is doing: whether the cursor is free for the game and
//! whether the button is held down.

use vstd::prelude::*;

verus! {

/// What can happen to the pointer.
#[derive(Clone, Copy, Debug, PartialEq, Eq, Structural)]
pub enum PointerEvent {
    /// Something else has taken the cursor.
    CursorTaken,
    /// The cursor is free again.
    CursorReturned,
    /// The left button went down.
    Pressed,
    /// The left button came up.
    Released,
}

/// State of the pointer.
#[derive(Clone, Copy, Debug, PartialEq, Eq, Structural)]
pub struct PointerState {
    pub is_cursor_taken: bool,
    pub is_mouse_pressed: bool,
}

impl PointerState {
    /// The state after `event`. A press counts only while the cursor is
    /// free; a release always lets go.
    pub open spec fn after(self, event: PointerEvent) -> PointerState {
        match event {
            PointerEvent::CursorTaken => PointerState { is_cursor_taken: true, ..self },
            PointerEvent::CursorReturned => PointerState { is_cursor_taken: false, ..self },
            PointerEvent::Pressed => PointerState {
                is_mouse_pressed: !self.is_cursor_taken,
                ..self
            },
            PointerEvent::Released => PointerState { is_mouse_pressed: false, ..self },
        }
    }

    /// Whether `event` completes a click: a release of a button that was
    /// held, while the cursor is free.
    pub open spec fn clicks(self, event: PointerEvent) -> bool {
        event == PointerEvent::Released && !self.is_cursor_taken && self.is_mouse_pressed
    }

    /// A free cursor, the button up.
    pub fn new() -> (s: PointerState)
        ensures
            s == (PointerState { is_cursor_taken: false, is_mouse_pressed: false }),
    {
        PointerState { is_cursor_taken: false, is_mouse_pressed: false }
    }

    /// Takes `event` in and tells whether it completes a click.
    pub fn update(&mut self, event: PointerEvent) -> (click: bool)
        ensures
            *final(self) == old(self).after(event),
            click == old(self).clicks(event),
    {
        match event {
            PointerEvent::CursorTaken => {
                self.is_cursor_taken = true;
                false
            },
            PointerEvent::CursorReturned => {
                self.is_cursor_taken = false;
                false
            },
            PointerEvent::Pressed => {
                self.is_mouse_pressed = !self.is_cursor_taken;
                false
            },
            PointerEvent::Released => {
                let click = !self.is_cursor_taken && self.is_mouse_pressed;
                self.is_mouse_pressed = false;
                click
            },
        }
    }

    /// Whether something else has the cursor.
    pub fn is_cursor_taken(&self) -> (b: bool)
        ensures
            b == self.is_cursor_taken,
    {
        self.is_cursor_taken
    }
}

} // verus!
