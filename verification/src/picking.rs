//! Picking meshes with the mouse: which buttons are held, and when a click picks.
use vstd::prelude::*;
use crate::render::buffer::BufferLocation;

verus! {

/// A request to the picking part.
#[derive(Debug)]
pub enum PickingEvent {
    Pick,
}

/// The mouse buttons that picking tells apart.
#[derive(Debug, Clone, Copy, PartialEq, Eq, Structural)]
pub enum PointerButton {
    Left,
    Right,
    Other,
}

/// Which mouse buttons are held down for dragging.
#[derive(Debug, Clone, Copy, PartialEq, Eq, Structural)]
pub struct PickingState {
    is_drag_left: bool,
    is_drag_right: bool,
}


impl PickingState {
    pub closed spec fn drag_left(&self) -> bool {
        self.is_drag_left
    }

    pub closed spec fn drag_right(&self) -> bool {
        self.is_drag_right
    }

    /// No button held.
    pub fn new() -> (r: Self)
        ensures
            !r.drag_left(),
            !r.drag_right(),
    {
        PickingState { is_drag_left: false, is_drag_right: false }
    }

    pub fn is_drag_left(&self) -> (r: bool)
        ensures
            r == self.drag_left(),
    {
        self.is_drag_left
    }

    pub fn is_drag_right(&self) -> (r: bool)
        ensures
            r == self.drag_right(),
    {
        self.is_drag_right
    }

    /// Takes a mouse button being pressed or released. While the pointer is over the user
    /// interface the button only changes the drag flags. Otherwise nothing happens before
    /// the camera is known; once it is, a press picks when the mouse position is known, and
    /// the button changes the drag flags. The result says whether to pick.
    pub fn handle_mouse_input(
        &mut self,
        button: PointerButton,
        pressed: bool,
        pointer_in_use: bool,
        camera_known: bool,
        position_known: bool,
    ) -> (pick: bool)
        ensures
            pick == (!pointer_in_use && camera_known && pressed && position_known),
            final(self).drag_left() == if (pointer_in_use || camera_known) && button
                == PointerButton::Left {
                pressed
            } else {
                old(self).drag_left()
            },
            final(self).drag_right() == if (pointer_in_use || camera_known) && button
                == PointerButton::Right {
                pressed
            } else {
                old(self).drag_right()
            },
    {
        if !pointer_in_use {
            if camera_known {
                let pick = pressed && position_known;
                self.set_pressed(button, pressed);
                pick
            } else {
                false
            }
        } else {
            self.set_pressed(button, pressed);
            false
        }
    }

    fn set_pressed(&mut self, button: PointerButton, pressed: bool)
        ensures
            final(self).drag_left() == if button == PointerButton::Left {
                pressed
            } else {
                old(self).drag_left()
            },
            final(self).drag_right() == if button == PointerButton::Right {
                pressed
            } else {
                old(self).drag_right()
            },
    {
        match button {
            PointerButton::Left => {
                self.is_drag_left = pressed;
            },
            PointerButton::Right => {
                self.is_drag_right = pressed;
            },
            PointerButton::Other => {},
        }
    }

    /// Which drags a mouse motion reports, left and right: those of the held buttons,
    /// and none while the pointer is over the user interface.
    pub fn drags_on_motion(&self, pointer_in_use: bool) -> (r: (bool, bool))
        ensures
            r == (!pointer_in_use && self.drag_left(), !pointer_in_use && self.drag_right()),
    {
        (!pointer_in_use && self.is_drag_left, !pointer_in_use && self.is_drag_right)
    }
}

/// A mesh that can be picked: where it lies in a buffer, the box it is hit in, and the
/// context that handles its interaction.
#[derive(Debug)]
pub struct InteractiveMesh<B, C> {
    location: BufferLocation,
    raw_box: B,
    context: C,
}

} // verus!
