//! Pointer events, the test of a pointer against a transform, and the
//! listeners a widget can carry.

use crate::handle::Handle;
use crate::transform_stack::{Transform, Vec2};
use vstd::prelude::*;

verus! {

#[derive(Clone, Copy, PartialEq, Eq, Structural, Debug)]
pub struct MouseDownEvent {
    pub pos: Vec2,
}

#[derive(Clone, Copy, PartialEq, Eq, Structural, Debug)]
pub struct MouseMotionEvent {
    pub pos: Vec2,
}

#[derive(Clone, Copy, PartialEq, Eq, Structural, Debug)]
pub struct MouseUpEvent {
    pub pos: Vec2,
}

/// A turn of the wheel. `shift` counts wheel steps as a fraction: one step is
/// [`crate::units::UNIT`].
#[derive(Clone, Copy, PartialEq, Eq, Structural, Debug)]
pub struct MouseWheelEvent {
    pub pos: Vec2,
    pub shift: Vec2,
}

#[derive(Clone, Copy, PartialEq, Eq, Structural, Debug)]
pub enum Event {
    MouseDown(MouseDownEvent),
    MouseMotion(MouseMotionEvent),
    MouseUp(MouseUpEvent),
    MouseWheel(MouseWheelEvent),
}

/// Whether `pos` lies inside `transform`: the left and top edges belong to
/// it, the right and bottom edges do not.
pub open spec fn inside(transform: Transform, pos: Vec2) -> bool {
    &&& transform.pos.x <= pos.x < transform.pos.x + transform.dim.x
    &&& transform.pos.y <= pos.y < transform.pos.y + transform.dim.y
}

impl Event {
    /// Where the pointer was.
    pub open spec fn pointer(self) -> Vec2 {
        match self {
            Event::MouseDown(evt) => evt.pos,
            Event::MouseMotion(evt) => evt.pos,
            Event::MouseUp(evt) => evt.pos,
            Event::MouseWheel(evt) => evt.pos,
        }
    }

    /// Whether the pointer was inside `transform`.
    pub open spec fn hits(self, transform: Transform) -> bool {
        inside(transform, self.pointer())
    }

    fn test_transform_pos(&self, transform: &Transform, pos: &Vec2) -> (hit: bool)
        ensures
            hit == inside(*transform, *pos),
    {
        let left: i128 = transform.pos.x as i128;
        let top: i128 = transform.pos.y as i128;
        let right: i128 = left + transform.dim.x as i128;
        let bottom: i128 = top + transform.dim.y as i128;
        let x: i128 = pos.x as i128;
        let y: i128 = pos.y as i128;
        x >= left && x < right && y >= top && y < bottom
    }

    pub fn test_mouse_within_transform(&self, transform: &Transform) -> (hit: bool)
        ensures
            hit == self.hits(*transform),
    {
        match self {
            Event::MouseDown(evt) => self.test_transform_pos(transform, &evt.pos),
            Event::MouseMotion(evt) => self.test_transform_pos(transform, &evt.pos),
            Event::MouseUp(evt) => self.test_transform_pos(transform, &evt.pos),
            Event::MouseWheel(evt) => self.test_transform_pos(transform, &evt.pos),
        }
    }
}

/// What a widget's owner asked to be told of. Each listener names the
/// callback to run by a key of the owner's choosing.
#[derive(Clone, Copy, PartialEq, Eq, Structural, Debug)]
pub enum EventListener {
    MouseEnter(u64),
    MouseLeave(u64),
    MouseClick(u64),
}

impl EventListener {
    /// The key of the callback.
    pub open spec fn callback(self) -> u64 {
        match self {
            EventListener::MouseEnter(key) => key,
            EventListener::MouseLeave(key) => key,
            EventListener::MouseClick(key) => key,
        }
    }
}

/// One listener that fired: the callback to run, and the widget and layout
/// node it fired on.
#[derive(Clone, Copy, PartialEq, Eq, Structural, Debug)]
pub struct CallbackData {
    pub callback: u64,
    pub widget_id: Handle,
    pub node_id: u64,
}

} // verus!
