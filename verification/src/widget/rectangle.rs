//! The rectangle widget.

use super::{DrawParams, DrawState, Widget, WidgetObj, WidgetState};
use crate::drawing;
use crate::drawing::{Boundary, Color, GradientMode, RenderPrimitive};
use vstd::prelude::*;

verus! {

/// How a rectangle widget looks. `border` is a width in pixels, `round` a
/// fraction in [`crate::units::UNIT`].
#[derive(Clone, Copy, PartialEq, Eq, Structural, Debug)]
pub struct RectangleParams {
    pub color: Color,
    pub color2: Color,
    pub gradient: GradientMode,
    pub border: i64,
    pub border_color: Color,
    pub round: i64,
}

impl RectangleParams {
    /// What the backend is told to draw.
    pub open spec fn shape(self) -> drawing::Rectangle {
        drawing::Rectangle {
            color: self.color,
            color2: self.color2,
            gradient: self.gradient,
            border: self.border,
            border_color: self.border_color,
            round: self.round,
        }
    }
}

impl Default for RectangleParams {
    /// Opaque black, without gradient, border or rounding.
    fn default() -> (params: Self)
        ensures
            params.shape() == drawing::Rectangle::plain(),
    {
        RectangleParams {
            color: Color::new(0, 0, 0, 255),
            color2: Color::new(0, 0, 0, 255),
            gradient: GradientMode::Solid,
            border: 0,
            border_color: Color::new(0, 0, 0, 255),
            round: 0,
        }
    }
}

#[derive(Clone, Copy, PartialEq, Eq, Structural, Debug)]
pub struct Rectangle {
    pub params: RectangleParams,
}

impl Rectangle {
    pub fn new(params: RectangleParams) -> (rect: Self)
        ensures
            rect.params == params,
    {
        Rectangle { params }
    }

    /// The state of a new rectangle widget.
    pub fn create(params: RectangleParams) -> (state: WidgetState)
        ensures
            state.fresh(Widget::Rectangle(Rectangle { params })),
            state.wf(),
    {
        WidgetState::new(Widget::Rectangle(Rectangle { params }))
    }
}

impl WidgetObj for Rectangle {
    /// One rectangle over the whole boundary.
    open spec fn primitives(&self, boundary: Boundary) -> Seq<RenderPrimitive> {
        seq![RenderPrimitive::Rectangle(boundary, self.params.shape())]
    }

    fn draw(&self, state: &mut DrawState, params: &DrawParams) {
        let boundary = Boundary::construct(&state.transform_stack);
        state.primitives.push(
            RenderPrimitive::Rectangle(
                boundary,
                drawing::Rectangle {
                    color: self.params.color,
                    color2: self.params.color2,
                    gradient: self.params.gradient,
                    border: self.params.border,
                    border_color: self.params.border_color,
                    round: self.params.round,
                },
            ),
        );
        assert(state.primitives@ =~= old(state).primitives@ + self.primitives(boundary));
    }
}

} // verus!
