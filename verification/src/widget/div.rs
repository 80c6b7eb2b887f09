//! The container widget: it groups its children and draws nothing.

use super::{DrawParams, DrawState, Widget, WidgetObj, WidgetState};
use crate::drawing::{Boundary, RenderPrimitive};
use vstd::prelude::*;

verus! {

#[derive(Clone, Copy, PartialEq, Eq, Structural, Debug)]
pub struct Div {}

impl Div {
    pub fn new() -> (div: Self)
        ensures
            div == (Div {  }),
    {
        Div {  }
    }

    /// The state of a new container.
    pub fn create() -> (state: WidgetState)
        ensures
            state.fresh(Widget::Div(Div {  })),
            state.wf(),
    {
        WidgetState::new(Widget::Div(Div {  }))
    }
}

impl WidgetObj for Div {
    open spec fn primitives(&self, boundary: Boundary) -> Seq<RenderPrimitive> {
        Seq::empty()
    }

    fn draw(&self, state: &mut DrawState, params: &DrawParams) {
    }
}

} // verus!
