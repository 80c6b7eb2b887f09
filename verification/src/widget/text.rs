//! The text label widget.

use super::{DrawParams, DrawState, Widget, WidgetObj, WidgetState};
use crate::drawing::{Boundary, RenderPrimitive};
use crate::renderers::text::{RenderableText, TextStyle};
use vstd::prelude::*;

verus! {

#[derive(Debug)]
pub struct TextParams {
    pub content: String,
    pub style: TextStyle,
}

impl Default for TextParams {
    fn default() -> (params: Self)
        ensures
            params.content@ == Seq::<char>::empty(),
            params.style == TextStyle::unset(),
    {
        TextParams { content: String::new(), style: TextStyle::default() }
    }
}

#[derive(Debug)]
pub struct TextLabel {
    pub params: TextParams,
}

impl TextLabel {
    /// The state of a new label.
    pub fn create(params: TextParams) -> (state: WidgetState)
        ensures
            state.fresh(Widget::Text(TextLabel { params })),
            state.wf(),
    {
        WidgetState::new(Widget::Text(TextLabel { params }))
    }

    /// Replaces the label's text; the style stays.
    pub fn set_text(&mut self, text: &str)
        ensures
            final(self).params.content@ == text@,
            final(self).params.style == old(self).params.style,
    {
        self.params.content = text.to_owned();
    }
}

impl WidgetObj for TextLabel {
    /// One text over the whole boundary, with the label's content and style.
    open spec fn primitives(&self, boundary: Boundary) -> Seq<RenderPrimitive> {
        seq![
            RenderPrimitive::Text(
                boundary,
                RenderableText { content: self.params.content, style: self.params.style },
            ),
        ]
    }

    fn draw(&self, state: &mut DrawState, params: &DrawParams) {
        let boundary = Boundary::construct(&state.transform_stack);
        let renderable = RenderableText {
            content: self.params.content.clone(),
            style: self.params.style,
        };
        state.primitives.push(RenderPrimitive::Text(boundary, renderable));
        assert(state.primitives@ =~= old(state).primitives@ + self.primitives(boundary));
    }
}

} // verus!
