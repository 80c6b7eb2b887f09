//! A button: a rectangle with a centered label, which lights up while the
//! pointer is over it.

use crate::drawing::{Color, GradientMode};
use crate::engine::{box_style, style_of_box, tree_children, tree_nodes, tree_style};
use crate::event::EventListener;
use crate::handle::{lemma_add, lemma_occupied_bound, Handle};
use crate::layout::{pixels, to_pixels, Layout, LayoutError, WidgetID};
use crate::renderers::text::{FontWeight, TextStyle};
use crate::transform_stack::Vec2;
use crate::widget::rectangle::{Rectangle, RectangleParams};
use crate::widget::text::{TextLabel, TextParams};
use crate::widget::Widget;
use vstd::prelude::*;

verus! {

/// How much brighter each channel of a button is while the pointer is over
/// it.
pub const HIGHLIGHT: u8 = 51;

/// Padding of a button's body, in pixels.
pub const BODY_PADDING: u8 = 1;

pub struct Params {
    pub text: String,
    pub color: Color,
    pub size: Vec2,
    pub text_style: TextStyle,
}

impl Default for Params {
    /// A white button of 128 by 32 pixels that says "Text".
    fn default() -> (params: Self)
        ensures
            params.color == (Color { r: 255, g: 255, b: 255, a: 255 }),
            params.size == (Vec2 { x: 128, y: 32 }),
            params.text_style == TextStyle::unset(),
    {
        Params {
            text: "Text".to_string(),
            color: Color::new(255, 255, 255, 255),
            size: Vec2 { x: 128, y: 32 },
            text_style: TextStyle::default(),
        }
    }
}

/// The parts of a button in the widget tree.
#[derive(Clone, Copy, PartialEq, Eq, Structural, Debug)]
pub struct Button {
    pub color: Color,
    /// The rectangle.
    pub body: WidgetID,
    /// The label.
    pub text_id: WidgetID,
}

/// Whether a label on `color` is set in white: on a color whose red, green
/// and blue add up to less than half of what they can.
pub open spec fn light_text(color: Color) -> bool {
    color.r + color.g + color.b < 383
}

/// The color of the label on a button of `color`: white on dark, black on
/// bright.
pub open spec fn label_color(color: Color) -> Color {
    if light_text(color) {
        Color { r: 255, g: 255, b: 255, a: 255 }
    } else {
        Color { r: 0, g: 0, b: 0, a: 255 }
    }
}

/// The style of a button's label: bold, in the color that shows on the
/// button, and else as asked for.
pub open spec fn label_style(color: Color, asked: TextStyle) -> TextStyle {
    TextStyle {
        size: asked.size,
        line_height: asked.line_height,
        color: Some(label_color(color)),
        style: asked.style,
        weight: Some(FontWeight::Bold),
        align: asked.align,
        wrap: asked.wrap,
    }
}

/// A channel made brighter by [`HIGHLIGHT`], up to the most it can hold.
pub open spec fn brighter(channel: u8) -> u8 {
    if channel + HIGHLIGHT > 255 {
        255
    } else {
        (channel + HIGHLIGHT) as u8
    }
}

fn brighten(channel: u8) -> (lit: u8)
    ensures
        lit == brighter(channel),
{
    if channel > 255 - HIGHLIGHT {
        255
    } else {
        channel + HIGHLIGHT
    }
}

impl Button {
    /// What the body looks like while the pointer is over it: brighter,
    /// inside a white border of one pixel.
    pub open spec fn highlighted(self, was: RectangleParams) -> RectangleParams {
        RectangleParams {
            color: Color {
                r: brighter(self.color.r),
                g: brighter(self.color.g),
                b: brighter(self.color.b),
                a: was.color.a,
            },
            color2: was.color2,
            gradient: was.gradient,
            border: 1,
            border_color: Color { r: 255, g: 255, b: 255, a: 255 },
            round: was.round,
        }
    }

    /// What the body looks like once the pointer has left: in the button's
    /// color, without border.
    pub open spec fn restored(self, was: RectangleParams) -> RectangleParams {
        RectangleParams {
            color: self.color,
            color2: was.color2,
            gradient: was.gradient,
            border: 0,
            border_color: was.border_color,
            round: was.round,
        }
    }

    /// Lights the body up: for the callback of the enter listener.
    pub fn on_mouse_enter(&self, rect: &mut Rectangle)
        ensures
            final(rect).params == self.highlighted(old(rect).params),
    {
        rect.params.color.r = brighten(self.color.r);
        rect.params.color.g = brighten(self.color.g);
        rect.params.color.b = brighten(self.color.b);
        rect.params.border_color = Color::new(255, 255, 255, 255);
        rect.params.border = 1;
    }

    /// Brings the body's color back: for the callback of the leave listener.
    pub fn on_mouse_leave(&self, rect: &mut Rectangle)
        ensures
            final(rect).params == self.restored(old(rect).params),
    {
        rect.params.color = self.color;
        rect.params.border = 0;
    }
}

/// The body that [`construct`] makes for a button of `color`.
pub open spec fn body_of(color: Color) -> Widget {
    Widget::Rectangle(
        Rectangle {
            params: RectangleParams {
                color,
                color2: Color { r: 0, g: 0, b: 0, a: 255 },
                gradient: GradientMode::Solid,
                border: 0,
                border_color: Color { r: 0, g: 0, b: 0, a: 255 },
                round: 0,
            },
        },
    )
}

/// Adds a button under `parent`: a rectangle of the asked size and color
/// that centers what is in it, and in it a bold label. The rectangle gets an enter listener for the
/// callback `on_enter` and a leave listener for the callback `on_leave`, in
/// this order. Fails, and changes nothing, if the parent handle is stale or
/// unknown.
pub fn construct(
    layout: &mut Layout,
    parent: WidgetID,
    params: Params,
    on_enter: u64,
    on_leave: u64,
) -> (made: Result<Button, LayoutError>)
    requires
        old(layout).wf(),
        old(layout).room_for(2),
    ensures
        final(layout).wf(),
        made is Ok <==> old(layout).widgets().live(parent),
        made is Err ==> made->Err_0 == LayoutError::InvalidParent && *final(layout) == *old(layout),
        made is Ok ==> {
            let button = made->Ok_0;
            let body = final(layout).widgets().get(button.body);
            let text = final(layout).widgets().get(button.text_id);
            let body_node = final(layout).node_of(button.body);
            let text_node = final(layout).node_of(button.text_id);
            let parent_node = old(layout).node_of(parent);
            &&& button.color == params.color
            &&& button.body == old(layout).widgets().next_handle()
            &&& button.body != button.text_id
            &&& !old(layout).widgets().live(button.body)
            &&& !old(layout).widgets().live(button.text_id)
            &&& final(layout).widgets().count() == old(layout).widgets().count() + 2
            &&& body is Some
            &&& body->0.obj == body_of(params.color)
            &&& body->0.event_listeners@ == seq![
                EventListener::MouseEnter(on_enter),
                EventListener::MouseLeave(on_leave),
            ]
            &&& !body->0.hovered && !body->0.pressed
            &&& text is Some
            &&& text->0.obj == Widget::Text(
                TextLabel {
                    params: TextParams {
                        content: params.text,
                        style: label_style(params.color, params.text_style),
                    },
                },
            )
            &&& text->0.event_listeners@.len() == 0
            &&& tree_nodes(final(layout).tree()) == tree_nodes(old(layout).tree()).insert(
                body_node,
            ).insert(text_node)
            &&& tree_children(final(layout).tree(), parent_node) == tree_children(
                old(layout).tree(),
                parent_node,
            ).push(body_node)
            &&& tree_children(final(layout).tree(), body_node) == seq![text_node]
            &&& tree_children(final(layout).tree(), text_node) == Seq::<u64>::empty()
            &&& tree_style(final(layout).tree(), body_node) == style_of_box(
                Some(pixels(params.size.x)),
                Some(pixels(params.size.y)),
                BODY_PADDING,
                true,
                true,
            )
            &&& tree_style(final(layout).tree(), text_node) == style_of_box(
                None,
                None,
                0,
                false,
                false,
            )
            &&& forall|other: Handle|
                old(layout).widgets().live(other) ==> final(layout).widgets().get(other) == old(
                    layout,
                ).widgets().get(other)
            &&& final(layout).root() == old(layout).root()
        },
{
    proof {
        if layout.widgets().live(parent) {
            layout.lemma_node_in_tree(parent);
        }
    }
    let width = to_pixels(params.size.x);
    let height = to_pixels(params.size.y);
    let ghost was = old(layout).widgets();
    let made = layout.add_child(
        parent,
        Rectangle::create(
            RectangleParams {
                color: params.color,
                color2: Color::new(0, 0, 0, 255),
                gradient: GradientMode::Solid,
                border: 0,
                border_color: Color::new(0, 0, 0, 255),
                round: 0,
            },
        ),
        box_style(Some(width), Some(height), BODY_PADDING, true, true),
    );
    let (rect_id, rect_node) = match made {
        Ok(pair) => pair,
        Err(e) => {
            return Err(e);
        },
    };
    let ghost mid = layout.widgets();
    let ghost mid_tree = layout.tree();
    proof {
        lemma_add(was, mid.get(rect_id)->0);
        lemma_occupied_bound(was.slots);
    }
    let light_text = (params.color.r as u16 + params.color.g as u16 + params.color.b as u16) < 383;
    let text_style = TextStyle {
        size: params.text_style.size,
        line_height: params.text_style.line_height,
        color: Some(
            if light_text {
                Color::new(255, 255, 255, 255)
            } else {
                Color::new(0, 0, 0, 255)
            },
        ),
        style: params.text_style.style,
        weight: Some(FontWeight::Bold),
        align: params.text_style.align,
        wrap: params.text_style.wrap,
    };
    let made = layout.add_child(
        rect_id,
        TextLabel::create(TextParams { content: params.text, style: text_style }),
        box_style(None, None, 0, false, false),
    );
    let (text_id, text_node) = match made {
        Ok(pair) => pair,
        Err(e) => {
            return Err(e);
        },
    };
    let ghost late = layout.widgets();
    proof {
        lemma_add(mid, late.get(text_id)->0);
        assert(tree_children(layout.tree(), rect_node) =~= seq![text_node]);
    }
    let button = Button { body: rect_id, color: params.color, text_id };
    match layout.add_event_listener(rect_id, EventListener::MouseEnter(on_enter)) {
        Ok(_) => {},
        Err(e) => {
            return Err(e);
        },
    }
    match layout.add_event_listener(rect_id, EventListener::MouseLeave(on_leave)) {
        Ok(_) => {},
        Err(e) => {
            return Err(e);
        },
    }
    proof {
        let body = layout.widgets().get(rect_id)->0;
        assert(body.event_listeners@ =~= seq![
            EventListener::MouseEnter(on_enter),
            EventListener::MouseLeave(on_leave),
        ]);
    }
    Ok(button)
}

} // verus!
