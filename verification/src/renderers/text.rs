//! Text styles, and the text that a label hands to the backend.

use crate::drawing::Color;
use vstd::prelude::*;

verus! {

#[derive(Clone, Copy, PartialEq, Eq, Structural, Debug)]
pub enum FontStyle {
    Normal,
    Italic,
}

impl Default for FontStyle {
    fn default() -> (style: Self)
        ensures
            style == FontStyle::Normal,
    {
        FontStyle::Normal
    }
}

#[derive(Clone, Copy, PartialEq, Eq, Structural, Debug)]
pub enum FontWeight {
    Normal,
    Bold,
}

impl Default for FontWeight {
    fn default() -> (weight: Self)
        ensures
            weight == FontWeight::Normal,
    {
        FontWeight::Normal
    }
}

#[derive(Clone, Copy, PartialEq, Eq, Structural, Debug)]
pub enum HorizontalAlign {
    Left,
    Right,
    Center,
    Justified,
    End,
}

impl Default for HorizontalAlign {
    fn default() -> (align: Self)
        ensures
            align == HorizontalAlign::Left,
    {
        HorizontalAlign::Left
    }
}

/// The visible area of a text. Text outside of it is clipped.
#[derive(Clone, Copy, PartialEq, Eq, Structural, Debug)]
pub struct TextBounds {
    /// The position of the left edge of the visible area.
    pub left: i32,
    /// The position of the top edge of the visible area.
    pub top: i32,
    /// The position of the right edge of the visible area.
    pub right: i32,
    /// The position of the bottom edge of the visible area.
    pub bottom: i32,
}

impl Default for TextBounds {
    /// The default visible area clips nothing.
    fn default() -> (bounds: Self)
        ensures
            bounds.left == i32::MIN,
            bounds.top == i32::MIN,
            bounds.right == i32::MAX,
            bounds.bottom == i32::MAX,
    {
        TextBounds { left: i32::MIN, top: i32::MIN, right: i32::MAX, bottom: i32::MAX }
    }
}

/// How a text is set. Sizes are fractions of a pixel, in
/// [`crate::units::UNIT`]; what is `None` is left to the backend.
#[derive(Clone, Copy, PartialEq, Eq, Structural, Debug)]
pub struct TextStyle {
    pub size: Option<i64>,
    pub line_height: Option<i64>,
    pub color: Option<Color>,
    pub style: Option<FontStyle>,
    pub weight: Option<FontWeight>,
    pub align: Option<HorizontalAlign>,
    pub wrap: bool,
}

impl Default for TextStyle {
    fn default() -> (style: Self)
        ensures
            style == TextStyle::unset(),
    {
        TextStyle {
            size: None,
            line_height: None,
            color: None,
            style: None,
            weight: None,
            align: None,
            wrap: false,
        }
    }
}

impl TextStyle {
    /// The style that sets nothing.
    pub open spec fn unset() -> TextStyle {
        TextStyle {
            size: None,
            line_height: None,
            color: None,
            style: None,
            weight: None,
            align: None,
            wrap: false,
        }
    }
}

/// A text ready for the backend to shape: its content and its style.
#[derive(Debug)]
pub struct RenderableText {
    pub content: String,
    pub style: TextStyle,
}

impl RenderableText {
    /// A text of one style over its whole length.
    pub fn new(content: &str, style: &TextStyle) -> (text: Self)
        ensures
            text.content@ == content@,
            text.style == *style,
    {
        RenderableText { content: content.to_string(), style: *style }
    }
}

} // verus!
