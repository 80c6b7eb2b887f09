//! The kinds of glyph atlas.

use vstd::prelude::*;

verus! {

/// What a glyph's pixels hold.
#[derive(Clone, Copy, PartialEq, Eq, Structural, Debug)]
pub enum ContentType {
    Color,
    Mask,
}

/// The kind of an atlas: coverage masks, or colored glyphs in sRGB or in
/// linear RGB.
#[derive(Clone, Copy, PartialEq, Eq, Structural, Debug)]
pub enum Kind {
    Mask,
    Color { srgb: bool },
}

impl Kind {
    /// Channels per pixel: one for a mask, four for color.
    pub fn num_channels(self) -> (n: usize)
        ensures
            n == match self {
                Kind::Mask => 1usize,
                Kind::Color { .. } => 4usize,
            },
    {
        match self {
            Kind::Mask => 1,
            Kind::Color { .. } => 4,
        }
    }

    pub fn as_content_type(&self) -> (content: ContentType)
        ensures
            content == match *self {
                Kind::Mask => ContentType::Mask,
                Kind::Color { .. } => ContentType::Color,
            },
    {
        match self {
            Kind::Mask => ContentType::Mask,
            Kind::Color { .. } => ContentType::Color,
        }
    }
}

/// The color mode of a text atlas.
#[derive(Clone, Copy, PartialEq, Eq, Structural, Debug)]
pub enum ColorMode {
    /// Accurate color management: colored glyphs live in an sRGB texture,
    /// and blending is physically accurate.
    Accurate,
    /// Web color management: sRGB colors live in a linear RGB texture, as
    /// browsers do it.
    Web,
}

impl ColorMode {
    /// The kind of the color atlas under this mode.
    pub fn color_kind(self) -> (kind: Kind)
        ensures
            kind == (Kind::Color { srgb: self == ColorMode::Accurate }),
    {
        match self {
            ColorMode::Accurate => Kind::Color { srgb: true },
            ColorMode::Web => Kind::Color { srgb: false },
        }
    }
}

} // verus!
