//! What the rendering backend shares with the core: text styles and the
//! kinds of glyph atlas.

pub mod text;
pub mod text_atlas;
