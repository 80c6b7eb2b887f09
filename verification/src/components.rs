//! Widgets made of other widgets.

pub mod button;
