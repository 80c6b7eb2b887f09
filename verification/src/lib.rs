//! Core of a retained-mode UI toolkit: a generational arena of widgets, a
//! widget tree laid out by a flex layout engine, pointer-event dispatch and
//! the traversal that emits draw primitives.

pub mod components;
pub mod dispatch;
pub mod drawing;
pub mod engine;
pub mod event;
pub mod handle;
pub mod layout;
pub mod parser;
pub mod renderers;
pub mod time;
pub mod transform_stack;
pub mod units;
pub mod widget;
