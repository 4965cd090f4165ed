//! A text layout and glyph rendering engine for a retained-mode UI toolkit.
//!
//! The engine measures, wraps, aligns and positions single-font, single-size,
//! left-to-right text inside widget bounds, and manages a GPU glyph atlas.
//! All distances are integer layout units (the host picks the unit, e.g. one
//! pixel or a fixed subpixel fraction); the host converts its floating-point
//! font metrics into these units before calling in.

pub mod cache;
pub mod drag;
pub mod font;
pub mod geom;
pub mod laws;
pub mod layout;
pub mod property;
pub mod style;
pub mod text;
pub mod widget_text;
pub mod wrap;
