//! A small CSS-like rendering pipeline: style resolution, block layout and
//! painting of a document tree into a backend-agnostic display list.

pub mod assoc;
pub mod canvas;
pub mod css;
pub mod css_parser;
pub mod dom;
pub mod encoding;
pub mod parse_state;
pub mod geometry;
pub mod html_parser;
pub mod layout;
pub mod paint;
pub mod style;
pub mod text;
