//! A strict decimal parser for signed 32-bit integers.
//!
//! The library exposes one conversion routine, [`parser::parse_int`], which
//! decides whether a character sequence is a valid signed decimal literal in
//! the `i32` range and, when it is not, reports where and on which character
//! validation first failed.  [`render::format_int`] is the matching formatter,
//! and the round trip between the two is proved.

pub mod model;
pub mod parser;
pub mod render;
