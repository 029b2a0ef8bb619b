//! Fly-in text animation for a terminal.
//!
//! A line of text is laid out into display columns, one entry per column.
//! For a frame index, every glyph is then given a column: far to the right
//! when its animation starts, and eased with a cubic curve into the column
//! where it rests. Time is kept in millionths of the animation's unit, so
//! every position is the result of exact integer arithmetic.

pub mod layout;
pub mod timing;
pub mod frame;
pub mod text;
pub mod locale;
pub mod sample;
