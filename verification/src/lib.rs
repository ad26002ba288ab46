//! Terminal text tools: positional text comparison, ANSI colouring and the
//! integer side of a single-line progress indicator.

pub mod colors;
pub mod diff;
pub mod progress;
pub mod text;
