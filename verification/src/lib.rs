//! A framework for branching interactive stories written in a line-oriented
//! markup format.
//!
//! The crate covers the story pipeline from raw markup lines to a running
//! narrative: a parser that turns lines into story blocks, a play state of
//! named boolean flags and integer counters, a resolver for conditional and
//! colored text, a matcher that resolves player input against the presented
//! choices, and the block interpreter that advances through the story.
//!
//! Reading the terminal, printing with colors and timing, and persisting the
//! play state on disk are left to the surrounding application; the interpreter
//! here returns the lines to render and the point where input is needed.

pub mod game_state;
pub mod parse_file;
pub mod parse_input;
pub mod story_block;
pub mod strmap;
pub mod strutil;
pub mod write_out;
