//! Assembles a numbered sequence of still images into one looping animated
//! GIF, giving the first and last frame a display duration of their own.
//!
//! The library covers the whole conversion pipeline on plain values: ordering
//! the input files by the numeric segment of their names, the per-frame delay
//! policy, and the incremental encoding of the frame sequence into an
//! in-memory GIF stream with a global infinite-loop directive.  Reading the
//! directory and writing the output file stay outside the library.

pub mod config;
pub mod decode;
pub mod delay;
pub mod encode;
pub mod error;
pub mod frames;
pub mod order;
pub mod parse;
pub mod pipeline;
