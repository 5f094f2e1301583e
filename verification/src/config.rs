//! The validated configuration of one run.
//!
//! Three positional arguments follow the program name: the input directory,
//! the interior frame delay and the boundary frame delay, both in
//! hundredths of a second.  Validation happens on the argument strings
//! alone, before any other work.

use crate::error::GifError;
use crate::parse::{parse_u16, parse_u16_spec};
use vstd::prelude::*;

verus! {

/// The three validated inputs of a run.
#[derive(Debug)]
pub struct Config {
    /// The directory whose images become the frames.
    pub dir_name: String,
    /// The display duration of the interior frames.
    pub delay: u16,
    /// The display duration of the first and last frame.
    pub end_frames_delay: u16,
}

impl Config {
    /// Validates the argument list of a run.  `args[0]` is the program
    /// name; the directory and the two delays follow.  A wrong argument
    /// count is a usage error; a delay that is not a non-negative decimal
    /// integer within `u16` is rejected.
    pub fn new(args: &Vec<String>) -> (r: Result<Config, GifError>)
        ensures
            r is Ok <==> args@.len() == 4 && parse_u16_spec(args@[2]@) is Some && parse_u16_spec(
                args@[3]@,
            ) is Some,
            r matches Ok(c) ==> {
                &&& c.dir_name@ == args@[1]@
                &&& Some(c.delay) == parse_u16_spec(args@[2]@)
                &&& Some(c.end_frames_delay) == parse_u16_spec(args@[3]@)
            },
            r matches Err(e) ==> e == if args@.len() != 4 {
                GifError::UsageError
            } else {
                GifError::InvalidDelayValue
            },
    {
        if args.len() != 4 {
            return Err(GifError::UsageError);
        }
        let dir_name = args[1].clone();
        let delay = match parse_u16(args[2].as_str()) {
            Some(v) => v,
            None => {
                return Err(GifError::InvalidDelayValue);
            },
        };
        let end_frames_delay = match parse_u16(args[3].as_str()) {
            Some(v) => v,
            None => {
                return Err(GifError::InvalidDelayValue);
            },
        };
        Ok(Config { dir_name, delay, end_frames_delay })
    }
}

} // verus!
