//! The data carried through the pipeline as plain values.

use vstd::prelude::*;

verus! {

/// One candidate file of the input directory: its filename and the raw
/// bytes read from it.  The filename decides the frame order; the bytes
/// are decoded into a frame.
#[derive(Debug)]
pub struct ImageFile {
    /// The entry's filename, without any directory part.
    pub name: String,
    /// The file's contents.
    pub bytes: Vec<u8>,
}

/// One decoded frame: an owned RGBA byte buffer with explicit dimensions.
/// Both dimensions fit the container's 16-bit range.
#[derive(Debug)]
pub struct Frame {
    /// Width in pixels.
    pub width: u16,
    /// Height in pixels.
    pub height: u16,
    /// The pixels, four bytes each, row by row.
    pub data: Vec<u8>,
}

/// The frame's buffer holds exactly four bytes per pixel.
pub open spec fn frame_wf(f: Frame) -> bool {
    f.data@.len() == 4 * (f.width as nat) * (f.height as nat)
}

} // verus!
