//! The pipeline driver: from the listed files to the finished GIF stream.
//!
//! Loading happens first and in full, then encoding; data flows one way
//! and every error is terminal.

use crate::decode::{decoded_rgba, file_decodable, frames_match_files, get_all_images};
use crate::delay::delay_for_spec;
use crate::encode::{frame_records, gif_bytes, images_to_gif, QUANT_SPEED};
use crate::error::GifError;
use crate::frames::ImageFile;
use crate::order::stably_sorted_by_key;
use vstd::prelude::*;

verus! {

/// The frame records of the sorted files' decoded images under the delay
/// policy: each file's decoded dimensions and RGBA bytes, tagged with the
/// delay of its 1-based position, at the fixed quantization speed.
pub open spec fn loaded_frame_records(
    sorted: Seq<ImageFile>,
    delay: u16,
    end_frames_delay: u16,
) -> Seq<(u16, u16, u16, i32, Seq<u8>)> {
    Seq::new(
        sorted.len(),
        |i: int|
            {
                let t = decoded_rgba(sorted[i].bytes@).unwrap();
                (
                    t.0 as u16,
                    t.1 as u16,
                    delay_for_spec(i + 1, sorted.len() as int, delay, end_frames_delay),
                    QUANT_SPEED,
                    t.2,
                )
            },
    )
}

/// Runs the whole conversion on the listed files: orders them by filename
/// key, decodes each into an RGBA frame, and encodes the frames into one
/// looping GIF stream whose canvas takes the first frame's dimensions.
/// An empty listing and an undecodable file are errors of their own; the
/// container's own failures surface as encoder errors.
pub fn make_gif(files: Vec<ImageFile>, delay: u16, end_frames_delay: u16) -> (r: Result<Vec<u8>, GifError>)
    ensures
        r matches Ok(bytes) ==> exists|sorted: Seq<ImageFile>|
            {
                let recs = loaded_frame_records(sorted, delay, end_frames_delay);
                &&& #[trigger] stably_sorted_by_key(files@, sorted)
                &&& sorted.len() == files@.len()
                &&& bytes@ == gif_bytes((recs[0].0, recs[0].1, true), recs)
            },
        r is Ok ==> files@.len() > 0 && forall|i: int|
            0 <= i < files@.len() ==> file_decodable(#[trigger] files@[i]),
        files@.len() == 0 <==> r == Err::<Vec<u8>, GifError>(GifError::InvalidDirectory),
        files@.len() > 0 && (exists|i: int|
            0 <= i < files@.len() && !file_decodable(#[trigger] files@[i])) <==> r == Err::<
            Vec<u8>,
            GifError,
        >(GifError::UnsupportedOrCorruptImage),
        r matches Err(e) ==> (files@.len() > 0 && (forall|i: int|
            0 <= i < files@.len() ==> file_decodable(#[trigger] files@[i])) ==> e
            == GifError::EncoderInitFailed || e == GifError::FrameWriteFailed),
{
    let frames = match get_all_images(files) {
        Ok(frames) => frames,
        Err(e) => {
            return Err(e);
        },
    };
    let ghost sorted = choose|sorted: Seq<ImageFile>|
        stably_sorted_by_key(files@, sorted) && frames_match_files(frames@, sorted);
    let ghost recs = loaded_frame_records(sorted, delay, end_frames_delay);
    proof {
        assert(frame_records(frames@, delay, end_frames_delay) =~= recs);
        assert(frames@[0].width == recs[0].0 && frames@[0].height == recs[0].1);
    }
    match images_to_gif(frames, delay, end_frames_delay) {
        Ok(bytes) => Ok(bytes),
        Err(e) => Err(e),
    }
}

} // verus!
