//! The per-frame delay policy.
//!
//! The first and last frame of a sequence get the boundary delay, every
//! other frame the interior delay.  A single-frame sequence is both first
//! and last, so it gets the boundary delay.

use vstd::prelude::*;

verus! {

/// The display duration, in hundredths of a second, of the frame at the
/// 1-based position `frame_index` out of `total_frames`.
pub open spec fn delay_for_spec(
    frame_index: int,
    total_frames: int,
    delay: u16,
    end_frames_delay: u16,
) -> u16 {
    if frame_index == 1 || frame_index == total_frames {
        end_frames_delay
    } else {
        delay
    }
}

/// Picks the display duration of one frame: `end_frames_delay` for the
/// first and last frame, `delay` for every interior frame.
pub fn delay_for(
    frame_index: usize,
    total_frames: usize,
    delay: u16,
    end_frames_delay: u16,
) -> (r: u16)
    requires
        1 <= frame_index <= total_frames,
    ensures
        r == delay_for_spec(frame_index as int, total_frames as int, delay, end_frames_delay),
{
    if frame_index == 1 || frame_index == total_frames {
        end_frames_delay
    } else {
        delay
    }
}

/// The boundary law of the delay policy: in any sequence of at least two
/// frames, exactly the first and the last frame get the boundary delay and
/// every frame between them the interior delay; a single frame gets the
/// boundary delay.
pub proof fn lemma_delay_boundary(total_frames: int, delay: u16, end_frames_delay: u16)
    requires
        total_frames >= 1,
    ensures
        delay_for_spec(1, total_frames, delay, end_frames_delay) == end_frames_delay,
        delay_for_spec(total_frames, total_frames, delay, end_frames_delay) == end_frames_delay,
        forall|i: int|
            1 < i < total_frames ==> delay_for_spec(i, total_frames, delay, end_frames_delay)
                == delay,
{
}

} // verus!
