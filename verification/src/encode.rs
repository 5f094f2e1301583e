//! Encoding the frame sequence into an in-memory GIF stream.
//!
//! The gif crate does the container work; the library models the encoder's
//! state with two uninterpreted functions — the canvas setup and the
//! sequence of frame records handed to it — and the finished stream with a
//! third, a function of those two alone.  The verified loop proves that
//! every frame goes in exactly once, in order, tagged with the delay the
//! policy assigns to its position.

use crate::delay::{delay_for, delay_for_spec};
use crate::error::GifError;
use crate::frames::{frame_wf, Frame};
use vstd::prelude::*;

verus! {

/// The gif crate's streaming encoder, held opaquely and always writing
/// into an in-memory byte buffer.
#[verifier::external_body]
pub struct GifEncoder {
    inner: gif::Encoder<Vec<u8>>,
}

/// The gif crate's error type, carried through opaquely.
#[verifier::external_type_specification]
#[verifier::external_body]
pub struct ExEncodingError(gif::EncodingError);

/// The fixed quantization speed applied to every frame: a trade-off point
/// between encoding speed and palette fidelity, not user-tunable.
pub const QUANT_SPEED: i32 = 20;

/// The frames handed to the encoder so far, each as the plain values it
/// was built from: width, height, delay, quantization speed, RGBA bytes.
pub uninterp spec fn enc_frames(e: GifEncoder) -> Seq<(u16, u16, u16, i32, Seq<u8>)>;

/// The encoder's canvas setup: width, height, and whether the infinite
/// loop directive has been written.
pub uninterp spec fn enc_setup(e: GifEncoder) -> (u16, u16, bool);

/// The finished GIF stream for a canvas setup and a frame record
/// sequence.  Under this library's fixed call order — header, loop
/// directive, then frames — the bytes are a function of these alone.
pub uninterp spec fn gif_bytes(
    setup: (u16, u16, bool),
    frames: Seq<(u16, u16, u16, i32, Seq<u8>)>,
) -> Seq<u8>;

/// Relies on gif::Encoder::new: writes the screen descriptor for a canvas
/// of the given size into the buffer and returns the encoder around it.
/// No global palette is supplied; every frame carries its own.
#[verifier::external_body]
fn enc_new(buf: Vec<u8>, width: u16, height: u16) -> (r: Result<GifEncoder, gif::EncodingError>)
    requires
        buf@ == Seq::<u8>::empty(),
    ensures
        r matches Ok(e) ==> enc_setup(e) == (width, height, false) && enc_frames(e).len() == 0,
{
    match gif::Encoder::new(buf, width, height, &[]) {
        Ok(inner) => Ok(GifEncoder { inner }),
        Err(e) => Err(e),
    }
}

/// Relies on gif::Encoder::set_repeat with gif::Repeat::Infinite: writes
/// the application extension that makes the animation repeat forever.  It
/// is called once, before any frame.
#[verifier::external_body]
fn enc_set_infinite_repeat(e: &mut GifEncoder) -> (r: Result<(), gif::EncodingError>)
    requires
        enc_frames(*old(e)).len() == 0,
        !enc_setup(*old(e)).2,
    ensures
        r is Ok ==> enc_setup(*final(e)) == (enc_setup(*old(e)).0, enc_setup(*old(e)).1, true)
            && enc_frames(*final(e)) == enc_frames(*old(e)),
{
    e.inner.set_repeat(gif::Repeat::Infinite)
}

/// Relies on gif::Frame::from_rgba_speed, which builds a palette-quantized
/// frame from RGBA bytes (it panics unless the buffer holds exactly
/// `4 * width * height` bytes and the speed lies in `1 ..= 30`, and is
/// deterministic in its arguments), and on gif::Encoder::write_frame,
/// which appends that frame, tagged with the given delay, to the stream.
#[verifier::external_body]
fn enc_write_rgba_frame(
    e: &mut GifEncoder,
    width: u16,
    height: u16,
    data: Vec<u8>,
    speed: i32,
    delay: u16,
) -> (r: Result<(), gif::EncodingError>)
    requires
        data@.len() == 4 * (width as nat) * (height as nat),
        1 <= speed <= 30,
    ensures
        r is Ok ==> enc_setup(*final(e)) == enc_setup(*old(e)) && enc_frames(*final(e))
            == enc_frames(*old(e)).push((width, height, delay, speed, data@)),
{
    let mut buf = data;
    let mut frame = gif::Frame::from_rgba_speed(width, height, &mut buf, speed);
    frame.delay = delay;
    e.inner.write_frame(&frame)
}

/// Relies on gif::Encoder::into_inner: writes the trailer byte and hands
/// back the buffer, which then holds the complete GIF stream.
#[verifier::external_body]
fn enc_into_bytes(e: GifEncoder) -> (r: Result<Vec<u8>, gif::EncodingError>)
    ensures
        r matches Ok(bytes) ==> bytes@ == gif_bytes(enc_setup(e), enc_frames(e)),
{
    e.inner.into_inner()
}

/// The records that encoding `frames` hands to the container: each frame's
/// own dimensions and bytes, tagged with the delay the policy assigns to
/// its 1-based position, at the fixed quantization speed.
pub open spec fn frame_records(frames: Seq<Frame>, delay: u16, end_frames_delay: u16) -> Seq<
    (u16, u16, u16, i32, Seq<u8>),
> {
    Seq::new(
        frames.len(),
        |i: int|
            (
                frames[i].width,
                frames[i].height,
                delay_for_spec(i + 1, frames.len() as int, delay, end_frames_delay),
                QUANT_SPEED,
                frames[i].data@,
            ),
    )
}

/// The boundary law at the container: among the records of any frame
/// sequence, the first and the last carry the boundary delay and every
/// record between them the interior delay.  With a single frame, the one
/// record carries the boundary delay.
pub proof fn lemma_frame_records_delays(frames: Seq<Frame>, delay: u16, end_frames_delay: u16)
    requires
        frames.len() >= 1,
    ensures
        frame_records(frames, delay, end_frames_delay)[0].2 == end_frames_delay,
        frame_records(frames, delay, end_frames_delay)[frames.len() - 1].2 == end_frames_delay,
        forall|i: int|
            0 < i < frames.len() - 1 ==> #[trigger] frame_records(
                frames,
                delay,
                end_frames_delay,
            )[i].2 == delay,
{
}

/// Encodes the frames, in order, into one looping GIF stream held in
/// memory.  The canvas takes the first frame's dimensions; each frame is
/// tagged with the delay the policy assigns to its position; the loop
/// directive is infinite repeat.  On success the returned bytes are
/// exactly the stream of that canvas and those frame records; no frame is
/// reordered, dropped or retried.
pub fn images_to_gif(images: Vec<Frame>, delay: u16, end_frames_delay: u16) -> (r: Result<Vec<u8>, GifError>)
    requires
        images@.len() > 0,
        forall|i: int| 0 <= i < images@.len() ==> frame_wf(#[trigger] images@[i]),
    ensures
        r matches Ok(bytes) ==> bytes@ == gif_bytes(
            (images@[0].width, images@[0].height, true),
            frame_records(images@, delay, end_frames_delay),
        ),
        r matches Err(e) ==> e == GifError::EncoderInitFailed || e == GifError::FrameWriteFailed,
{
    let width = images[0].width;
    let height = images[0].height;
    let buf: Vec<u8> = Vec::new();
    let mut enc = match enc_new(buf, width, height) {
        Ok(e) => e,
        Err(_) => {
            return Err(GifError::EncoderInitFailed);
        },
    };
    match enc_set_infinite_repeat(&mut enc) {
        Ok(_) => {},
        Err(_) => {
            return Err(GifError::EncoderInitFailed);
        },
    }
    let ghost imgs = images@;
    let ghost recs = frame_records(imgs, delay, end_frames_delay);
    proof {
        assert(enc_frames(enc) =~= recs.take(0));
    }
    let total_frames = images.len();
    let mut rest = images;
    let mut current_frame: usize = 0;
    while rest.len() > 0
        invariant
            total_frames == imgs.len(),
            imgs.len() > 0,
            current_frame + rest@.len() == total_frames,
            rest@ == imgs.subrange(current_frame as int, imgs.len() as int),
            forall|i: int| 0 <= i < imgs.len() ==> frame_wf(#[trigger] imgs[i]),
            recs == frame_records(imgs, delay, end_frames_delay),
            enc_setup(enc) == (imgs[0].width, imgs[0].height, true),
            enc_frames(enc) == recs.take(current_frame as int),
        decreases rest@.len(),
    {
        let ghost before = rest@;
        let ghost m = current_frame as int;
        let fr = rest.remove(0);
        proof {
            assert(fr == imgs[m]);
            assert(before.remove(0) =~= imgs.subrange(m + 1, imgs.len() as int));
        }
        current_frame = current_frame + 1;
        let d = delay_for(current_frame, total_frames, delay, end_frames_delay);
        let Frame { width: fw, height: fh, data: fdata } = fr;
        match enc_write_rgba_frame(&mut enc, fw, fh, fdata, QUANT_SPEED, d) {
            Ok(_) => {
                proof {
                    assert(recs[m] == (imgs[m].width, imgs[m].height, d, QUANT_SPEED, imgs[
                        m].data@));
                    assert(recs.take(m + 1) =~= recs.take(m).push(recs[m]));
                }
            },
            Err(_) => {
                return Err(GifError::FrameWriteFailed);
            },
        }
    }
    proof {
        assert(recs.take(total_frames as int) =~= recs);
    }
    match enc_into_bytes(enc) {
        Ok(b) => Ok(b),
        Err(_) => Err(GifError::FrameWriteFailed),
    }
}

} // verus!
