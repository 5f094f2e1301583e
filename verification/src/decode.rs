//! Loading the frames: ordering the input files and decoding each one.
//!
//! The image crate does the actual decoding; the library models its result
//! with the uninterpreted function `decoded_rgba`, a function of the input
//! bytes alone.  A single file that does not decode, or whose dimensions
//! do not fit the container's 16-bit range, fails the whole load: there is
//! no skip-and-continue policy.

use crate::error::GifError;
use crate::frames::{frame_wf, Frame, ImageFile};
use crate::order::{is_stable_ordering, sort_files, stably_sorted_by_key};
use vstd::prelude::*;

verus! {

/// The image crate's error type, carried through opaquely.
#[verifier::external_type_specification]
#[verifier::external_body]
pub struct ExImageError(image::ImageError);

/// What the bytes decode to as an RGBA image: `None` where they are not a
/// decodable image, otherwise the width, the height, and the RGBA bytes,
/// four per pixel.  Decoding is a function of the bytes alone.
pub uninterp spec fn decoded_rgba(bytes: Seq<u8>) -> Option<(u32, u32, Seq<u8>)>;

/// Relies on image::load_from_memory, which decodes a byte buffer in any
/// supported format (guessing the format from the bytes, deterministic in
/// them), and on DynamicImage::to_rgba8 with ImageBuffer::into_raw, which
/// convert the decoded pixels to the RGBA byte layout: exactly four bytes
/// per pixel, so the buffer holds `4 * width * height` bytes.
#[verifier::external_body]
fn decode_rgba(bytes: &Vec<u8>) -> (r: Result<(u32, u32, Vec<u8>), image::ImageError>)
    ensures
        r is Ok <==> decoded_rgba(bytes@) is Some,
        r matches Ok(t) ==> decoded_rgba(bytes@) == Some((t.0, t.1, t.2@)) && t.2@.len() == 4 * (
        t.0 as nat) * (t.1 as nat),
{
    match image::load_from_memory(bytes.as_slice()) {
        Ok(img) => {
            let rgba = img.to_rgba8();
            let w = rgba.width();
            let h = rgba.height();
            Ok((w, h, rgba.into_raw()))
        },
        Err(e) => Err(e),
    }
}

/// The file decodes as an image whose dimensions fit the container's
/// 16-bit range.
pub open spec fn file_decodable(f: ImageFile) -> bool {
    match decoded_rgba(f.bytes@) {
        Some(t) => t.0 <= 0xFFFF && t.1 <= 0xFFFF,
        None => false,
    }
}

/// `fr` is the decoded form of the file `f`.
pub open spec fn frame_matches_file(fr: Frame, f: ImageFile) -> bool {
    match decoded_rgba(f.bytes@) {
        Some(t) => fr.width as int == t.0 as int && fr.height as int == t.1 as int && fr.data@
            == t.2,
        None => false,
    }
}

/// `frames` are the decoded forms of the files of `sorted`, index by
/// index.
pub open spec fn frames_match_files(frames: Seq<Frame>, sorted: Seq<ImageFile>) -> bool {
    &&& frames.len() == sorted.len()
    &&& forall|i: int|
        0 <= i < frames.len() ==> frame_matches_file(#[trigger] frames[i], sorted[i])
}

/// A file of the sorted sequence that does not decode came out of the
/// input listing.
proof fn lemma_bad_sorted_file(orig: Seq<ImageFile>, sorted: Seq<ImageFile>, m: int)
    requires
        stably_sorted_by_key(orig, sorted),
        0 <= m < sorted.len(),
        !file_decodable(sorted[m]),
    ensures
        exists|i: int| 0 <= i < orig.len() && !file_decodable(#[trigger] orig[i]),
{
    let perm = choose|perm: Seq<int>| is_stable_ordering(orig, perm, sorted);
    assert(sorted[m] == orig[perm[m]]);
    assert(!file_decodable(orig[perm[m]]));
}

/// Orders the listed files ascending by their filename key, stably, and
/// decodes each into an RGBA frame.  An empty listing is an error, not an
/// empty result; one undecodable or oversized file fails the whole load,
/// and no partial frame set is returned.
pub fn get_all_images(files: Vec<ImageFile>) -> (r: Result<Vec<Frame>, GifError>)
    ensures
        r is Err <==> files@.len() == 0 || exists|i: int|
            0 <= i < files@.len() && !file_decodable(#[trigger] files@[i]),
        r matches Ok(frames) ==> {
            &&& frames@.len() == files@.len()
            &&& forall|i: int| 0 <= i < frames@.len() ==> frame_wf(#[trigger] frames@[i])
            &&& exists|sorted: Seq<ImageFile>|
                stably_sorted_by_key(files@, sorted) && frames_match_files(frames@, sorted)
        },
        r matches Err(e) ==> e == if files@.len() == 0 {
            GifError::InvalidDirectory
        } else {
            GifError::UnsupportedOrCorruptImage
        },
{
    if files.len() == 0 {
        return Err(GifError::InvalidDirectory);
    }
    let ghost origfiles = files@;
    let sorted = sort_files(files);
    let ghost sortedseq = sorted@;
    let total = sorted.len();
    let mut rest = sorted;
    let mut frames: Vec<Frame> = Vec::new();
    while rest.len() > 0
        invariant
            origfiles == files@,
            total == sortedseq.len() == origfiles.len(),
            origfiles.len() > 0,
            stably_sorted_by_key(origfiles, sortedseq),
            frames@.len() + rest@.len() == total,
            rest@ == sortedseq.subrange(frames@.len() as int, total as int),
            forall|m: int|
                0 <= m < frames@.len() ==> frame_matches_file(#[trigger] frames@[m], sortedseq[m])
                    && frame_wf(frames@[m]),
        decreases rest@.len(),
    {
        let ghost before = rest@;
        let ghost m = frames@.len() as int;
        let f = rest.remove(0);
        proof {
            assert(f == sortedseq[m]);
            assert(before.remove(0) =~= sortedseq.subrange(m + 1, total as int));
        }
        match decode_rgba(&f.bytes) {
            Ok(t) => {
                let (w, h, data) = t;
                if w > 0xFFFF || h > 0xFFFF {
                    proof {
                        lemma_bad_sorted_file(origfiles, sortedseq, m);
                    }
                    return Err(GifError::UnsupportedOrCorruptImage);
                }
                frames.push(Frame { width: w as u16, height: h as u16, data });
            },
            Err(_) => {
                proof {
                    lemma_bad_sorted_file(origfiles, sortedseq, m);
                }
                return Err(GifError::UnsupportedOrCorruptImage);
            },
        }
    }
    proof {
        let perm = choose|perm: Seq<int>| is_stable_ordering(origfiles, perm, sortedseq);
        assert forall|k: int| 0 <= k < origfiles.len() implies file_decodable(
            #[trigger] origfiles[k],
        ) by {
            assert(crate::order::appears(perm, k));
            let q = choose|q: int| 0 <= q < perm.len() && #[trigger] perm[q] == k;
            assert(frame_matches_file(frames@[q], sortedseq[q]));
            assert(sortedseq[q] == origfiles[k]);
        }
        assert(stably_sorted_by_key(origfiles, sortedseq) && frames_match_files(
            frames@,
            sortedseq,
        ));
    }
    Ok(frames)
}

} // verus!
