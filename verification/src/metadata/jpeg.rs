//! JPEG segment lists, through `img-parts`.
//!
//! `img-parts` parses a JPEG into the segments before the first scan (the
//! scan's segment carries the rest of the file as its entropy-coded data) and
//! re-encodes them. Here a segment is seen as plain values: its marker, its
//! contents, and its entropy-coded data.

use crate::bytes::be_bytes;
use img_parts::jpeg::{Jpeg, JpegSegment};
use img_parts::{Bytes, ImageICC};
use vstd::prelude::*;

verus! {

#[verifier::external_type_specification]
#[verifier::external_body]
pub struct ExJpeg(Jpeg);

/// The segments a `Jpeg` holds, in order: (marker, contents, entropy-coded data).
pub uninterp spec fn jpeg_segments(j: Jpeg) -> Seq<(u8, Seq<u8>, Seq<u8>)>;

/// The segments `img_parts::jpeg::Jpeg::from_bytes` reads from the bytes, or
/// `None` when it rejects them.
pub uninterp spec fn jpeg_parse(b: Seq<u8>) -> Option<Seq<(u8, Seq<u8>, Seq<u8>)>>;

/// The segments after `img_parts`' `set_icc_profile` stores `profile` in `segs`.
pub uninterp spec fn jpeg_icc_segments(
    segs: Seq<(u8, Seq<u8>, Seq<u8>)>,
    profile: Seq<u8>,
) -> Seq<(u8, Seq<u8>, Seq<u8>)>;

/// Markers followed by a two-byte length: SOF0..SOF15, SOS..EXP, APP0..APP15,
/// JPG0..JPG13 and COM.
pub open spec fn has_length(marker: u8) -> bool {
    (0xc0 <= marker <= 0xcf) || (0xda <= marker <= 0xfe)
}

/// A segment carries entropy-coded data.
pub open spec fn has_entropy(s: (u8, Seq<u8>, Seq<u8>)) -> bool {
    s.2.len() > 0
}

/// Every segment with a length fits its 16-bit length field.
pub open spec fn segments_encodable(segs: Seq<(u8, Seq<u8>, Seq<u8>)>) -> bool {
    forall|i: int| 0 <= i < segs.len() ==> has_length((#[trigger] segs[i]).0) ==> segs[i].1.len() <= 65533
}

/// The encoding of one segment: `FF`, the marker, the length (contents plus
/// the two length bytes) if the marker has one, the contents, the entropy data.
pub open spec fn segment_bytes(s: (u8, Seq<u8>, Seq<u8>)) -> Seq<u8> {
    seq![0xffu8, s.0] + (if has_length(s.0) {
        be_bytes((s.1.len() + 2) as nat, 2)
    } else {
        Seq::empty()
    }) + s.1 + s.2
}

/// The encodings of the segments, one after the other.
pub open spec fn segments_bytes(segs: Seq<(u8, Seq<u8>, Seq<u8>)>) -> Seq<u8>
    decreases segs.len(),
{
    if segs.len() == 0 {
        Seq::empty()
    } else {
        segments_bytes(segs.drop_last()) + segment_bytes(segs.last())
    }
}

/// The encoded JPEG: the SOI marker, the segments, and the EOI marker unless
/// a segment's entropy-coded data (which then includes it) is present.
pub open spec fn jpeg_bytes(segs: Seq<(u8, Seq<u8>, Seq<u8>)>) -> Seq<u8> {
    seq![0xffu8, 0xd8] + segments_bytes(segs) + (if exists|i: int|
        0 <= i < segs.len() && has_entropy(#[trigger] segs[i]) {
        Seq::empty()
    } else {
        seq![0xffu8, 0xd9]
    })
}

/// Parses a JPEG with `img_parts::jpeg::Jpeg::from_bytes`.
///
/// Trusted: the result is what `jpeg_parse` names; every segment it reads has
/// a length marker and at most 65533 bytes of contents (its length field less
/// two). The error message (`img_parts::Error`'s `Display`) is not described.
#[verifier::external_body]
pub fn jpeg_from_bytes(data: Vec<u8>) -> (r: Result<Jpeg, String>)
    ensures
        match r {
            Ok(j) => jpeg_parse(data@) == Some(jpeg_segments(j)) && segments_encodable(
                jpeg_segments(j),
            ),
            Err(_) => jpeg_parse(data@) is None,
        },
{
    Jpeg::from_bytes(Bytes::from(data)).map_err(|e| e.to_string())
}

/// Whether each segment has entropy-coded data, via `JpegSegment::has_entropy`
/// (its entropy bytes are non-empty).
#[verifier::external_body]
pub fn jpeg_entropy_flags(j: &Jpeg) -> (r: Vec<bool>)
    ensures
        r@ == jpeg_segments(*j).map_values(|s: (u8, Seq<u8>, Seq<u8>)| has_entropy(s)),
{
    j.segments().iter().map(|s| s.has_entropy()).collect()
}

/// Inserts a segment without entropy data (`JpegSegment::new_with_contents`)
/// at `pos` of the segment list (`Vec::insert`).
#[verifier::external_body]
pub fn jpeg_insert_segment(j: &mut Jpeg, pos: usize, marker: u8, contents: Vec<u8>)
    requires
        pos <= jpeg_segments(*old(j)).len(),
    ensures
        jpeg_segments(*final(j)) == jpeg_segments(*old(j)).insert(
            pos as int,
            (marker, contents@, Seq::<u8>::empty()),
        ),
{
    j.segments_mut().insert(pos, JpegSegment::new_with_contents(marker, Bytes::from(contents)));
}

/// Stores an ICC profile with `ImageICC::set_icc_profile`.
///
/// Trusted: the new segments are what `jpeg_icc_segments` names; the ICC
/// segments it writes hold at most 65533 bytes each and it keeps other
/// segments' lengths, so encodable segments stay encodable.
#[verifier::external_body]
pub fn jpeg_set_icc_profile(j: &mut Jpeg, profile: Vec<u8>)
    ensures
        jpeg_segments(*final(j)) == jpeg_icc_segments(jpeg_segments(*old(j)), profile@),
        segments_encodable(jpeg_segments(*old(j))) ==> segments_encodable(
            jpeg_segments(*final(j)),
        ),
{
    j.set_icc_profile(Some(Bytes::from(profile)));
}

/// Encodes the JPEG with `Jpeg::encoder().bytes()`, which concatenates SOI,
/// each segment's encoding and, when no segment has entropy data, EOI.
/// Encoding a segment whose contents exceed 65533 bytes panics, so that is
/// excluded.
#[verifier::external_body]
pub fn jpeg_to_bytes(j: Jpeg) -> (r: Vec<u8>)
    requires
        segments_encodable(jpeg_segments(j)),
    ensures
        r@ == jpeg_bytes(jpeg_segments(j)),
{
    j.encoder().bytes().to_vec()
}

} // verus!
