//! XMP metadata embedding for image export.
//!
//! Every payload is validated with `gamut-xmp` before it is embedded, so a
//! malformed packet is rejected instead of being spliced into the output.

use crate::bytes::{be_bytes, lemma_be_bytes4, push_all, push_be};
use crate::metadata::icc::{fourcc, low32};
use crate::metadata::jpeg::{
    has_entropy, has_length, jpeg_bytes, jpeg_entropy_flags, jpeg_from_bytes, jpeg_insert_segment,
    jpeg_parse, jpeg_segments, jpeg_to_bytes, segment_bytes, segments_bytes, segments_encodable,
};
use vstd::prelude::*;

verus! {

/// Error type for XMP embedding operations.
#[derive(Debug)]
pub enum XmpError {
    /// The XMP payload is not a well-formed XMP packet
    Invalid(String),
    /// Failed to manipulate image container
    Container(String),
}

/// Whether `gamut_xmp::XmpMeta::from_packet` accepts the bytes as an XMP packet.
pub uninterp spec fn xmp_parses(b: Seq<u8>) -> bool;

/// Parses the packet with `gamut_xmp::XmpMeta::from_packet`. Trusted to
/// succeed exactly when that parse does; the error's message (the parser's
/// `Display` text) is not described.
#[verifier::external_body]
fn parse_xmp_packet(xmp_bytes: &[u8]) -> (r: Result<(), String>)
    ensures
        r is Ok <==> xmp_parses(xmp_bytes@),
{
    gamut_xmp::XmpMeta::from_packet(xmp_bytes).map(|_| ()).map_err(|e| e.to_string())
}

/// Validate an XMP payload with `gamut-xmp` before embedding it.
///
/// Rejecting malformed packets keeps garbage out of the output containers; a
/// payload that `gamut_xmp::XmpMeta::from_packet` accepts is embeddable.
fn validate_xmp(xmp_bytes: &[u8]) -> (r: Result<(), XmpError>)
    ensures
        r is Ok <==> xmp_parses(xmp_bytes@),
        r matches Err(e) ==> e is Invalid,
{
    match parse_xmp_packet(xmp_bytes) {
        Ok(()) => Ok(()),
        Err(msg) => Err(XmpError::Invalid(msg)),
    }
}

/// The top-level `xml ` box carrying `xmp`.
pub open spec fn xml_box(xmp: Seq<u8>) -> Seq<u8> {
    be_bytes(low32(8 + xmp.len() as int), 4) + fourcc(0x78, 0x6d, 0x6c, 0x20) + xmp
}

/// Append XMP metadata to an in-memory AVIF byte stream.
///
/// A top-level `xml ` ISOBMFF box containing the XMP packet is appended to the
/// end of the data. Since the new box follows all existing boxes (including
/// `mdat`), no `iloc` extent offsets need to be patched.
/// The payload is validated with `gamut-xmp` first.
pub fn append_xmp_to_avif(xmp_bytes: &[u8], avif_data: Vec<u8>) -> (r: Result<Vec<u8>, XmpError>)
    ensures
        r is Ok <==> xmp_parses(xmp_bytes@),
        r matches Ok(v) ==> v@ == avif_data@ + xml_box(xmp_bytes@),
        r matches Ok(v) ==> v@.subrange(0, avif_data@.len() as int) == avif_data@,
        r matches Err(e) ==> e is Invalid,
{
    match validate_xmp(xmp_bytes) {
        Ok(()) => {},
        Err(e) => {
            return Err(e);
        },
    }
    let mut data = avif_data;
    let box_size: u64 = ((xmp_bytes.len() as u64 % 0x1_0000_0000) + 8) % 0x1_0000_0000;
    push_be(&mut data, box_size, 4);
    push_be(&mut data, 0x786d6c20, 4);
    push_all(&mut data, xmp_bytes);
    proof {
        lemma_be_bytes4(0x786d6c20);
        vstd::arithmetic::div_mod::lemma_add_mod_noop(xmp_bytes@.len() as int, 8, 0x1_0000_0000);
        assert(data@ =~= avif_data@ + xml_box(xmp_bytes@));
    }
    Ok(data)
}


/// The Adobe XMP namespace marker that opens a JPEG APP1 XMP segment:
/// `http://ns.adobe.com/xap/1.0/` and a NUL.
pub open spec fn xmp_jpeg_namespace() -> Seq<u8> {
    seq![
        0x68u8, 0x74, 0x74, 0x70, 0x3a, 0x2f, 0x2f, 0x6e, 0x73, 0x2e, 0x61, 0x64, 0x6f, 0x62,
        0x65, 0x2e, 0x63, 0x6f, 0x6d, 0x2f, 0x78, 0x61, 0x70, 0x2f, 0x31, 0x2e, 0x30, 0x2f, 0x00,
    ]
}

/// The index of the first segment from `i` on with entropy-coded data (the
/// scan), or the number of segments when there is none.
pub open spec fn first_entropy_from(segs: Seq<(u8, Seq<u8>, Seq<u8>)>, i: int) -> int
    decreases segs.len() - i,
{
    if i < 0 || i >= segs.len() {
        segs.len() as int
    } else if has_entropy(segs[i]) {
        i
    } else {
        first_entropy_from(segs, i + 1)
    }
}

/// The segments with the XMP APP1 segment inserted before the scan.
pub open spec fn segments_with_xmp(segs: Seq<(u8, Seq<u8>, Seq<u8>)>, xmp: Seq<u8>) -> Seq<
    (u8, Seq<u8>, Seq<u8>),
> {
    segs.insert(first_entropy_from(segs, 0), (0xe1u8, xmp_jpeg_namespace() + xmp, Seq::<u8>::empty()))
}

/// The encoding of a segment list is the encodings of its parts, in order.
proof fn lemma_segments_bytes_concat(a: Seq<(u8, Seq<u8>, Seq<u8>)>, b: Seq<(u8, Seq<u8>, Seq<u8>)>)
    ensures
        segments_bytes(a + b) == segments_bytes(a) + segments_bytes(b),
    decreases b.len(),
{
    if b.len() == 0 {
        assert(a + b =~= a);
        assert(segments_bytes(a) + segments_bytes(b) =~= segments_bytes(a));
    } else {
        assert((a + b).drop_last() =~= a + b.drop_last());
        assert((a + b).last() == b.last());
        lemma_segments_bytes_concat(a, b.drop_last());
        assert(segments_bytes(a + b) =~= segments_bytes(a) + segments_bytes(b));
    }
}

/// The encoded JPEG with an XMP segment holds, in one piece, the APP1 marker,
/// the segment length, the XMP namespace and the packet.
pub proof fn lemma_jpeg_xmp_segment_in_bytes(segs: Seq<(u8, Seq<u8>, Seq<u8>)>, xmp: Seq<u8>)
    ensures
        ({
            let seg = seq![0xffu8, 0xe1] + be_bytes((xmp.len() + 31) as nat, 2) + xmp_jpeg_namespace() + xmp;
            let out = jpeg_bytes(segments_with_xmp(segs, xmp));
            exists|p: int| 0 <= p && p + seg.len() <= out.len() && #[trigger] out.subrange(p, p + seg.len()) == seg
        }),
{
    let i = first_entropy_from(segs, 0);
    lemma_first_entropy_range(segs, 0);
    let x = (0xe1u8, xmp_jpeg_namespace() + xmp, Seq::<u8>::empty());
    let all = segments_with_xmp(segs, xmp);
    assert(all =~= (segs.take(i) + seq![x]) + segs.skip(i));
    lemma_segments_bytes_concat(segs.take(i) + seq![x], segs.skip(i));
    lemma_segments_bytes_concat(segs.take(i), seq![x]);
    let one = seq![x];
    assert(one.drop_last() =~= Seq::<(u8, Seq<u8>, Seq<u8>)>::empty());
    assert(one.last() == x);
    assert(segments_bytes(one.drop_last()) =~= Seq::<u8>::empty());
    assert(segments_bytes(one) =~= segment_bytes(x));
    let seg = seq![0xffu8, 0xe1] + be_bytes((xmp.len() + 31) as nat, 2) + xmp_jpeg_namespace() + xmp;
    assert(segment_bytes(x) =~= seg);
    let out = jpeg_bytes(all);
    let p: int = 2 + segments_bytes(segs.take(i)).len() as int;
    assert(out.subrange(p, p + seg.len() as int) =~= seg);
}

/// The scan index lies between `i` and the number of segments.
proof fn lemma_first_entropy_range(segs: Seq<(u8, Seq<u8>, Seq<u8>)>, i: int)
    requires
        0 <= i,
    ensures
        0 <= first_entropy_from(segs, i) <= segs.len(),
    decreases segs.len() - i,
{
    if i < segs.len() && !has_entropy(segs[i]) {
        lemma_first_entropy_range(segs, i + 1);
    }
}

/// What embedding `xmp` into `jpeg` gives: `Invalid` for a packet
/// `gamut-xmp` rejects, `Container` for data `img-parts` does not read as a
/// JPEG, and otherwise the JPEG with the XMP segment inserted.
pub open spec fn xmp_jpeg_outcome(xmp: Seq<u8>, jpeg: Seq<u8>, r: Result<Vec<u8>, XmpError>) -> bool {
    &&& (!xmp_parses(xmp) ==> (r matches Err(XmpError::Invalid(_))))
    &&& (xmp_parses(xmp) ==> match jpeg_parse(jpeg) {
        None => (r matches Err(XmpError::Container(_))),
        Some(segs) => (r matches Ok(v) && v@ == jpeg_bytes(segments_with_xmp(segs, xmp))),
    })
}

/// `append_xmp_to_jpeg` where it is defined: `None` for a valid packet too
/// long for one APP1 segment (over 65504 bytes), which a JPEG segment cannot
/// hold and whose encoding would panic.
pub fn append_xmp_to_jpeg_checked(xmp_bytes: &[u8], jpeg_data: Vec<u8>) -> (r: Option<
    Result<Vec<u8>, XmpError>,
>)
    ensures
        r is None <==> xmp_parses(xmp_bytes@) && xmp_bytes@.len() + 29 > 65533,
        r matches Some(x) ==> xmp_jpeg_outcome(xmp_bytes@, jpeg_data@, x),
{
    if xmp_bytes.len() > 65504 && parse_xmp_packet(xmp_bytes).is_ok() {
        None
    } else {
        Some(append_xmp_to_jpeg(xmp_bytes, jpeg_data))
    }
}

/// Append XMP metadata to existing JPEG data.
///
/// XMP is embedded as an APP1 segment (0xE1) with the Adobe XMP namespace prefix
/// `http://ns.adobe.com/xap/1.0/\0` followed by the raw XMP packet bytes,
/// inserted just before the first segment with entropy-coded data (the scan),
/// or after all segments. The payload is validated with `gamut-xmp` first.
pub fn append_xmp_to_jpeg(xmp_bytes: &[u8], jpeg_data: Vec<u8>) -> (r: Result<Vec<u8>, XmpError>)
    requires
        xmp_parses(xmp_bytes@) ==> xmp_bytes@.len() + 29 <= 65533,
    ensures
        xmp_jpeg_outcome(xmp_bytes@, jpeg_data@, r),
{
    match validate_xmp(xmp_bytes) {
        Ok(()) => {},
        Err(e) => {
            return Err(e);
        },
    }
    let ns: [u8; 29] = [
        0x68, 0x74, 0x74, 0x70, 0x3a, 0x2f, 0x2f, 0x6e, 0x73, 0x2e, 0x61, 0x64, 0x6f, 0x62, 0x65,
        0x2e, 0x63, 0x6f, 0x6d, 0x2f, 0x78, 0x61, 0x70, 0x2f, 0x31, 0x2e, 0x30, 0x2f, 0x00,
    ];
    let mut contents: Vec<u8> = Vec::new();
    push_all(&mut contents, &ns);
    push_all(&mut contents, xmp_bytes);
    assert(contents@ =~= xmp_jpeg_namespace() + xmp_bytes@);

    let mut jpeg = match jpeg_from_bytes(jpeg_data) {
        Ok(j) => j,
        Err(msg) => {
            return Err(XmpError::Container(msg));
        },
    };
    let ghost segs = jpeg_segments(jpeg);

    // Insert just before the first segment with entropy (SOS), or at the end.
    let flags = jpeg_entropy_flags(&jpeg);
    let mut pos: usize = 0;
    while pos < flags.len() && !flags[pos]
        invariant
            pos <= flags@.len(),
            flags@.len() == segs.len(),
            forall|i: int| 0 <= i < segs.len() ==> flags@[i] == has_entropy(#[trigger] segs[i]),
            first_entropy_from(segs, 0) == first_entropy_from(segs, pos as int),
        decreases flags@.len() - pos,
    {
        assert(flags@[pos as int] == has_entropy(segs[pos as int]));
        pos += 1;
    }
    if pos < flags.len() {
        assert(flags@[pos as int] == has_entropy(segs[pos as int]));
    }
    assert(pos as int == first_entropy_from(segs, 0));
    jpeg_insert_segment(&mut jpeg, pos, 0xe1, contents);
    let ghost inserted = jpeg_segments(jpeg);
    assert(segments_encodable(inserted)) by {
        assert forall|i: int|
            0 <= i < inserted.len() && has_length((#[trigger] inserted[i]).0) implies inserted[i].1.len()
            <= 65533 by {
            if i < pos {
                assert(inserted[i] == segs[i]);
            } else if i > pos {
                assert(inserted[i] == segs[i - 1]);
            }
        }
    }
    Ok(jpeg_to_bytes(jpeg))
}

} // verus!
