//! ICC profile handling for image export.
//!
//! The profile bytes themselves are serialized by `gamut-icc`; the container
//! embedding paths (AVIF and JXL box splicing) are this module's own.

use crate::bytes::{
    be_bytes, be_u32_at, be_uint, lemma_be_bytes4, lemma_be_bytes_of_uint, lemma_be_roundtrip_exact,
    lemma_be_uint_bound,
    lemma_pow256_values, overwrite, push_all, push_be, push_range, read_u32_be, write_u32_be,
};
use crate::isobmff::{
    box_fits, box_scan, box_type_is, find_box, iloc_offset_fields, iloc_shifted, lemma_box_scan_found,
    lemma_box_scan_body_change, lemma_box_scan_order, lemma_box_scan_pass_prefix,
    lemma_box_scan_resized, lemma_box_scan_same_bytes, lemma_box_scan_same_prefix,
    lemma_iloc_shift_then_zero,
    lemma_box_scan_translate, lemma_iloc_moved_box_shift, lemma_iloc_shift_frame, patch_iloc_extents,
    scan_limit, IlocError,
};
use crate::metadata::icc_serialize::{
    icc_layout_matches, icc_matrix_trc_bytes, icc_parses, is_icc_ascii, is_known_class,
    is_known_space, matrix_trc_serializable, matrix_trc_tags, profile_parses, serialize_matrix_trc,
    gamma_tag, icc_profile_bytes, lemma_matrix_trc_size_bound, tag_sig, tag_text_ok, xyz_tag, IccGamma,
    IccHeaderView, IccTagView, IccText, IccXyz, MatrixTrcProfile, MatrixTrcView,
};
use crate::metadata::jpeg::{
    jpeg_bytes, jpeg_from_bytes, jpeg_icc_segments, jpeg_parse, jpeg_set_icc_profile, jpeg_to_bytes,
};
use vstd::prelude::*;

verus! {

/// Error type for ICC operations.
#[derive(Debug)]
pub enum IccError {
    /// Invalid ICC profile data
    InvalidProfile(String),
    /// Failed to manipulate image container
    Container(String),
}

/// Embedded ICC profile data.
#[derive(Debug, Clone)]
pub struct IccProfile {
    data: Vec<u8>,
}

/// The four bytes of a box or signature type.
pub open spec fn fourcc(a: u8, b: u8, c: u8, d: u8) -> Seq<u8> {
    seq![a, b, c, d]
}

/// `v` reduced to the 32 bits a box size field holds.
pub open spec fn low32(v: int) -> nat {
    (v % 0x1_0000_0000) as nat
}

// ── JXL ─────────────────────────────────────────────────────────────────────

/// A box that the ICC profile goes before: `Exif` or `xml `.
pub open spec fn is_jxl_metadata_box(s: Seq<u8>, pos: int) -> bool {
    let t = s.subrange(pos + 4, pos + 8);
    t == fourcc(0x45, 0x78, 0x69, 0x66) || t == fourcc(0x78, 0x6d, 0x6c, 0x20)
}

/// Walking the boxes from `pos`: the offset of the first `Exif`/`xml `
/// box, or the end of the data when the walk runs out of well-formed boxes first.
pub open spec fn jxl_insert_scan(s: Seq<u8>, pos: int) -> int
    decreases s.len() - pos,
{
    if pos < 0 || pos + 8 > s.len() {
        s.len() as int
    } else {
        let size = be_u32_at(s, pos);
        if size < 8 || pos + size > s.len() {
            s.len() as int
        } else if is_jxl_metadata_box(s, pos) {
            pos
        } else {
            jxl_insert_scan(s, pos + size)
        }
    }
}

/// The container boxes put in front of a naked codestream of `len` bytes:
/// the JXL signature box, an `ftyp` box, and the header of the `jxlc` box.
pub open spec fn jxl_container_header(len: nat) -> Seq<u8> {
    fourcc(0, 0, 0, 0x0c) + fourcc(0x4a, 0x58, 0x4c, 0x20) + fourcc(0x0d, 0x0a, 0x87, 0x0a) + fourcc(
        0,
        0,
        0,
        0x14,
    ) + fourcc(0x66, 0x74, 0x79, 0x70) + fourcc(0x6a, 0x78, 0x6c, 0x20) + fourcc(0, 0, 0, 0)
        + fourcc(0x6a, 0x78, 0x6c, 0x20) + be_bytes(low32(8 + len as int), 4) + fourcc(
        0x6a,
        0x78,
        0x6c,
        0x63,
    )
}

/// `s` starts with the naked-codestream signature `FF 0A`.
pub open spec fn is_naked_jxl(s: Seq<u8>) -> bool {
    s.len() >= 2 && s[0] == 0xff && s[1] == 0x0a
}

/// `s` carries the container signature box type `JXL ` at bytes 4..8.
pub open spec fn is_jxl_container(s: Seq<u8>) -> bool {
    s.len() >= 8 && s.subrange(4, 8) == fourcc(0x4a, 0x58, 0x4c, 0x20)
}

/// The `iccp` box carrying `icc`.
pub open spec fn iccp_box(icc: Seq<u8>) -> Seq<u8> {
    be_bytes(low32(8 + icc.len() as int), 4) + fourcc(0x69, 0x63, 0x63, 0x70) + icc
}

/// JXL data with `icc` embedded: a naked codestream is first wrapped in a
/// container; the `iccp` box goes before the first `Exif`/`xml ` box,
/// or at the end. `None` for data that is neither form.
pub open spec fn jxl_with_icc(s: Seq<u8>, icc: Seq<u8>) -> Option<Seq<u8>> {
    let c = if is_naked_jxl(s) {
        jxl_container_header(s.len()) + s
    } else {
        s
    };
    if is_naked_jxl(s) || is_jxl_container(s) {
        let p = jxl_insert_scan(c, 0);
        Some(c.subrange(0, p) + iccp_box(icc) + c.subrange(p, c.len() as int))
    } else {
        None
    }
}

/// The walk ends at or after where it starts, and within the data.
proof fn lemma_jxl_insert_scan_range(s: Seq<u8>, pos: int)
    requires
        0 <= pos,
    ensures
        jxl_insert_scan(s, pos) <= s.len(),
        jxl_insert_scan(s, pos) >= pos || jxl_insert_scan(s, pos) == s.len(),
    decreases s.len() - pos,
{
    if !(pos + 8 > s.len()) {
        let size = be_u32_at(s, pos);
        if !(size < 8 || pos + size > s.len()) && !is_jxl_metadata_box(s, pos) {
            lemma_jxl_insert_scan_range(s, pos + size);
        }
    }
}

/// The first of two optional box offsets, or `none` when neither is there.
pub open spec fn first_found(a: Option<int>, b: Option<int>, none: int) -> int {
    match (a, b) {
        (Some(x), Some(y)) => if x <= y { x } else { y },
        (Some(x), None) => x,
        (None, Some(y)) => y,
        (None, None) => none,
    }
}

/// The insertion walk stops at whichever of the first `Exif` box and the
/// first `xml ` box of the top-level walk comes first, or at the end.
proof fn lemma_jxl_insert_scan_first(s: Seq<u8>, pos: int)
    requires
        0 <= pos,
    ensures
        jxl_insert_scan(s, pos) == first_found(
            box_scan(s, pos, s.len() as int, seq![0x45u8, 0x78, 0x69, 0x66]),
            box_scan(s, pos, s.len() as int, seq![0x78u8, 0x6d, 0x6c, 0x20]),
            s.len() as int,
        ),
    decreases s.len() - pos,
{
    if pos + 8 <= s.len() {
        let size = be_u32_at(s, pos);
        if !(size < 8 || pos + size > s.len()) {
            assert(fourcc(0x45, 0x78, 0x69, 0x66) =~= seq![0x45u8, 0x78, 0x69, 0x66]);
            assert(fourcc(0x78, 0x6d, 0x6c, 0x20) =~= seq![0x78u8, 0x6d, 0x6c, 0x20]);
            if !is_jxl_metadata_box(s, pos) {
                lemma_jxl_insert_scan_first(s, pos + size);
            } else {
                let e = box_scan(s, pos, s.len() as int, seq![0x45u8, 0x78, 0x69, 0x66]);
                let x = box_scan(s, pos, s.len() as int, seq![0x78u8, 0x6d, 0x6c, 0x20]);
                lemma_box_scan_found(s, pos, s.len() as int, seq![0x45u8, 0x78, 0x69, 0x66]);
                lemma_box_scan_found(s, pos, s.len() as int, seq![0x78u8, 0x6d, 0x6c, 0x20]);
            }
        }
    }
}

/// Embedding into a JXL container puts the `iccp` box (its 32-bit size
/// `8 + icc.len()`, type `iccp`, the profile) in front of the first `Exif` or
/// `xml ` box met walking the top-level boxes, and at the end when there is
/// none; the data around it is kept.
pub proof fn lemma_jxl_container_insert(s: Seq<u8>, icc: Seq<u8>)
    requires
        s.len() >= 8,
        !(s[0] == 0xff && s[1] == 0x0a),
        s.subrange(4, 8) == seq![0x4au8, 0x58, 0x4c, 0x20],
    ensures
        ({
            let k = first_found(
                box_scan(s, 0, s.len() as int, seq![0x45u8, 0x78, 0x69, 0x66]),
                box_scan(s, 0, s.len() as int, seq![0x78u8, 0x6d, 0x6c, 0x20]),
                s.len() as int,
            );
            &&& 0 <= k <= s.len()
            &&& jxl_with_icc(s, icc) == Some(
                s.subrange(0, k) + be_bytes(((icc.len() + 8) % 0x1_0000_0000) as nat, 4) + seq![
                    0x69u8,
                    0x63,
                    0x63,
                    0x70,
                ] + icc + s.subrange(k, s.len() as int),
            )
        }),
{
    lemma_jxl_insert_scan_first(s, 0);
    lemma_jxl_insert_scan_range(s, 0);
    assert(!is_naked_jxl(s));
    assert(is_jxl_container(s));
    assert(iccp_box(icc) =~= be_bytes(((icc.len() + 8) % 0x1_0000_0000) as nat, 4) + seq![
        0x69u8,
        0x63,
        0x63,
        0x70,
    ] + icc);
}

/// A 32-bit size field reads back as the size it encodes.
proof fn lemma_size_field(c: Seq<u8>, pos: int, v: nat)
    requires
        v < 0x1_0000_0000,
        0 <= pos,
        pos + 4 <= c.len(),
        c.subrange(pos, pos + 4) == be_bytes(v, 4),
    ensures
        be_u32_at(c, pos) == v,
{
    lemma_pow256_values();
    lemma_be_roundtrip_exact(v, 4);
}

/// A naked codestream `s` is wrapped in the container form: the 12-byte
/// `JXL ` signature box, the 20-byte `ftyp` box (brand `jxl `, minor version
/// 0, compatible brand `jxl `), and a `jxlc` box of `8 + s.len()` bytes holding
/// `s`; the `iccp` box then follows at the end.
#[verifier::spinoff_prover]
pub proof fn lemma_jxl_naked_wrapped(s: Seq<u8>, icc: Seq<u8>)
    requires
        s.len() >= 2,
        s[0] == 0xff,
        s[1] == 0x0a,
        s.len() + 8 < 0x1_0000_0000,
    ensures
        jxl_with_icc(s, icc) == Some(
            seq![
                0x00u8, 0x00, 0x00, 0x0c, 0x4a, 0x58, 0x4c, 0x20, 0x0d, 0x0a, 0x87, 0x0a,
                0x00, 0x00, 0x00, 0x14, 0x66, 0x74, 0x79, 0x70, 0x6a, 0x78, 0x6c, 0x20,
                0x00, 0x00, 0x00, 0x00, 0x6a, 0x78, 0x6c, 0x20,
            ] + be_bytes((s.len() + 8) as nat, 4) + seq![0x6au8, 0x78, 0x6c, 0x63] + s + be_bytes(
                ((icc.len() + 8) % 0x1_0000_0000) as nat,
                4,
            ) + seq![0x69u8, 0x63, 0x63, 0x70] + icc,
        ),
{
    let n = s.len();
    let head = seq![
        0x00u8, 0x00, 0x00, 0x0c, 0x4a, 0x58, 0x4c, 0x20, 0x0d, 0x0a, 0x87, 0x0a,
        0x00, 0x00, 0x00, 0x14, 0x66, 0x74, 0x79, 0x70, 0x6a, 0x78, 0x6c, 0x20,
        0x00, 0x00, 0x00, 0x00, 0x6a, 0x78, 0x6c, 0x20,
    ];
    let c = head + be_bytes((n + 8) as nat, 4) + seq![0x6au8, 0x78, 0x6c, 0x63] + s;
    assert(low32(8 + n as int) == n + 8);
    assert(jxl_container_header(n) + s =~= c);
    assert(is_naked_jxl(s));
    lemma_be_bytes4(12);
    lemma_be_bytes4(20);
    assert(c.subrange(0, 4) =~= be_bytes(12, 4));
    assert(c.subrange(12, 16) =~= be_bytes(20, 4));
    assert(c.subrange(32, 36) =~= be_bytes((n + 8) as nat, 4));
    lemma_size_field(c, 0, 12);
    lemma_size_field(c, 12, 20);
    lemma_size_field(c, 32, (n + 8) as nat);
    assert(c.subrange(4, 8) =~= fourcc(0x4a, 0x58, 0x4c, 0x20));
    assert(c.subrange(16, 20) =~= fourcc(0x66, 0x74, 0x79, 0x70));
    assert(c.subrange(36, 40) =~= fourcc(0x6a, 0x78, 0x6c, 0x63));
    assert(!is_jxl_metadata_box(c, 0));
    assert(!is_jxl_metadata_box(c, 12));
    assert(!is_jxl_metadata_box(c, 32));
    assert(c.len() == 40 + n);
    assert(jxl_insert_scan(c, 40 + n as int) == c.len());
    assert(jxl_insert_scan(c, 32) == c.len());
    assert(jxl_insert_scan(c, 12) == c.len());
    assert(jxl_insert_scan(c, 0) == c.len());
    assert(iccp_box(icc) =~= be_bytes(((icc.len() + 8) % 0x1_0000_0000) as nat, 4) + seq![
        0x69u8,
        0x63,
        0x63,
        0x70,
    ] + icc);
    assert(c.subrange(0, c.len() as int) + iccp_box(icc) + c.subrange(c.len() as int, c.len() as int)
        =~= c + iccp_box(icc));
}

/// Embedding an ICC profile into JXL data always yields the container form
/// (the `JXL ` signature box type at bytes 4..8), with the whole `iccp` box
/// in it.
pub proof fn lemma_jxl_icc_is_container(s: Seq<u8>, icc: Seq<u8>)
    ensures
        jxl_with_icc(s, icc) matches Some(out) ==> {
            &&& is_jxl_container(out)
            &&& exists|p: int|
                0 <= p && p + iccp_box(icc).len() <= out.len() && #[trigger] out.subrange(
                    p,
                    p + iccp_box(icc).len(),
                ) == iccp_box(icc)
        },
{
    if let Some(out) = jxl_with_icc(s, icc) {
        let c = if is_naked_jxl(s) {
            jxl_container_header(s.len()) + s
        } else {
            s
        };
        assert(is_jxl_container(c)) by {
            if is_naked_jxl(s) {
                assert(c.subrange(4, 8) =~= fourcc(0x4a, 0x58, 0x4c, 0x20));
            }
        }
        let p = jxl_insert_scan(c, 0);
        let b = iccp_box(icc);
        lemma_jxl_insert_scan_range(c, 0);
        if 8 <= c.len() {
            let size = be_u32_at(c, 0);
            if !(size < 8 || size > c.len()) {
                assert(!is_jxl_metadata_box(c, 0)) by {
                    let t = c.subrange(4, 8);
                    assert(t[0] == 0x4a);
                }
                lemma_jxl_insert_scan_range(c, size as int);
            }
        }
        assert(p >= 8);
        assert(out == c.subrange(0, p) + b + c.subrange(p, c.len() as int));
        assert(out.subrange(4, 8) =~= c.subrange(4, 8));
        assert(out.subrange(p, p + b.len()) =~= b);
    }
}

/// Return the offset at which to insert an `iccp` box in a JXL container.
fn find_jxl_insert_pos(data: &[u8]) -> (r: usize)
    ensures
        r == jxl_insert_scan(data@, 0),
        r <= data@.len(),
{
    let n = data.len();
    let mut pos: usize = 0;
    while n >= 8 && pos <= n - 8
        invariant
            n == data@.len(),
            pos <= n,
            jxl_insert_scan(data@, 0) == jxl_insert_scan(data@, pos as int),
        decreases n - pos,
    {
        let size = read_u32_be(data, pos) as usize;
        if size < 8 || size > n - pos {
            return n;
        }
        let is_meta = (data[pos + 4] == 0x45 && data[pos + 5] == 0x78 && data[pos + 6] == 0x69
            && data[pos + 7] == 0x66) || (data[pos + 4] == 0x78 && data[pos + 5] == 0x6d
            && data[pos + 6] == 0x6c && data[pos + 7] == 0x20);
        proof {
            let t = data@.subrange(pos + 4, pos + 8);
            assert(t[0] == data@[pos + 4] && t[1] == data@[pos + 5] && t[2] == data@[pos + 6]
                && t[3] == data@[pos + 7]);
            if is_meta {
                assert(t =~= fourcc(0x45, 0x78, 0x69, 0x66) || t =~= fourcc(0x78, 0x6d, 0x6c, 0x20));
            }
        }
        if is_meta {
            return pos;
        }
        pos += size;
    }
    n
}

// ── AVIF ────────────────────────────────────────────────────────────────────

/// Which step of embedding into AVIF failed.
#[derive(Debug, Clone, Copy, PartialEq, Eq)]
pub enum AvifEmbedError {
    NoMeta,
    NoIprp,
    NoIpco,
    Iloc(IlocError),
}

/// The `colr` box of colour type `rICC` carrying `icc`.
pub open spec fn colr_icc_box(icc: Seq<u8>) -> Seq<u8> {
    be_bytes(low32(12 + icc.len() as int), 4) + fourcc(0x63, 0x6f, 0x6c, 0x72) + fourcc(
        0x72,
        0x49,
        0x43,
        0x43,
    ) + icc
}

/// Where the `colr` box goes: the offsets of the `meta`, `iprp` and `ipco`
/// boxes, and the byte range `[start, end)` the new box replaces.
pub struct ColrSlot {
    pub meta: int,
    pub iprp: int,
    pub ipco: int,
    pub start: int,
    pub end: int,
}

/// Finds `meta` at the top level, `iprp` in `meta`'s content (after its
/// 12-byte full-box header), `ipco` in `iprp`, and in `ipco` its first `colr`
/// box (replaced) or, when it has none, the start of its content (inserted at).
pub open spec fn colr_slot(s: Seq<u8>) -> Result<ColrSlot, AvifEmbedError> {
    match box_scan(s, 0, s.len() as int, fourcc(0x6d, 0x65, 0x74, 0x61)) {
        None => Err(AvifEmbedError::NoMeta),
        Some(m) => match box_scan(s, m + 12, m + be_u32_at(s, m), fourcc(0x69, 0x70, 0x72, 0x70)) {
            None => Err(AvifEmbedError::NoIprp),
            Some(ip) => match box_scan(
                s,
                ip + 8,
                ip + be_u32_at(s, ip),
                fourcc(0x69, 0x70, 0x63, 0x6f),
            ) {
                None => Err(AvifEmbedError::NoIpco),
                Some(co) => match box_scan(
                    s,
                    co + 8,
                    co + be_u32_at(s, co),
                    fourcc(0x63, 0x6f, 0x6c, 0x72),
                ) {
                    Some(c) => Ok(
                        ColrSlot { meta: m, iprp: ip, ipco: co, start: c, end: c + be_u32_at(s, c) },
                    ),
                    None => Ok(ColrSlot { meta: m, iprp: ip, ipco: co, start: co + 8, end: co + 8 }),
                },
            },
        },
    }
}

/// How much longer the data gets when `icc`'s box replaces the slot.
pub open spec fn slot_delta(icc: Seq<u8>, slot: ColrSlot) -> int {
    colr_icc_box(icc).len() - (slot.end - slot.start)
}

/// The data with the slot replaced by `icc`'s `colr` box and the sizes of
/// `ipco`, `iprp` and `meta` grown by the change in length.
pub open spec fn colr_spliced(s: Seq<u8>, icc: Seq<u8>, slot: ColrSlot) -> Seq<u8> {
    let delta = slot_delta(icc, slot);
    let spliced = s.subrange(0, slot.start) + colr_icc_box(icc) + s.subrange(
        slot.end,
        s.len() as int,
    );
    overwrite(
        overwrite(
            overwrite(spliced, slot.ipco, be_bytes(low32(be_u32_at(s, slot.ipco) + delta), 4)),
            slot.iprp,
            be_bytes(low32(be_u32_at(s, slot.iprp) + delta), 4),
        ),
        slot.meta,
        be_bytes(low32(be_u32_at(s, slot.meta) + delta), 4),
    )
}

/// AVIF data with `icc` embedded: the `colr` slot of `meta/iprp/ipco` is
/// filled with a `colr rICC` box, the enclosing box sizes grow by the change
/// in length, and the `iloc` box in the resized `meta`, if any, has its file
/// offsets moved by the same amount.
pub open spec fn avif_with_icc(s: Seq<u8>, icc: Seq<u8>) -> Result<Seq<u8>, AvifEmbedError> {
    match colr_slot(s) {
        Err(e) => Err(e),
        Ok(slot) => {
            let delta = slot_delta(icc, slot);
            let sized = colr_spliced(s, icc, slot);
            match box_scan(
                sized,
                slot.meta + 12,
                slot.meta + be_u32_at(s, slot.meta) + delta,
                fourcc(0x69, 0x6c, 0x6f, 0x63),
            ) {
                None => Ok(sized),
                Some(il) => match iloc_shifted(sized, il, delta) {
                    Ok(out) => Ok(out),
                    Err(e) => Err(AvifEmbedError::Iloc(e)),
                },
            }
        },
    }
}

/// The slot's boxes nest: `ipco` within `iprp`'s content, `iprp` within
/// `meta`'s, the slot within `ipco`'s, and `meta` within the data.
pub open spec fn slot_nested(s: Seq<u8>, slot: ColrSlot) -> bool {
    &&& box_fits(s, slot.meta)
    &&& box_fits(s, slot.iprp)
    &&& box_fits(s, slot.ipco)
    &&& slot.meta + 12 <= slot.iprp
    &&& slot.iprp + be_u32_at(s, slot.iprp) <= slot.meta + be_u32_at(s, slot.meta)
    &&& slot.iprp + 8 <= slot.ipco
    &&& slot.ipco + be_u32_at(s, slot.ipco) <= slot.iprp + be_u32_at(s, slot.iprp)
    &&& slot.ipco + 8 <= slot.start <= slot.end
    &&& slot.end <= slot.ipco + be_u32_at(s, slot.ipco)
}

/// Where `colr_slot` finds its slot, the boxes nest.
proof fn lemma_colr_slot_nested(s: Seq<u8>)
    ensures
        colr_slot(s) matches Ok(slot) ==> slot_nested(s, slot),
{
    let n = s.len() as int;
    lemma_box_scan_found(s, 0, n, fourcc(0x6d, 0x65, 0x74, 0x61));
    if let Some(m) = box_scan(s, 0, n, fourcc(0x6d, 0x65, 0x74, 0x61)) {
        let me = m + be_u32_at(s, m);
        lemma_box_scan_found(s, m + 12, me, fourcc(0x69, 0x70, 0x72, 0x70));
        if let Some(ip) = box_scan(s, m + 12, me, fourcc(0x69, 0x70, 0x72, 0x70)) {
            let ie = ip + be_u32_at(s, ip);
            lemma_box_scan_found(s, ip + 8, ie, fourcc(0x69, 0x70, 0x63, 0x6f));
            if let Some(co) = box_scan(s, ip + 8, ie, fourcc(0x69, 0x70, 0x63, 0x6f)) {
                let ce = co + be_u32_at(s, co);
                lemma_box_scan_found(s, co + 8, ce, fourcc(0x63, 0x6f, 0x6c, 0x72));
            }
        }
    }
}

/// Filling the slot keeps the bytes before `meta` and moves the bytes after
/// the slot by the change in length.
proof fn lemma_colr_spliced_frame(s: Seq<u8>, icc: Seq<u8>, slot: ColrSlot)
    requires
        slot_nested(s, slot),
    ensures
        colr_spliced(s, icc, slot).len() == s.len() + slot_delta(icc, slot),
        forall|q: int| 0 <= q < slot.meta ==> #[trigger] colr_spliced(s, icc, slot)[q] == s[q],
        forall|q: int|
            slot.end <= q < s.len() ==> #[trigger] colr_spliced(s, icc, slot)[q + slot_delta(icc, slot)]
                == s[q],
        forall|q: int|
            0 <= q < slot.start && !(slot.meta <= q < slot.meta + 4) && !(slot.iprp <= q < slot.iprp + 4)
                && !(slot.ipco <= q < slot.ipco + 4) ==> #[trigger] colr_spliced(s, icc, slot)[q] == s[q],
        colr_spliced(s, icc, slot).subrange(slot.iprp, slot.iprp + 4) == be_bytes(
            low32(be_u32_at(s, slot.iprp) + slot_delta(icc, slot)),
            4,
        ),
{
    let d = slot_delta(icc, slot);
    let b = colr_icc_box(icc);
    let spliced = s.subrange(0, slot.start) + b + s.subrange(slot.end, s.len() as int);
    let w1 = overwrite(spliced, slot.ipco, be_bytes(low32(be_u32_at(s, slot.ipco) + d), 4));
    let w2 = overwrite(w1, slot.iprp, be_bytes(low32(be_u32_at(s, slot.iprp) + d), 4));
    let w3 = overwrite(w2, slot.meta, be_bytes(low32(be_u32_at(s, slot.meta) + d), 4));
    assert(w3 == colr_spliced(s, icc, slot));
    assert(spliced.len() == s.len() + d);
    assert(w1.len() == spliced.len());
    assert(w2.len() == spliced.len());
    assert(w3.len() == spliced.len());
    assert forall|q: int| 0 <= q < slot.meta implies #[trigger] colr_spliced(s, icc, slot)[q] == s[q] by {
        assert(w3[q] == w2[q]);
        assert(w2[q] == w1[q]);
        assert(w1[q] == spliced[q]);
    }
    assert forall|q: int| slot.end <= q < s.len() implies #[trigger] colr_spliced(s, icc, slot)[q + d]
        == s[q] by {
        let r = q + d;
        assert(r >= slot.start + b.len());
        assert(w3[r] == w2[r]);
        assert(w2[r] == w1[r]);
        assert(w1[r] == spliced[r]);
        assert(spliced[r] == s.subrange(slot.end, s.len() as int)[r - slot.start - b.len()]);
    }
    assert forall|q: int|
        0 <= q < slot.start && !(slot.meta <= q < slot.meta + 4) && !(slot.iprp <= q < slot.iprp + 4)
            && !(slot.ipco <= q < slot.ipco + 4) implies #[trigger] colr_spliced(s, icc, slot)[q] == s[q] by {
        assert(w3[q] == w2[q]);
        assert(w2[q] == w1[q]);
        assert(w1[q] == spliced[q]);
    }
    assert(w3.subrange(slot.iprp, slot.iprp + 4) =~= w2.subrange(slot.iprp, slot.iprp + 4));
}

/// The filled data holds the new size fields of `meta` and `ipco` and the
/// `colr` box at the slot.
proof fn lemma_colr_spliced_headers(s: Seq<u8>, icc: Seq<u8>, slot: ColrSlot)
    requires
        slot_nested(s, slot),
    ensures
        colr_spliced(s, icc, slot).subrange(slot.meta, slot.meta + 4) == be_bytes(
            low32(be_u32_at(s, slot.meta) + slot_delta(icc, slot)),
            4,
        ),
        colr_spliced(s, icc, slot).subrange(slot.ipco, slot.ipco + 4) == be_bytes(
            low32(be_u32_at(s, slot.ipco) + slot_delta(icc, slot)),
            4,
        ),
        colr_spliced(s, icc, slot).subrange(slot.start, slot.start + colr_icc_box(icc).len())
            == colr_icc_box(icc),
{
    let d = slot_delta(icc, slot);
    let b = colr_icc_box(icc);
    let spliced = s.subrange(0, slot.start) + b + s.subrange(slot.end, s.len() as int);
    let w1 = overwrite(spliced, slot.ipco, be_bytes(low32(be_u32_at(s, slot.ipco) + d), 4));
    let w2 = overwrite(w1, slot.iprp, be_bytes(low32(be_u32_at(s, slot.iprp) + d), 4));
    let w3 = overwrite(w2, slot.meta, be_bytes(low32(be_u32_at(s, slot.meta) + d), 4));
    assert(w3 == colr_spliced(s, icc, slot));
    assert(w3.subrange(slot.meta, slot.meta + 4) =~= be_bytes(low32(be_u32_at(s, slot.meta) + d), 4));
    assert(w3.subrange(slot.ipco, slot.ipco + 4) =~= w1.subrange(slot.ipco, slot.ipco + 4));
    assert(w3.subrange(slot.start, slot.start + b.len()) =~= spliced.subrange(
        slot.start,
        slot.start + b.len(),
    ));
    assert(spliced.subrange(slot.start, slot.start + b.len()) =~= b);
}

/// Embedding an ICC profile in AVIF data keeps every byte before the `meta`
/// box and moves every byte after `meta` by the change in length.
#[verifier::spinoff_prover]
pub proof fn lemma_avif_icc_keeps_outside_meta(s: Seq<u8>, icc: Seq<u8>)
    ensures
        avif_with_icc(s, icc) matches Ok(out) ==> match colr_slot(s) {
            Ok(slot) => {
                let d = slot_delta(icc, slot);
                let meta_end = slot.meta + be_u32_at(s, slot.meta);
                &&& out.len() == s.len() + d
                &&& out.subrange(0, slot.meta) == s.subrange(0, slot.meta)
                &&& out.subrange(meta_end + d, out.len() as int) == s.subrange(
                    meta_end,
                    s.len() as int,
                )
            },
            Err(_) => false,
        },
{
    lemma_colr_slot_nested(s);
    if let Ok(slot) = colr_slot(s) {
        let d = slot_delta(icc, slot);
        let meta_end = slot.meta + be_u32_at(s, slot.meta);
        let sized = colr_spliced(s, icc, slot);
        lemma_colr_spliced_frame(s, icc, slot);
        let iloc_t = fourcc(0x69, 0x6c, 0x6f, 0x63);
        lemma_box_scan_found(sized, slot.meta + 12, meta_end + d, iloc_t);
        if let Ok(out) = avif_with_icc(s, icc) {
            let lo = slot.meta;
            let hi = meta_end + d;
            let keeps = forall|q: int| 0 <= q < sized.len() && (q < lo || q >= hi) ==> #[trigger] out[q] == sized[q];
            match box_scan(sized, slot.meta + 12, meta_end + d, iloc_t) {
                None => {
                    assert(out == sized);
                },
                Some(il) => {
                    lemma_iloc_shift_frame(sized, il, d);
                    assert(out.len() == sized.len());
                },
            }
            assert(keeps);
            assert(out.len() == s.len() + d);
            assert(out.subrange(0, lo) =~= s.subrange(0, lo));
            assert forall|k: int| 0 <= k < s.len() - meta_end implies out.subrange(
                hi,
                out.len() as int,
            )[k] == s.subrange(meta_end, s.len() as int)[k] by {
                assert(out[hi + k] == sized[hi + k]);
                assert(sized[(meta_end + k) + d] == s[meta_end + k]);
            }
            assert(out.subrange(hi, out.len() as int) =~= s.subrange(meta_end, s.len() as int));
        }
    }
}

/// A walk over the boxes of a container whose box at `ip` grew by `d` (its
/// size field updated, the bytes before it and its header kept, and the bytes
/// from `se` on moved by `d`) finds a box before `ip` where it was, and one
/// after it moved by `d`.
#[verifier::spinoff_prover]
proof fn lemma_walk_past_grown_box(
    s: Seq<u8>,
    t: Seq<u8>,
    pos: int,
    end: int,
    d: int,
    ip: int,
    se: int,
    typ: Seq<u8>,
    ip_typ: Seq<u8>,
)
    requires
        0 <= pos,
        end <= s.len(),
        t.len() == s.len() + d,
        typ != ip_typ,
        box_scan(s, pos, end, ip_typ) == Some(ip),
        box_scan(s, pos, end, typ) is Some,
        forall|y: int| pos <= y < ip ==> t[y] == s[y],
        t.subrange(ip + 4, ip + 8) == s.subrange(ip + 4, ip + 8),
        be_u32_at(t, ip) == be_u32_at(s, ip) + d,
        be_u32_at(s, ip) + d >= 8,
        se <= ip + be_u32_at(s, ip),
        forall|z: int| se <= z < s.len() ==> t[z + d] == s[z],
    ensures
        ({
            let a = box_scan(s, pos, end, typ)->Some_0;
            &&& box_fits(s, a)
            &&& box_scan(t, pos, end + d, typ) == Some(if a < ip {
                a
            } else {
                a + d
            })
            &&& (a < ip ==> a + be_u32_at(s, a) <= ip)
            &&& (a >= ip ==> ip + be_u32_at(s, ip) <= a)
        }),
{
    let a = box_scan(s, pos, end, typ)->Some_0;
    let ip_size = be_u32_at(s, ip);
    let ip_end = ip + ip_size;
    lemma_box_scan_found(s, pos, end, ip_typ);
    lemma_box_scan_found(s, pos, end, typ);
    lemma_box_scan_order(s, pos, end, typ, ip_typ);
    if a < ip {
        lemma_box_scan_same_prefix(s, t, pos, end, end + d, typ);
    } else {
        lemma_box_scan_pass_prefix(s, t, pos, end, end + d, typ, ip_typ);
        assert(!box_type_is(s, ip, typ));
        assert(box_scan(t, ip, end + d, typ) == box_scan(t, ip_end + d, end + d, typ));
        assert forall|z: int| ip_end <= z < end implies t[z + d] == s[z] by {}
        lemma_box_scan_translate(s, t, ip_end, end, d, typ);
        assert(box_scan(s, ip, end, typ) == box_scan(s, ip_end, end, typ));
        lemma_box_scan_found(s, ip_end, end, typ);
    }
}

/// The filled data keeps `iprp`'s header but its size, grown by the change in
/// length when that fits its field.
#[verifier::spinoff_prover]
proof fn lemma_spliced_iprp(s: Seq<u8>, icc: Seq<u8>, slot: ColrSlot)
    requires
        slot_nested(s, slot),
        be_u32_at(s, slot.iprp) + slot_delta(icc, slot) < 0x1_0000_0000,
    ensures
        ({
            let t = colr_spliced(s, icc, slot);
            let d = slot_delta(icc, slot);
            &&& t.len() == s.len() + d
            &&& forall|y: int| slot.meta + 12 <= y < slot.iprp ==> t[y] == s[y]
            &&& t.subrange(slot.iprp + 4, slot.iprp + 8) == s.subrange(slot.iprp + 4, slot.iprp + 8)
            &&& be_u32_at(t, slot.iprp) == be_u32_at(s, slot.iprp) + d
            &&& be_u32_at(s, slot.iprp) + d >= 8
            &&& slot.end <= slot.iprp + be_u32_at(s, slot.iprp)
            &&& forall|z: int| slot.end <= z < s.len() ==> t[z + d] == s[z]
        }),
{
    let t = colr_spliced(s, icc, slot);
    let d = slot_delta(icc, slot);
    lemma_colr_spliced_frame(s, icc, slot);
    assert forall|y: int| slot.meta + 12 <= y < slot.iprp implies t[y] == s[y] by {}
    assert(t.subrange(slot.iprp + 4, slot.iprp + 8) =~= s.subrange(slot.iprp + 4, slot.iprp + 8));
    lemma_pow256_values();
    lemma_be_roundtrip_exact(low32(be_u32_at(s, slot.iprp) + d), 4);
    assert forall|z: int| slot.end <= z < s.len() implies t[z + d] == s[z] by {}
}

/// The `iloc` box of `meta` as the embedding walks to it: found in the filled
/// data at its old place (before `iprp`) or moved by the change in length.
#[verifier::spinoff_prover]
proof fn lemma_iloc_found_after_splice(s: Seq<u8>, icc: Seq<u8>, slot: ColrSlot)
    requires
        colr_slot(s) == Ok::<ColrSlot, AvifEmbedError>(slot),
        box_scan(s, slot.meta + 12, slot.meta + be_u32_at(s, slot.meta), fourcc(0x69, 0x6c, 0x6f, 0x63))
            is Some,
        be_u32_at(s, slot.iprp) + slot_delta(icc, slot) < 0x1_0000_0000,
    ensures
        ({
            let d = slot_delta(icc, slot);
            let me = slot.meta + be_u32_at(s, slot.meta);
            let il = box_scan(s, slot.meta + 12, me, fourcc(0x69, 0x6c, 0x6f, 0x63))->Some_0;
            let t = colr_spliced(s, icc, slot);
            let o = if il < slot.iprp {
                0
            } else {
                d
            };
            &&& box_fits(s, il)
            &&& 0 <= il + o
            &&& il + o + be_u32_at(s, il) <= t.len()
            &&& box_scan(t, slot.meta + 12, me + d, fourcc(0x69, 0x6c, 0x6f, 0x63)) == Some(il + o)
            &&& forall|y: int| il <= y < il + be_u32_at(s, il) ==> t[y + o] == s[y]
        }),
{
    let d = slot_delta(icc, slot);
    let me = slot.meta + be_u32_at(s, slot.meta);
    let m12 = slot.meta + 12;
    let iloc_t = fourcc(0x69, 0x6c, 0x6f, 0x63);
    let iprp_t = fourcc(0x69, 0x70, 0x72, 0x70);
    let t = colr_spliced(s, icc, slot);
    lemma_colr_slot_nested(s);
    lemma_box_scan_found(s, 0, s.len() as int, fourcc(0x6d, 0x65, 0x74, 0x61));
    assert(box_scan(s, m12, me, iprp_t) == Some(slot.iprp));
    assert(iloc_t != iprp_t) by {
        assert(iloc_t[2] != iprp_t[2]);
    }
    lemma_spliced_iprp(s, icc, slot);
    lemma_walk_past_grown_box(s, t, m12, me, d, slot.iprp, slot.end, iloc_t, iprp_t);
    let il = box_scan(s, m12, me, iloc_t)->Some_0;
    let o = if il < slot.iprp {
        0
    } else {
        d
    };
    lemma_box_scan_found(s, m12, me, iloc_t);
    assert forall|y: int| il <= y < il + be_u32_at(s, il) implies t[y + o] == s[y] by {
        if il < slot.iprp {
            assert(m12 <= y < slot.iprp);
            assert(t[y] == s[y]);
        } else {
            assert(slot.end <= y < s.len());
            assert(t[y + d] == s[y]);
        }
    }
}

/// Embedding an ICC profile in AVIF data keeps item data findable. Take the
/// `iloc` box of `meta` and its `k`-th file offset, holding `v` and pointing
/// past `meta`: the output's `iloc` box (where it was, or moved by the change
/// in length when it follows `iprp`) holds `v` plus the change in length in
/// that field, and byte `v + j` of the input is found at that offset plus `j`.
/// This needs `iprp`'s grown size to fit its 32-bit field.
#[verifier::spinoff_prover]
pub proof fn lemma_avif_icc_items_follow(s: Seq<u8>, icc: Seq<u8>, k: int, j: int)
    ensures
        match (avif_with_icc(s, icc), colr_slot(s)) {
            (Ok(out), Ok(slot)) => {
                let d = slot_delta(icc, slot);
                let me = slot.meta + be_u32_at(s, slot.meta);
                match box_scan(s, slot.meta + 12, me, fourcc(0x69, 0x6c, 0x6f, 0x63)) {
                    Some(il) => match iloc_offset_fields(s, il) {
                        Ok(f) => {
                            let moved = if il < slot.iprp {
                                0
                            } else {
                                d
                            };
                            let v = be_uint(s.subrange(f[k].0, f[k].0 + f[k].1));
                            (be_u32_at(s, slot.iprp) + d < 0x1_0000_0000 && 0 <= k < f.len() && me <= v
                                && 0 <= j && v + j < s.len()) ==> {
                                &&& be_uint(out.subrange(f[k].0 + moved, f[k].0 + moved + f[k].1)) == v + d
                                &&& out[v + d + j] == s[v + j]
                            }
                        },
                        Err(_) => true,
                    },
                    None => true,
                }
            },
            _ => true,
        },
{
    if let (Ok(out), Ok(slot)) = (avif_with_icc(s, icc), colr_slot(s)) {
        let d = slot_delta(icc, slot);
        let me = slot.meta + be_u32_at(s, slot.meta);
        let iloc_t = fourcc(0x69, 0x6c, 0x6f, 0x63);
        if let Some(il) = box_scan(s, slot.meta + 12, me, iloc_t) {
            if let Ok(f) = iloc_offset_fields(s, il) {
                let v = be_uint(s.subrange(f[k].0, f[k].0 + f[k].1));
                if be_u32_at(s, slot.iprp) + d < 0x1_0000_0000 && 0 <= k < f.len() && me <= v && 0 <= j
                    && v + j < s.len() {
                    lemma_iloc_found_after_splice(s, icc, slot);
                    lemma_avif_icc_keeps_outside_meta(s, icc);
                    let t = colr_spliced(s, icc, slot);
                    let o = if il < slot.iprp {
                        0
                    } else {
                        d
                    };
                    assert(out == iloc_shifted(t, il + o, d)->Ok_0);
                    lemma_iloc_moved_box_shift(s, t, il, o, d, f, k);
                    let q = v + j;
                    assert(out.subrange(me + d, out.len() as int)[q - me] == s.subrange(
                        me,
                        s.len() as int,
                    )[q - me]);
                }
            }
        }
    }
}

/// The embedding's sizes fit their 32-bit fields: `meta`, `iprp` and `ipco`
/// grown by the change in length.
pub open spec fn grown_sizes_fit(s: Seq<u8>, icc: Seq<u8>, slot: ColrSlot) -> bool {
    &&& be_u32_at(s, slot.meta) + slot_delta(icc, slot) < 0x1_0000_0000
    &&& be_u32_at(s, slot.iprp) + slot_delta(icc, slot) < 0x1_0000_0000
    &&& be_u32_at(s, slot.ipco) + slot_delta(icc, slot) < 0x1_0000_0000
}

/// The slot of filled data: the same boxes, and the new `colr` box of `len` bytes.
pub open spec fn filled_slot(slot: ColrSlot, len: int) -> ColrSlot {
    ColrSlot { meta: slot.meta, iprp: slot.iprp, ipco: slot.ipco, start: slot.start, end: slot.start + len }
}

/// The four-byte size at `pos` of the filled data is the old size grown by
/// the change in length, when that fits.
proof fn lemma_grown_size(t: Seq<u8>, pos: int, v: int)
    requires
        0 <= v < 0x1_0000_0000,
        t.subrange(pos, pos + 4) == be_bytes(low32(v), 4),
    ensures
        be_u32_at(t, pos) == v,
{
    lemma_pow256_values();
    lemma_be_roundtrip_exact(low32(v), 4);
}

/// The walks of `colr_slot` over data that keeps the bytes before the slot
/// (but the three box sizes, grown by `d`) and holds a `colr` box of `len`
/// bytes at the slot's start, ending `d` bytes after the old slot end.
#[verifier::spinoff_prover]
proof fn lemma_colr_slot_walks(s: Seq<u8>, t: Seq<u8>, slot: ColrSlot, d: int, len: int)
    requires
        colr_slot(s) == Ok::<ColrSlot, AvifEmbedError>(slot),
        slot_nested(s, slot),
        t.len() == s.len() + d,
        forall|y: int|
            0 <= y < slot.start && !(slot.meta <= y < slot.meta + 4) && !(slot.iprp <= y < slot.iprp + 4)
                && !(slot.ipco <= y < slot.ipco + 4) ==> #[trigger] t[y] == s[y],
        be_u32_at(t, slot.meta) == be_u32_at(s, slot.meta) + d,
        be_u32_at(t, slot.iprp) == be_u32_at(s, slot.iprp) + d,
        be_u32_at(t, slot.ipco) == be_u32_at(s, slot.ipco) + d,
        be_u32_at(t, slot.start) == len,
        t.subrange(slot.start + 4, slot.start + 8) == fourcc(0x63, 0x6f, 0x6c, 0x72),
        8 <= len,
        len == slot.end - slot.start + d,
    ensures
        colr_slot(t) == Ok::<ColrSlot, AvifEmbedError>(filled_slot(slot, len)),
{
    let m = slot.meta;
    let ip = slot.iprp;
    let co = slot.ipco;
    let meta_t = fourcc(0x6d, 0x65, 0x74, 0x61);
    let iprp_t = fourcc(0x69, 0x70, 0x72, 0x70);
    let ipco_t = fourcc(0x69, 0x70, 0x63, 0x6f);
    let colr_t = fourcc(0x63, 0x6f, 0x6c, 0x72);
    lemma_box_scan_found(s, 0, s.len() as int, meta_t);
    let me = m + be_u32_at(s, m);
    let ie = ip + be_u32_at(s, ip);
    let ce = co + be_u32_at(s, co);
    assert(box_scan(s, 0, s.len() as int, meta_t) == Some(m));
    assert(box_scan(s, m + 12, me, iprp_t) == Some(ip));
    assert(box_scan(s, ip + 8, ie, ipco_t) == Some(co));
    assert(t.subrange(m + 4, m + 8) =~= s.subrange(m + 4, m + 8));
    lemma_box_scan_resized(s, t, 0, s.len() as int, t.len() as int, meta_t);
    assert(t.subrange(ip + 4, ip + 8) =~= s.subrange(ip + 4, ip + 8));
    lemma_box_scan_resized(s, t, m + 12, me, me + d, iprp_t);
    assert(t.subrange(co + 4, co + 8) =~= s.subrange(co + 4, co + 8));
    lemma_box_scan_resized(s, t, ip + 8, ie, ie + d, ipco_t);
    match box_scan(s, co + 8, ce, colr_t) {
        Some(c) => {
            lemma_box_scan_found(s, co + 8, ce, colr_t);
            lemma_box_scan_resized(s, t, co + 8, ce, ce + d, colr_t);
        },
        None => {
            assert(box_type_is(t, co + 8, colr_t));
        },
    }
}

/// Where the slot is in the filled data: the walks find the same `meta`,
/// `iprp` and `ipco`, and in `ipco` the new `colr` box first.
#[verifier::spinoff_prover]
proof fn lemma_colr_slot_filled(s: Seq<u8>, icc: Seq<u8>, slot: ColrSlot)
    requires
        colr_slot(s) == Ok::<ColrSlot, AvifEmbedError>(slot),
        grown_sizes_fit(s, icc, slot),
    ensures
        ({
            let t = colr_spliced(s, icc, slot);
            let d = slot_delta(icc, slot);
            &&& colr_slot(t) == Ok::<ColrSlot, AvifEmbedError>(
                filled_slot(slot, colr_icc_box(icc).len() as int),
            )
            &&& be_u32_at(t, slot.meta) == be_u32_at(s, slot.meta) + d
            &&& be_u32_at(t, slot.iprp) == be_u32_at(s, slot.iprp) + d
            &&& be_u32_at(t, slot.ipco) == be_u32_at(s, slot.ipco) + d
            &&& be_u32_at(t, slot.start) == colr_icc_box(icc).len()
        }),
{
    let t = colr_spliced(s, icc, slot);
    let d = slot_delta(icc, slot);
    let b = colr_icc_box(icc);
    lemma_colr_slot_nested(s);
    lemma_colr_spliced_frame(s, icc, slot);
    lemma_colr_spliced_headers(s, icc, slot);
    lemma_grown_size(t, slot.meta, be_u32_at(s, slot.meta) + d);
    lemma_grown_size(t, slot.iprp, be_u32_at(s, slot.iprp) + d);
    lemma_grown_size(t, slot.ipco, be_u32_at(s, slot.ipco) + d);
    assert(t.subrange(slot.start, slot.start + 4) =~= b.subrange(0, 4));
    assert(b.subrange(0, 4) =~= be_bytes(low32(12 + icc.len() as int), 4));
    lemma_grown_size(t, slot.start, 12 + icc.len() as int);
    assert(t.subrange(slot.start + 4, slot.start + 8) =~= b.subrange(4, 8));
    assert(b.subrange(4, 8) =~= fourcc(0x63, 0x6f, 0x6c, 0x72));
    lemma_colr_slot_walks(s, t, slot, d, b.len() as int);
}

/// Filling a slot that already holds exactly the new `colr` box changes nothing.
proof fn lemma_colr_spliced_same(u: Seq<u8>, icc: Seq<u8>, slot: ColrSlot)
    requires
        0 <= slot.meta,
        0 <= slot.iprp,
        0 <= slot.ipco,
        slot.meta + 4 <= u.len(),
        slot.iprp + 4 <= u.len(),
        slot.ipco + 4 <= u.len(),
        0 <= slot.start,
        slot.end == slot.start + colr_icc_box(icc).len(),
        slot.end <= u.len(),
        u.subrange(slot.start, slot.end) == colr_icc_box(icc),
    ensures
        slot_delta(icc, slot) == 0,
        colr_spliced(u, icc, slot) == u,
{
    let b = colr_icc_box(icc);
    let spliced = u.subrange(0, slot.start) + b + u.subrange(slot.end, u.len() as int);
    assert(spliced =~= u);
    lemma_pow256_values();
    let a = u.subrange(slot.ipco, slot.ipco + 4);
    let c = u.subrange(slot.iprp, slot.iprp + 4);
    let e = u.subrange(slot.meta, slot.meta + 4);
    lemma_be_uint_bound(a);
    lemma_be_uint_bound(c);
    lemma_be_uint_bound(e);
    lemma_be_bytes_of_uint(a);
    lemma_be_bytes_of_uint(c);
    lemma_be_bytes_of_uint(e);
    assert(low32(be_u32_at(u, slot.ipco) + slot_delta(icc, slot)) == be_u32_at(u, slot.ipco));
    assert(low32(be_u32_at(u, slot.iprp) + slot_delta(icc, slot)) == be_u32_at(u, slot.iprp));
    assert(low32(be_u32_at(u, slot.meta) + slot_delta(icc, slot)) == be_u32_at(u, slot.meta));
    assert(overwrite(u, slot.ipco, a) =~= u);
    assert(overwrite(u, slot.iprp, c) =~= u);
    assert(overwrite(u, slot.meta, e) =~= u);
}

/// Changing the body of the `iloc` box of `meta` changes neither where
/// `colr_slot` finds its slot nor the walk to the `iloc` box.
#[verifier::spinoff_prover]
proof fn lemma_colr_slot_iloc_body(t: Seq<u8>, u: Seq<u8>, slot: ColrSlot, il: int)
    requires
        colr_slot(t) == Ok::<ColrSlot, AvifEmbedError>(slot),
        u.len() == t.len(),
        box_scan(t, slot.meta + 12, slot.meta + be_u32_at(t, slot.meta), fourcc(0x69, 0x6c, 0x6f, 0x63))
            == Some(il),
        forall|y: int|
            0 <= y < t.len() && !(il + 8 <= y < il + be_u32_at(t, il)) ==> #[trigger] u[y] == t[y],
    ensures
        colr_slot(u) == colr_slot(t),
        be_u32_at(u, slot.meta) == be_u32_at(t, slot.meta),
        u.subrange(slot.start, slot.end) == t.subrange(slot.start, slot.end),
        box_scan(u, slot.meta + 12, slot.meta + be_u32_at(t, slot.meta), fourcc(0x69, 0x6c, 0x6f, 0x63))
            == Some(il),
{
    let m = slot.meta;
    let ip = slot.iprp;
    let co = slot.ipco;
    let meta_t = fourcc(0x6d, 0x65, 0x74, 0x61);
    let iprp_t = fourcc(0x69, 0x70, 0x72, 0x70);
    let ipco_t = fourcc(0x69, 0x70, 0x63, 0x6f);
    let colr_t = fourcc(0x63, 0x6f, 0x6c, 0x72);
    let iloc_t = fourcc(0x69, 0x6c, 0x6f, 0x63);
    lemma_colr_slot_nested(t);
    let me = m + be_u32_at(t, m);
    let ie = ip + be_u32_at(t, ip);
    let ce = co + be_u32_at(t, co);
    lemma_box_scan_found(t, 0, t.len() as int, meta_t);
    lemma_box_scan_found(t, m + 12, me, iloc_t);
    lemma_box_scan_found(t, m + 12, me, iprp_t);
    assert(box_scan(t, 0, t.len() as int, meta_t) == Some(m));
    assert(box_scan(t, m + 12, me, iprp_t) == Some(ip));
    assert(box_scan(t, ip + 8, ie, ipco_t) == Some(co));
    // The iloc box lies before iprp or after it.
    assert(iloc_t != iprp_t) by {
        assert(iloc_t[2] != iprp_t[2]);
    }
    lemma_box_scan_order(t, m + 12, me, iloc_t, iprp_t);
    if !(il + be_u32_at(t, il) <= ip) {
        assert(!box_type_is(t, ip, iloc_t));
        lemma_box_scan_found(t, ie, me, iloc_t);
        assert(ie <= il);
    }
    // meta, then the walks inside it.
    lemma_box_scan_body_change(t, u, 0, t.len() as int, meta_t, meta_t);
    assert(u.subrange(m, m + 4) =~= t.subrange(m, m + 4));
    assert(u.subrange(ip, ip + 4) =~= t.subrange(ip, ip + 4));
    assert(u.subrange(co, co + 4) =~= t.subrange(co, co + 4));
    lemma_box_scan_body_change(t, u, m + 12, me, iloc_t, iprp_t);
    lemma_box_scan_body_change(t, u, m + 12, me, iloc_t, iloc_t);
    assert forall|y: int| ip + 8 <= y < ie implies u[y] == t[y] by {}
    lemma_box_scan_same_bytes(t, u, ip + 8, ie, ipco_t);
    assert forall|y: int| co + 8 <= y < ce implies u[y] == t[y] by {}
    lemma_box_scan_same_bytes(t, u, co + 8, ce, colr_t);
    match box_scan(t, co + 8, ce, colr_t) {
        Some(c) => {
            lemma_box_scan_found(t, co + 8, ce, colr_t);
            assert(u.subrange(c, c + 4) =~= t.subrange(c, c + 4));
        },
        None => {},
    }
    assert(u.subrange(slot.start, slot.end) =~= t.subrange(slot.start, slot.end));
}

/// Data whose slot already holds the `colr` box, and whose `iloc` box (if
/// any) relocates by zero to itself, is what embedding gives back.
proof fn lemma_avif_fixed_point(u: Seq<u8>, icc: Seq<u8>, slot: ColrSlot)
    requires
        colr_slot(u) == Ok::<ColrSlot, AvifEmbedError>(slot),
        slot_delta(icc, slot) == 0,
        colr_spliced(u, icc, slot) == u,
        box_scan(
            u,
            slot.meta + 12,
            slot.meta + be_u32_at(u, slot.meta),
            fourcc(0x69, 0x6c, 0x6f, 0x63),
        ) matches Some(il) ==> iloc_shifted(u, il, 0) == Ok::<Seq<u8>, IlocError>(u),
    ensures
        avif_with_icc(u, icc) == Ok::<Seq<u8>, AvifEmbedError>(u),
{
}

/// Data whose slot holds the `colr` box, relocated by any amount, is a fixed
/// point of embedding.
#[verifier::spinoff_prover]
proof fn lemma_avif_filled_fixed(t: Seq<u8>, icc: Seq<u8>, slot: ColrSlot, d: int, out: Seq<u8>)
    requires
        colr_slot(t) == Ok::<ColrSlot, AvifEmbedError>(slot),
        slot.end == slot.start + colr_icc_box(icc).len(),
        t.subrange(slot.start, slot.end) == colr_icc_box(icc),
        match box_scan(
            t,
            slot.meta + 12,
            slot.meta + be_u32_at(t, slot.meta),
            fourcc(0x69, 0x6c, 0x6f, 0x63),
        ) {
            None => out == t,
            Some(il) => iloc_shifted(t, il, d) == Ok::<Seq<u8>, IlocError>(out),
        },
    ensures
        avif_with_icc(out, icc) == Ok::<Seq<u8>, AvifEmbedError>(out),
{
    let iloc_t = fourcc(0x69, 0x6c, 0x6f, 0x63);
    let m = slot.meta;
    lemma_colr_slot_nested(t);
    match box_scan(t, m + 12, m + be_u32_at(t, m), iloc_t) {
        None => {
            lemma_colr_spliced_same(t, icc, slot);
            lemma_avif_fixed_point(t, icc, slot);
        },
        Some(il) => {
            lemma_box_scan_found(t, m + 12, m + be_u32_at(t, m), iloc_t);
            lemma_iloc_shift_then_zero(t, il, d);
            lemma_colr_slot_iloc_body(t, out, slot, il);
            lemma_colr_spliced_same(out, icc, slot);
            lemma_avif_fixed_point(out, icc, slot);
        },
    }
}

/// The data filled and relocated once is a fixed point of embedding.
#[verifier::spinoff_prover]
proof fn lemma_avif_embedded_fixed(s: Seq<u8>, icc: Seq<u8>, slot: ColrSlot, out: Seq<u8>)
    requires
        colr_slot(s) == Ok::<ColrSlot, AvifEmbedError>(slot),
        grown_sizes_fit(s, icc, slot),
        match box_scan(
            colr_spliced(s, icc, slot),
            slot.meta + 12,
            slot.meta + be_u32_at(s, slot.meta) + slot_delta(icc, slot),
            fourcc(0x69, 0x6c, 0x6f, 0x63),
        ) {
            None => out == colr_spliced(s, icc, slot),
            Some(il) => iloc_shifted(colr_spliced(s, icc, slot), il, slot_delta(icc, slot)) == Ok::<
                Seq<u8>,
                IlocError,
            >(out),
        },
    ensures
        avif_with_icc(out, icc) == Ok::<Seq<u8>, AvifEmbedError>(out),
{
    let t = colr_spliced(s, icc, slot);
    let len = colr_icc_box(icc).len() as int;
    lemma_colr_slot_filled(s, icc, slot);
    lemma_colr_slot_nested(s);
    lemma_colr_spliced_headers(s, icc, slot);
    lemma_avif_filled_fixed(t, icc, filled_slot(slot, len), slot_delta(icc, slot), out);
}

/// Embedding the same ICC profile into AVIF data twice gives the bytes of
/// embedding it once, when the grown `meta`, `iprp` and `ipco` sizes fit their
/// 32-bit fields.
pub proof fn lemma_avif_icc_idempotent(s: Seq<u8>, icc: Seq<u8>)
    ensures
        match (avif_with_icc(s, icc), colr_slot(s)) {
            (Ok(out), Ok(slot)) => grown_sizes_fit(s, icc, slot) ==> avif_with_icc(out, icc) == Ok::<
                Seq<u8>,
                AvifEmbedError,
            >(out),
            _ => true,
        },
{
    if let (Ok(out), Ok(slot)) = (avif_with_icc(s, icc), colr_slot(s)) {
        if grown_sizes_fit(s, icc, slot) {
            lemma_avif_embedded_fixed(s, icc, slot, out);
        }
    }
}

/// The message an AVIF embedding failure is reported with.
pub open spec fn avif_error_text(e: AvifEmbedError) -> Seq<char> {
    match e {
        AvifEmbedError::NoMeta => "no meta box in AVIF"@,
        AvifEmbedError::NoIprp => "no iprp box in AVIF"@,
        AvifEmbedError::NoIpco => "no ipco box in AVIF"@,
        AvifEmbedError::Iloc(IlocError::Truncated) => "iloc box truncated"@,
        AvifEmbedError::Iloc(IlocError::UnsupportedVersion) => "unsupported iloc version"@,
        AvifEmbedError::Iloc(IlocError::UnsupportedFieldSize) => "unsupported iloc field size"@,
        AvifEmbedError::Iloc(IlocError::OffsetOutOfRange) => "iloc offset out of range"@,
    }
}

fn avif_error_message(e: AvifEmbedError) -> (m: String)
    ensures
        m@ == avif_error_text(e),
{
    match e {
        AvifEmbedError::NoMeta => String::from_str("no meta box in AVIF"),
        AvifEmbedError::NoIprp => String::from_str("no iprp box in AVIF"),
        AvifEmbedError::NoIpco => String::from_str("no ipco box in AVIF"),
        AvifEmbedError::Iloc(IlocError::Truncated) => String::from_str("iloc box truncated"),
        AvifEmbedError::Iloc(IlocError::UnsupportedVersion) => String::from_str(
            "unsupported iloc version",
        ),
        AvifEmbedError::Iloc(IlocError::UnsupportedFieldSize) => String::from_str(
            "unsupported iloc field size",
        ),
        AvifEmbedError::Iloc(IlocError::OffsetOutOfRange) => String::from_str(
            "iloc offset out of range",
        ),
    }
}

fn avif_err(e: AvifEmbedError) -> (r: Result<Vec<u8>, IccError>)
    ensures
        r matches Err(IccError::Container(m)) && m@ == avif_error_text(e),
{
    Err(IccError::Container(avif_error_message(e)))
}

/// Locates the `colr` slot; see `colr_slot`.
fn find_colr_slot(data: &[u8]) -> (r: Result<(usize, usize, usize, usize, usize), AvifEmbedError>)
    requires
        data@.len() + 12 <= usize::MAX,
    ensures
        match r {
            Ok((m, ip, co, st, en)) => {
                let slot = ColrSlot {
                    meta: m as int,
                    iprp: ip as int,
                    ipco: co as int,
                    start: st as int,
                    end: en as int,
                };
                colr_slot(data@) == Ok::<ColrSlot, AvifEmbedError>(slot) && slot_nested(data@, slot)
            },
            Err(e) => colr_slot(data@) == Err::<ColrSlot, AvifEmbedError>(e),
        },
{
    let n = data.len();
    let meta_t: [u8; 4] = [0x6d, 0x65, 0x74, 0x61];
    let iprp_t: [u8; 4] = [0x69, 0x70, 0x72, 0x70];
    let ipco_t: [u8; 4] = [0x69, 0x70, 0x63, 0x6f];
    let colr_t: [u8; 4] = [0x63, 0x6f, 0x6c, 0x72];
    assert(meta_t@ =~= fourcc(0x6d, 0x65, 0x74, 0x61));
    assert(iprp_t@ =~= fourcc(0x69, 0x70, 0x72, 0x70));
    assert(ipco_t@ =~= fourcc(0x69, 0x70, 0x63, 0x6f));
    assert(colr_t@ =~= fourcc(0x63, 0x6f, 0x6c, 0x72));

    // Find top-level meta box
    let meta_start = match find_box(data, 0, n, meta_t) {
        Some(p) => p,
        None => {
            return Err(AvifEmbedError::NoMeta);
        },
    };
    proof {
        lemma_box_scan_found(data@, 0, n as int, meta_t@);
    }
    let meta_end = meta_start + read_u32_be(data, meta_start) as usize;

    // Find iprp inside meta (meta is a full box: 12-byte header)
    let iprp_start = match find_box(data, meta_start + 12, meta_end, iprp_t) {
        Some(p) => p,
        None => {
            return Err(AvifEmbedError::NoIprp);
        },
    };
    proof {
        lemma_box_scan_found(data@, meta_start + 12, meta_end as int, iprp_t@);
    }
    let iprp_end = iprp_start + read_u32_be(data, iprp_start) as usize;

    // Find ipco inside iprp
    let ipco_start = match find_box(data, iprp_start + 8, iprp_end, ipco_t) {
        Some(p) => p,
        None => {
            return Err(AvifEmbedError::NoIpco);
        },
    };
    proof {
        lemma_box_scan_found(data@, iprp_start + 8, iprp_end as int, ipco_t@);
    }
    let ipco_end = ipco_start + read_u32_be(data, ipco_start) as usize;

    // Replace existing colr box or insert at start of ipco content
    match find_box(data, ipco_start + 8, ipco_end, colr_t) {
        Some(colr_start) => {
            proof {
                lemma_box_scan_found(data@, ipco_start + 8, ipco_end as int, colr_t@);
            }
            let old_size = read_u32_be(data, colr_start) as usize;
            Ok((meta_start, iprp_start, ipco_start, colr_start, colr_start + old_size))
        },
        None => Ok((meta_start, iprp_start, ipco_start, ipco_start + 8, ipco_start + 8)),
    }
}

/// Fills the slot with `icc`'s `colr` box and grows the enclosing box sizes;
/// see `colr_spliced`.
fn splice_colr(
    data: &[u8],
    icc: &[u8],
    meta: usize,
    iprp: usize,
    ipco: usize,
    start: usize,
    end: usize,
) -> (out: Vec<u8>)
    requires
        data@.len() + icc@.len() + 12 <= usize::MAX,
        slot_nested(
            data@,
            ColrSlot {
                meta: meta as int,
                iprp: iprp as int,
                ipco: ipco as int,
                start: start as int,
                end: end as int,
            },
        ),
    ensures
        out@ == colr_spliced(
            data@,
            icc@,
            ColrSlot {
                meta: meta as int,
                iprp: iprp as int,
                ipco: ipco as int,
                start: start as int,
                end: end as int,
            },
        ),
        out@.len() == data@.len() + slot_delta(
            icc@,
            ColrSlot {
                meta: meta as int,
                iprp: iprp as int,
                ipco: ipco as int,
                start: start as int,
                end: end as int,
            },
        ),
{
    let ghost slot = ColrSlot {
        meta: meta as int,
        iprp: iprp as int,
        ipco: ipco as int,
        start: start as int,
        end: end as int,
    };
    let n = data.len();
    let new_colr_size: usize = 12 + icc.len();
    let delta: i128 = new_colr_size as i128 - (end - start) as i128;
    let mut out: Vec<u8> = Vec::new();
    push_range(&mut out, data, 0, start);
    push_be(&mut out, (new_colr_size as u64) % 0x1_0000_0000, 4);
    push_be(&mut out, 0x636f6c72, 4);
    push_be(&mut out, 0x72494343, 4);
    push_all(&mut out, icc);
    push_range(&mut out, data, end, n);
    proof {
        lemma_fourcc_values();
        assert(out@ =~= data@.subrange(0, start as int) + colr_icc_box(icc@) + data@.subrange(
            end as int,
            n as int,
        ));
    }
    let ipco_size = read_u32_be(data, ipco);
    let iprp_size = read_u32_be(data, iprp);
    let meta_size = read_u32_be(data, meta);
    write_u32_be(&mut out, ipco, ((ipco_size as i128 + delta) % 0x1_0000_0000) as u32);
    write_u32_be(&mut out, iprp, ((iprp_size as i128 + delta) % 0x1_0000_0000) as u32);
    write_u32_be(&mut out, meta, ((meta_size as i128 + delta) % 0x1_0000_0000) as u32);
    out
}

// ── sRGB ────────────────────────────────────────────────────────────────────

/// The XYZ tags of the sRGB profile: the D50 media white point and the
/// D50-adapted sRGB colorants, as `s15Fixed16` values.
pub open spec fn srgb_xyz_tags() -> Seq<IccXyz> {
    seq![
        IccXyz { sig: [0x77, 0x74, 0x70, 0x74], x: 0x0000_F6D6, y: 0x0001_0000, z: 0x0000_D32D },
        IccXyz { sig: [0x72, 0x58, 0x59, 0x5a], x: 0x0000_6FA2, y: 0x0000_38F5, z: 0x0000_0390 },
        IccXyz { sig: [0x67, 0x58, 0x59, 0x5a], x: 0x0000_6299, y: 0x0000_B786, z: 0x0000_1852 },
        IccXyz { sig: [0x62, 0x58, 0x59, 0x5a], x: 0x0000_24A0, y: 0x0000_0F84, z: 0x0000_B6CF },
    ]
}

/// The tone-curve tags of the sRGB profile: one gamma of `0x0238` (about
/// 2.2, as `u8Fixed8`) for each of red, green and blue.
pub open spec fn srgb_trc_tags() -> Seq<IccGamma> {
    seq![
        IccGamma { sig: [0x72, 0x54, 0x52, 0x43], gamma: 0x0238 },
        IccGamma { sig: [0x67, 0x54, 0x52, 0x43], gamma: 0x0238 },
        IccGamma { sig: [0x62, 0x54, 0x52, 0x43], gamma: 0x0238 },
    ]
}

/// The minimal sRGB profile: a v2.1 display (`mntr`) profile in `RGB `
/// described as "sRGB", with copyright "Public Domain", the tags above.
pub open spec fn srgb_model() -> MatrixTrcView {
    MatrixTrcView {
        class: fourcc(0x6d, 0x6e, 0x74, 0x72),
        space: fourcc(0x52, 0x47, 0x42, 0x20),
        version: seq![2u8, 1, 0],
        desc_sig: fourcc(0x64, 0x65, 0x73, 0x63),
        desc: "sRGB"@,
        cprt_sig: fourcc(0x63, 0x70, 0x72, 0x74),
        cprt: "Public Domain"@,
        xyz: srgb_xyz_tags(),
        trc: srgb_trc_tags(),
    }
}

/// Builds the sRGB profile model.
fn build_srgb_model() -> (m: MatrixTrcProfile)
    ensures
        m@ == srgb_model(),
{
    let mut xyz: Vec<IccXyz> = Vec::new();
    xyz.push(IccXyz { sig: [0x77, 0x74, 0x70, 0x74], x: 0x0000_F6D6, y: 0x0001_0000, z: 0x0000_D32D });
    xyz.push(IccXyz { sig: [0x72, 0x58, 0x59, 0x5a], x: 0x0000_6FA2, y: 0x0000_38F5, z: 0x0000_0390 });
    xyz.push(IccXyz { sig: [0x67, 0x58, 0x59, 0x5a], x: 0x0000_6299, y: 0x0000_B786, z: 0x0000_1852 });
    xyz.push(IccXyz { sig: [0x62, 0x58, 0x59, 0x5a], x: 0x0000_24A0, y: 0x0000_0F84, z: 0x0000_B6CF });
    let mut trc: Vec<IccGamma> = Vec::new();
    trc.push(IccGamma { sig: [0x72, 0x54, 0x52, 0x43], gamma: 0x0238 });
    trc.push(IccGamma { sig: [0x67, 0x54, 0x52, 0x43], gamma: 0x0238 });
    trc.push(IccGamma { sig: [0x62, 0x54, 0x52, 0x43], gamma: 0x0238 });
    let m = MatrixTrcProfile {
        class: [0x6d, 0x6e, 0x74, 0x72],
        space: [0x52, 0x47, 0x42, 0x20],
        version: [2, 1, 0],
        desc: IccText { sig: [0x64, 0x65, 0x73, 0x63], text: String::from_str("sRGB") },
        cprt: IccText { sig: [0x63, 0x70, 0x72, 0x74], text: String::from_str("Public Domain") },
        xyz,
        trc,
    };
    assert(m@.class =~= fourcc(0x6d, 0x6e, 0x74, 0x72));
    assert(m@.space =~= fourcc(0x52, 0x47, 0x42, 0x20));
    assert(m@.version =~= seq![2u8, 1, 0]);
    assert(m@.desc_sig =~= fourcc(0x64, 0x65, 0x73, 0x63));
    assert(m@.cprt_sig =~= fourcc(0x63, 0x70, 0x72, 0x74));
    assert(m@.xyz =~= srgb_xyz_tags());
    assert(m@.trc =~= srgb_trc_tags());
    m
}

/// The sRGB model is one `gamut-icc` serializes.
proof fn lemma_srgb_serializable()
    ensures
        matrix_trc_serializable(srgb_model()),
{
    let p = srgb_model();
    reveal_strlit("sRGB");
    reveal_strlit("Public Domain");
    assert(is_icc_ascii(p.desc));
    assert(is_icc_ascii(p.cprt));
    let tags = matrix_trc_tags(p);
    let sigs = seq![
        fourcc(0x64, 0x65, 0x73, 0x63),
        fourcc(0x63, 0x70, 0x72, 0x74),
        fourcc(0x77, 0x74, 0x70, 0x74),
        fourcc(0x72, 0x58, 0x59, 0x5a),
        fourcc(0x67, 0x58, 0x59, 0x5a),
        fourcc(0x62, 0x58, 0x59, 0x5a),
        fourcc(0x72, 0x54, 0x52, 0x43),
        fourcc(0x67, 0x54, 0x52, 0x43),
        fourcc(0x62, 0x54, 0x52, 0x43),
    ];
    assert(tags.len() == 9);
    assert forall|k: int| 0 <= k < 9 implies tag_sig(#[trigger] tags[k]) == sigs[k] && tag_text_ok(
        tags[k],
    ) by {
        if k >= 2 && k < 6 {
            assert(tags[k] == p.xyz.map_values(|t: IccXyz| xyz_tag(t))[k - 2]);
        } else if k >= 6 {
            assert(tags[k] == p.trc.map_values(|t: IccGamma| gamma_tag(t))[k - 6]);
        }
    }
    assert forall|i: int, j: int| 0 <= i < j < tags.len() implies tag_sig(#[trigger] tags[i]) != tag_sig(
        #[trigger] tags[j],
    ) by {
        if sigs[i] == sigs[j] {
            assert(sigs[i][0] == sigs[j][0]);
            assert(sigs[i][1] == sigs[j][1]);
            assert(sigs[i][3] == sigs[j][3]);
        }
    }
    assert(is_known_class(p.class));
    assert(is_known_space(p.space));
}

/// What the sRGB profile serializes: a version 2.1.0 display (`mntr`) profile
/// in `RGB ` whose tags are, in order, `desc` "sRGB", `cprt` "Public Domain",
/// the D50 media white point `wtpt` (0xF6D6, 0x10000, 0xD32D), the
/// D50-adapted colorants `rXYZ` (0x6FA2, 0x38F5, 0x0390), `gXYZ` (0x6299,
/// 0xB786, 0x1852) and `bXYZ` (0x24A0, 0x0F84, 0xB6CF), and the tone curves
/// `rTRC`, `gTRC`, `bTRC`, each the gamma 0x0238 (about 2.2).
#[verifier::spinoff_prover]
pub proof fn lemma_srgb_profile_content()
    ensures
        icc_matrix_trc_bytes(srgb_model()) == icc_profile_bytes(
            IccHeaderView {
                class: seq![0x6du8, 0x6e, 0x74, 0x72],
                space: seq![0x52u8, 0x47, 0x42, 0x20],
                version: seq![2u8, 1, 0],
            },
            seq![
                IccTagView::TextDescription(seq![0x64u8, 0x65, 0x73, 0x63], "sRGB"@),
                IccTagView::Text(seq![0x63u8, 0x70, 0x72, 0x74], "Public Domain"@),
                IccTagView::Xyz(seq![0x77u8, 0x74, 0x70, 0x74], 0xF6D6, 0x1_0000, 0xD32D),
                IccTagView::Xyz(seq![0x72u8, 0x58, 0x59, 0x5a], 0x6FA2, 0x38F5, 0x0390),
                IccTagView::Xyz(seq![0x67u8, 0x58, 0x59, 0x5a], 0x6299, 0xB786, 0x1852),
                IccTagView::Xyz(seq![0x62u8, 0x58, 0x59, 0x5a], 0x24A0, 0x0F84, 0xB6CF),
                IccTagView::Gamma(seq![0x72u8, 0x54, 0x52, 0x43], 0x0238),
                IccTagView::Gamma(seq![0x67u8, 0x54, 0x52, 0x43], 0x0238),
                IccTagView::Gamma(seq![0x62u8, 0x54, 0x52, 0x43], 0x0238),
            ],
        ),
{
    let p = srgb_model();
    let tags = matrix_trc_tags(p);
    let lit = seq![
        IccTagView::TextDescription(seq![0x64u8, 0x65, 0x73, 0x63], "sRGB"@),
        IccTagView::Text(seq![0x63u8, 0x70, 0x72, 0x74], "Public Domain"@),
        IccTagView::Xyz(seq![0x77u8, 0x74, 0x70, 0x74], 0xF6D6, 0x1_0000, 0xD32D),
        IccTagView::Xyz(seq![0x72u8, 0x58, 0x59, 0x5a], 0x6FA2, 0x38F5, 0x0390),
        IccTagView::Xyz(seq![0x67u8, 0x58, 0x59, 0x5a], 0x6299, 0xB786, 0x1852),
        IccTagView::Xyz(seq![0x62u8, 0x58, 0x59, 0x5a], 0x24A0, 0x0F84, 0xB6CF),
        IccTagView::Gamma(seq![0x72u8, 0x54, 0x52, 0x43], 0x0238),
        IccTagView::Gamma(seq![0x67u8, 0x54, 0x52, 0x43], 0x0238),
        IccTagView::Gamma(seq![0x62u8, 0x54, 0x52, 0x43], 0x0238),
    ];
    assert(tags.len() == 9);
    assert forall|k: int| 0 <= k < 9 implies #[trigger] tags[k] == lit[k] by {
        if k >= 2 && k < 6 {
            assert(tags[k] == p.xyz.map_values(|t: IccXyz| xyz_tag(t))[k - 2]);
            let t = p.xyz[k - 2];
            assert(t.sig@ =~= lit[k]->Xyz_0);
        } else if k >= 6 {
            assert(tags[k] == p.trc.map_values(|t: IccGamma| gamma_tag(t))[k - 6]);
            let t = p.trc[k - 6];
            assert(t.sig@ =~= lit[k]->Gamma_0);
        } else if k == 0 {
            assert(p.desc_sig =~= seq![0x64u8, 0x65, 0x73, 0x63]);
        } else {
            assert(p.cprt_sig =~= seq![0x63u8, 0x70, 0x72, 0x74]);
        }
    }
    assert(tags =~= lit);
    assert(p.class =~= seq![0x6du8, 0x6e, 0x74, 0x72]);
    assert(p.space =~= seq![0x52u8, 0x47, 0x42, 0x20]);
}

impl IccProfile {
    /// Create an sRGB ICC profile.
    ///
    /// This is a minimal sRGB profile suitable for embedding in most images:
    /// the v2.1 display profile `srgb_model`, serialized by `gamut-icc`.
    pub fn srgb() -> (p: Self)
        ensures
            p.bytes() == icc_matrix_trc_bytes(srgb_model()),
            icc_layout_matches(p.bytes(), srgb_model()),
            240 <= p.bytes().len() <= 506,
    {
        let model = build_srgb_model();
        proof {
            lemma_srgb_serializable();
            lemma_matrix_trc_size_bound(srgb_model());
            reveal_strlit("sRGB");
            reveal_strlit("Public Domain");
        }
        match serialize_matrix_trc(&model) {
            Ok(data) => Self { data },
            Err(_) => {
                proof {
                    assert(false);
                }
                vstd::pervasive::unreached()
            },
        }
    }

    /// Whether the bytes parse as an ICC profile: header, tag table, and every
    /// tag's element data, as `gamut-icc` reads them.
    pub fn is_valid(&self) -> (b: bool)
        ensures
            b == icc_parses(self.bytes()),
    {
        profile_parses(self.data.as_slice())
    }

    /// Create an ICC profile from raw bytes.
    pub fn from_bytes(data: Vec<u8>) -> (p: Self)
        ensures
            p.bytes() == data@,
    {
        Self { data }
    }

    /// The profile bytes.
    pub closed spec fn bytes(&self) -> Seq<u8> {
        self.data@
    }

    /// Get the ICC profile bytes.
    pub fn as_bytes(&self) -> (b: &[u8])
        ensures
            b@ == self.bytes(),
    {
        self.data.as_slice()
    }

    /// Append ICC profile to existing JPEG data.
    ///
    /// The profile is stored in APP2 segments by `img-parts` (replacing any
    /// profile already present) and the JPEG is re-encoded.
    pub fn append_to_jpeg(&self, jpeg_data: Vec<u8>) -> (r: Result<Vec<u8>, IccError>)
        ensures
            match jpeg_parse(jpeg_data@) {
                None => r matches Err(IccError::Container(_)),
                Some(segs) => r matches Ok(v) && v@ == jpeg_bytes(
                    jpeg_icc_segments(segs, self.bytes()),
                ),
            },
    {
        let mut jpeg = match jpeg_from_bytes(jpeg_data) {
            Ok(j) => j,
            Err(msg) => {
                return Err(IccError::Container(msg));
            },
        };
        let mut profile: Vec<u8> = Vec::new();
        push_all(&mut profile, self.data.as_slice());
        jpeg_set_icc_profile(&mut jpeg, profile);
        Ok(jpeg_to_bytes(jpeg))
    }

    /// Embed ICC profile into AVIF (ISOBMFF) data.
    ///
    /// Replaces or inserts a `colr rICC` box in `meta/iprp/ipco` and patches
    /// `iloc` extent offsets to account for the file-size change.
    pub fn append_to_avif(&self, avif_data: Vec<u8>) -> (r: Result<Vec<u8>, IccError>)
        requires
            avif_data@.len() + self.bytes().len() + 12 <= usize::MAX,
        ensures
            match avif_with_icc(avif_data@, self.bytes()) {
                Ok(out) => r matches Ok(v) && v@ == out,
                Err(e) => r matches Err(IccError::Container(m)) && m@ == avif_error_text(e),
            },
    {
        let data = avif_data;
        let (meta_start, iprp_start, ipco_start, splice_start, splice_end) = match find_colr_slot(
            data.as_slice(),
        ) {
            Ok(slot) => slot,
            Err(e) => {
                return avif_err(e);
            },
        };
        let ghost slot = ColrSlot {
            meta: meta_start as int,
            iprp: iprp_start as int,
            ipco: ipco_start as int,
            start: splice_start as int,
            end: splice_end as int,
        };
        let meta_size = read_u32_be(data.as_slice(), meta_start) as usize;
        let icc_bytes = self.as_bytes();
        let delta: i128 = (12 + icc_bytes.len()) as i128 - (splice_end - splice_start) as i128;
        let mut out = splice_colr(data.as_slice(), icc_bytes, meta_start, iprp_start, ipco_start, splice_start, splice_end);
        assert(delta == slot_delta(self.bytes(), slot));

        // Patch iloc extent offsets: the data after the splice moved by delta bytes
        let iloc_t: [u8; 4] = [0x69, 0x6c, 0x6f, 0x63];
        assert(iloc_t@ =~= fourcc(0x69, 0x6c, 0x6f, 0x63));
        let new_meta_end = (meta_start as i128 + meta_size as i128 + delta) as usize;
        match find_box(out.as_slice(), meta_start + 12, new_meta_end, iloc_t) {
            None => Ok(out),
            Some(iloc_start) => {
                proof {
                    lemma_box_scan_found(out@, meta_start + 12, new_meta_end as int, iloc_t@);
                }
                match patch_iloc_extents(&mut out, iloc_start, delta) {
                    Ok(()) => Ok(out),
                    Err(e) => avif_err(AvifEmbedError::Iloc(e)),
                }
            },
        }
    }

    /// Embed ICC profile into JXL data.
    ///
    /// If `jxl_data` is a naked codestream (starts with `[0xFF, 0x0A]`), it is
    /// first wrapped in a JXL container. An `iccp` box is then inserted before
    /// the first `Exif`/`xml ` box, or appended at the end.
    pub fn append_to_jxl(&self, jxl_data: Vec<u8>) -> (r: Result<Vec<u8>, IccError>)
        requires
            jxl_data@.len() + self.bytes().len() + 48 <= usize::MAX,
        ensures
            match jxl_with_icc(jxl_data@, self.bytes()) {
                Some(out) => r matches Ok(v) && v@ == out,
                None => r matches Err(IccError::Container(m)) && m@ == "unrecognized JXL format"@,
            },
    {
        let ghost input = jxl_data@;
        let data = if jxl_data.len() >= 2 && jxl_data[0] == 0xff && jxl_data[1] == 0x0a {
            let mut container: Vec<u8> = Vec::new();
            push_be(&mut container, 0x0c, 4);
            push_be(&mut container, 0x4a584c20, 4);
            push_be(&mut container, 0x0d0a870a, 4);
            push_be(&mut container, 0x14, 4);
            push_be(&mut container, 0x66747970, 4);
            push_be(&mut container, 0x6a786c20, 4);
            push_be(&mut container, 0, 4);
            push_be(&mut container, 0x6a786c20, 4);
            let jxlc_size: u64 = ((jxl_data.len() as u64 % 0x1_0000_0000) + 8) % 0x1_0000_0000;
            push_be(&mut container, jxlc_size, 4);
            push_be(&mut container, 0x6a786c63, 4);
            push_all(&mut container, jxl_data.as_slice());
            proof {
                lemma_fourcc_values();
                vstd::arithmetic::div_mod::lemma_add_mod_noop(jxl_data@.len() as int, 8, 0x1_0000_0000);
                assert(container@ =~= jxl_container_header(input.len()) + input);
            }
            container
        } else if jxl_data.len() >= 8 && jxl_data[4] == 0x4a && jxl_data[5] == 0x58
            && jxl_data[6] == 0x4c && jxl_data[7] == 0x20 {
            assert(jxl_data@.subrange(4, 8) =~= fourcc(0x4a, 0x58, 0x4c, 0x20));
            jxl_data
        } else {
            assert(!is_jxl_container(input)) by {
                if input.len() >= 8 && input.subrange(4, 8) == fourcc(0x4a, 0x58, 0x4c, 0x20) {
                    assert(input.subrange(4, 8)[0] == input[4]);
                    assert(input.subrange(4, 8)[1] == input[5]);
                    assert(input.subrange(4, 8)[2] == input[6]);
                    assert(input.subrange(4, 8)[3] == input[7]);
                }
            }
            return Err(IccError::Container(String::from_str("unrecognized JXL format")));
        };
        let insert_pos = find_jxl_insert_pos(data.as_slice());
        let icc_bytes = self.as_bytes();
        let iccp_size: u64 = ((icc_bytes.len() as u64 % 0x1_0000_0000) + 8) % 0x1_0000_0000;
        let mut out: Vec<u8> = Vec::new();
        push_range(&mut out, data.as_slice(), 0, insert_pos);
        push_be(&mut out, iccp_size, 4);
        push_be(&mut out, 0x69636370, 4);
        push_all(&mut out, icc_bytes);
        push_range(&mut out, data.as_slice(), insert_pos, data.len());
        proof {
            lemma_fourcc_values();
            vstd::arithmetic::div_mod::lemma_add_mod_noop(icc_bytes@.len() as int, 8, 0x1_0000_0000);
            assert(out@ =~= data@.subrange(0, insert_pos as int) + iccp_box(self.bytes())
                + data@.subrange(insert_pos as int, data@.len() as int));
        }
        Ok(out)
    }
}

impl Default for IccProfile {
    /// The sRGB profile.
    fn default() -> (p: Self)
        ensures
            p.bytes() == icc_matrix_trc_bytes(srgb_model()),
    {
        Self::srgb()
    }
}

/// The big-endian encodings of the four-character codes written here.
proof fn lemma_fourcc_values()
    ensures
        be_bytes(0x0c, 4) == fourcc(0, 0, 0, 0x0c),
        be_bytes(0x4a584c20, 4) == fourcc(0x4a, 0x58, 0x4c, 0x20),
        be_bytes(0x0d0a870a, 4) == fourcc(0x0d, 0x0a, 0x87, 0x0a),
        be_bytes(0x14, 4) == fourcc(0, 0, 0, 0x14),
        be_bytes(0x66747970, 4) == fourcc(0x66, 0x74, 0x79, 0x70),
        be_bytes(0x6a786c20, 4) == fourcc(0x6a, 0x78, 0x6c, 0x20),
        be_bytes(0, 4) == fourcc(0, 0, 0, 0),
        be_bytes(0x6a786c63, 4) == fourcc(0x6a, 0x78, 0x6c, 0x63),
        be_bytes(0x69636370, 4) == fourcc(0x69, 0x63, 0x63, 0x70),
        be_bytes(0x636f6c72, 4) == fourcc(0x63, 0x6f, 0x6c, 0x72),
        be_bytes(0x72494343, 4) == fourcc(0x72, 0x49, 0x43, 0x43),
{
    lemma_be_bytes4(0x0c);
    lemma_be_bytes4(0x4a584c20);
    lemma_be_bytes4(0x0d0a870a);
    lemma_be_bytes4(0x14);
    lemma_be_bytes4(0x66747970);
    lemma_be_bytes4(0x6a786c20);
    lemma_be_bytes4(0);
    lemma_be_bytes4(0x6a786c63);
    lemma_be_bytes4(0x69636370);
    lemma_be_bytes4(0x636f6c72);
    lemma_be_bytes4(0x72494343);
}

} // verus!
